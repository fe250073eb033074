//! Decisions of a clipboard that is kept in step with a peer's: what to read,
//! what to send, what to write, and what to tell the user.
use vstd::prelude::*;

use crate::clipboard::{
    record_kind, validate_content, ClipboardContent, ClipboardError, ClipboardFault,
    FILE_ACCEPT_KIND, FILE_CHUNK_KIND, FILE_FINISH_KIND, FILE_REJECT_KIND, FILE_START_KIND,
};
use crate::config::push_entry;
use crate::file_bundle::{decode_file_bundle, FileEntry};
use crate::file_paths::join_path;
use crate::file_transfer::FileSelection;
use crate::random::random_bytes;
use crate::text::{
    decimal_text, hex_encode, push_decimal, same_text, spells, split_lines, text_from_utf8,
    text_from_utf8_lossy, to_chars, to_text, trim_chars,
};
use crate::wire::same_bytes;

verus! {

/// Milliseconds between two looks at the local clipboard.
pub const POLL_INTERVAL_MS: u64 = 250;

/// Milliseconds of rest between two rounds.
pub const IDLE_INTERVAL_MS: u64 = 10;

/// Records that are taken in one round.
pub const ROUND_RECORDS: usize = 64;

/// How an offer of files ended.
#[derive(Debug, Clone, Copy, PartialEq, Eq, Structural)]
pub enum FileTransferOutcome {
    Completed,
    Declined,
}

/// The outcome once the receiver has decided and, if it agreed, has all files.
pub fn transfer_outcome(approved: bool) -> (outcome: FileTransferOutcome)
    ensures
        outcome == if approved {
            FileTransferOutcome::Completed
        } else {
            FileTransferOutcome::Declined
        },
{
    if approved {
        FileTransferOutcome::Completed
    } else {
        FileTransferOutcome::Declined
    }
}

/// Which part of the exchange a record belongs to.
#[derive(Debug, Clone, Copy, PartialEq, Eq, Structural)]
pub enum RecordClass {
    /// An offer of files, or part of one.
    Files,
    /// An answer to an offer. The sender takes it while it waits; a late
    /// duplicate is harmless.
    Decision,
    /// Text or an image, or nothing known.
    Content,
}

pub open spec fn class_of(record: Seq<u8>) -> RecordClass {
    match crate::clipboard::kind_of_record(record) {
        Some(kind) => if kind == FILE_START_KIND || kind == FILE_CHUNK_KIND || kind
            == FILE_FINISH_KIND {
            RecordClass::Files
        } else if kind == FILE_ACCEPT_KIND || kind == FILE_REJECT_KIND {
            RecordClass::Decision
        } else {
            RecordClass::Content
        },
        None => RecordClass::Content,
    }
}

pub fn classify_record(record: &[u8]) -> (class: RecordClass)
    ensures
        class == class_of(record@),
{
    match record_kind(record) {
        Some(kind) => {
            if kind == FILE_START_KIND || kind == FILE_CHUNK_KIND || kind == FILE_FINISH_KIND {
                RecordClass::Files
            } else if kind == FILE_ACCEPT_KIND || kind == FILE_REJECT_KIND {
                RecordClass::Decision
            } else {
                RecordClass::Content
            }
        },
        None => RecordClass::Content,
    }
}

/// What was received and is now on the local clipboard.
pub enum ReceivedClipboard {
    Content(ClipboardContent),
    Files(FileSelection),
}

pub open spec fn content_of(content: Option<ClipboardContent>) -> Option<
    crate::clipboard::ContentView,
> {
    match content {
        Some(content) => Some(content@),
        None => None,
    }
}

pub open spec fn selection_of(selection: Option<FileSelection>) -> Option<
    crate::file_transfer::SelectionView,
> {
    match selection {
        Some(selection) => Some(selection@),
        None => None,
    }
}

/// A received value becomes the local baseline, which prevents echo loops.
pub fn update_received_baseline(
    received: ReceivedClipboard,
    last_value: &mut Option<ClipboardContent>,
    last_file_selection: &mut Option<FileSelection>,
)
    ensures
        match received {
            ReceivedClipboard::Content(content) => {
                &&& content_of(*final(last_value)) == Some(content@)
                &&& *final(last_file_selection) is None
            },
            ReceivedClipboard::Files(selection) => {
                &&& selection_of(*final(last_file_selection)) == Some(selection@)
                &&& *final(last_value) is None
            },
        },
{
    match received {
        ReceivedClipboard::Content(content) => {
            *last_value = Some(content);
            *last_file_selection = None;
        },
        ReceivedClipboard::Files(selection) => {
            *last_file_selection = Some(selection);
            *last_value = None;
        },
    }
}

/// What the synchronization remembers.
pub struct SyncView {
    /// The value that both clipboards have.
    pub value: Option<crate::clipboard::ContentView>,
    /// The files that were seen or received last.
    pub selection: Option<crate::file_transfer::SelectionView>,
    /// Whether the user was told that a selection is too large.
    pub reported: bool,
}

/// What can happen to a synchronized clipboard.
pub enum SyncEvent {
    Received(crate::clipboard::ContentView),
    ReceivedFiles(crate::file_transfer::SelectionView),
    SawFiles(crate::file_transfer::SelectionView),
    SawNoFiles,
    SawContent(crate::clipboard::ContentView),
    SawNoContent,
    SawTooMuch,
    Failed,
}

impl SyncView {
    /// What is remembered after an event.
    pub open spec fn after(self, event: SyncEvent) -> SyncView {
        match event {
            SyncEvent::Received(content) => SyncView {
                value: Some(content),
                selection: None,
                ..self
            },
            SyncEvent::ReceivedFiles(selection) => SyncView {
                value: None,
                selection: Some(selection),
                ..self
            },
            SyncEvent::SawFiles(selection) => SyncView {
                selection: Some(selection),
                reported: false,
                ..self
            },
            SyncEvent::SawContent(content) => SyncView {
                value: Some(content),
                selection: None,
                reported: false,
            },
            SyncEvent::SawNoContent => SyncView { reported: false, ..self },
            SyncEvent::SawTooMuch => SyncView { reported: true, ..self },
            SyncEvent::SawNoFiles | SyncEvent::Failed => self,
        }
    }

    /// What an event has sent to the peer: content that the peer does not have
    /// yet. Files are never sent.
    pub open spec fn sends(self, event: SyncEvent) -> Option<crate::clipboard::ContentView> {
        match event {
            SyncEvent::SawContent(content) if self.value != Some(content) => Some(content),
            _ => None,
        }
    }

    /// Whether an event tells the user that a selection is too large: once,
    /// until something else is seen.
    pub open spec fn reports(self, event: SyncEvent) -> bool {
        event is SawTooMuch && !self.reported
    }

    /// What is remembered after a run of events.
    pub open spec fn after_all(self, events: Seq<SyncEvent>) -> SyncView
        decreases events.len(),
    {
        if events.len() == 0 {
            self
        } else {
            self.after_all(events.drop_last()).after(events.last())
        }
    }
}

/// What a look for files on the local clipboard gave.
pub enum FilePoll {
    Selection(FileSelection),
    Nothing,
    TooLarge,
    Failed(ClipboardError),
}

/// What a look for other content gave.
pub enum ContentPoll {
    Content(ClipboardContent),
    Nothing,
    TooLarge,
    Failed(ClipboardError),
}

/// What to do after a look at the local clipboard.
pub enum SyncStep {
    Nothing,
    /// There are no files: look for other content.
    LookForContent,
    /// Send this to the peer.
    Send(ClipboardContent),
    /// Tell the user that the selection is too large and stays local.
    ReportTooLarge,
    Fail(ClipboardError),
}

pub open spec fn file_event(poll: FilePoll) -> SyncEvent {
    match poll {
        FilePoll::Selection(selection) => SyncEvent::SawFiles(selection@),
        FilePoll::Nothing => SyncEvent::SawNoFiles,
        FilePoll::TooLarge => SyncEvent::SawTooMuch,
        FilePoll::Failed(_) => SyncEvent::Failed,
    }
}

pub open spec fn content_event(poll: ContentPoll) -> SyncEvent {
    match poll {
        ContentPoll::Content(content) => SyncEvent::SawContent(content@),
        ContentPoll::Nothing => SyncEvent::SawNoContent,
        ContentPoll::TooLarge => SyncEvent::SawTooMuch,
        ContentPoll::Failed(_) => SyncEvent::Failed,
    }
}

fn same_content(a: &ClipboardContent, b: &ClipboardContent) -> (same: bool)
    ensures
        same == (a@ == b@),
{
    same_text(a.mime_type.as_str(), b.mime_type.as_str()) && same_bytes(
        a.bytes.as_slice(),
        b.bytes.as_slice(),
    )
}

fn copy_content(content: &ClipboardContent) -> (copy: ClipboardContent)
    ensures
        copy@ == content@,
{
    let bytes = crate::wire::copy_range(content.bytes.as_slice(), 0, content.bytes.len());
    assert(bytes@ =~= content.bytes@);
    ClipboardContent { mime_type: content.mime_type.as_str().to_string(), bytes }
}

/// Keeps one clipboard in step with a peer's.
pub struct ClipboardSync {
    last_value: Option<ClipboardContent>,
    last_file_selection: Option<FileSelection>,
    oversized_reported: bool,
}

impl View for ClipboardSync {
    type V = SyncView;

    closed spec fn view(&self) -> SyncView {
        SyncView {
            value: content_of(self.last_value),
            selection: selection_of(self.last_file_selection),
            reported: self.oversized_reported,
        }
    }
}

impl ClipboardSync {
    pub fn new() -> (sync: ClipboardSync)
        ensures
            sync@ == (SyncView { value: None, selection: None, reported: false }),
    {
        ClipboardSync { last_value: None, last_file_selection: None, oversized_reported: false }
    }

    /// Takes note of what was received.
    pub fn received(&mut self, received: ReceivedClipboard)
        ensures
            final(self)@ == old(self)@.after(
                match received {
                    ReceivedClipboard::Content(content) => SyncEvent::Received(content@),
                    ReceivedClipboard::Files(selection) => SyncEvent::ReceivedFiles(selection@),
                },
            ),
    {
        update_received_baseline(
            received,
            &mut self.last_value,
            &mut self.last_file_selection,
        );
    }

    /// Decides after a look for files. Files are never sent from here: sending
    /// them is an explicit action of the user, so a copied selection stays
    /// local, be it the user's own or one that was received.
    pub fn file_poll(&mut self, poll: FilePoll) -> (step: SyncStep)
        ensures
            final(self)@ == old(self)@.after(file_event(poll)),
            match poll {
                FilePoll::Selection(_) => step is Nothing,
                FilePoll::Nothing => step is LookForContent,
                FilePoll::TooLarge => if old(self)@.reports(file_event(poll)) {
                    step is ReportTooLarge
                } else {
                    step is Nothing
                },
                FilePoll::Failed(error) => step == SyncStep::Fail(error),
            },
    {
        match poll {
            FilePoll::Selection(selection) => {
                self.oversized_reported = false;
                self.last_file_selection = Some(selection);
                SyncStep::Nothing
            },
            FilePoll::Nothing => SyncStep::LookForContent,
            FilePoll::TooLarge => self.too_large(),
            FilePoll::Failed(error) => SyncStep::Fail(error),
        }
    }

    fn too_large(&mut self) -> (step: SyncStep)
        ensures
            final(self)@ == (SyncView { reported: true, ..old(self)@ }),
            if old(self)@.reported {
                step is Nothing
            } else {
                step is ReportTooLarge
            },
    {
        if self.oversized_reported {
            return SyncStep::Nothing;
        }
        self.oversized_reported = true;
        SyncStep::ReportTooLarge
    }

    /// Decides after a look for text or an image. What both sides have already
    /// is not sent. A confirmed other value means that a later copy of the same
    /// files is intentional; an empty clipboard does not.
    pub fn content_poll(&mut self, poll: ContentPoll) -> (step: SyncStep)
        ensures
            final(self)@ == old(self)@.after(content_event(poll)),
            match poll {
                ContentPoll::Content(_) => match old(self)@.sends(content_event(poll)) {
                    Some(content) => step matches SyncStep::Send(sent) && sent@ == content,
                    None => step is Nothing,
                },
                ContentPoll::Nothing => step is Nothing,
                ContentPoll::TooLarge => if old(self)@.reports(content_event(poll)) {
                    step is ReportTooLarge
                } else {
                    step is Nothing
                },
                ContentPoll::Failed(error) => step == SyncStep::Fail(error),
            },
    {
        match poll {
            ContentPoll::Content(content) => {
                self.oversized_reported = false;
                self.last_file_selection = None;
                if let Some(last) = &self.last_value {
                    if same_content(last, &content) {
                        return SyncStep::Nothing;
                    }
                }
                let kept = copy_content(&content);
                self.last_value = Some(kept);
                SyncStep::Send(content)
            },
            ContentPoll::Nothing => {
                self.oversized_reported = false;
                SyncStep::Nothing
            },
            ContentPoll::TooLarge => self.too_large(),
            ContentPoll::Failed(error) => SyncStep::Fail(error),
        }
    }
}

/// Whether an event brings no content and no received files.
pub open spec fn is_quiet(event: SyncEvent) -> bool {
    !(event is Received) && !(event is ReceivedFiles) && !(event is SawContent)
}

/// A value that was received is not sent back, and a value that was sent is
/// not sent again, whatever is seen of files or of an empty clipboard until it
/// is seen.
pub proof fn law_values_do_not_echo(
    sync: SyncView,
    content: crate::clipboard::ContentView,
    events: Seq<SyncEvent>,
)
    requires
        forall|i: int| 0 <= i < events.len() ==> is_quiet(#[trigger] events[i]),
    ensures
        sync.after(SyncEvent::Received(content)).after_all(events).sends(
            SyncEvent::SawContent(content),
        ) is None,
        sync.after(SyncEvent::SawContent(content)).after_all(events).sends(
            SyncEvent::SawContent(content),
        ) is None,
{
    lemma_quiet_keeps_value(sync.after(SyncEvent::Received(content)), events);
    lemma_quiet_keeps_value(sync.after(SyncEvent::SawContent(content)), events);
}

proof fn lemma_quiet_keeps_value(sync: SyncView, events: Seq<SyncEvent>)
    requires
        forall|i: int| 0 <= i < events.len() ==> is_quiet(#[trigger] events[i]),
    ensures
        sync.after_all(events).value == sync.value,
    decreases events.len(),
{
    if events.len() > 0 {
        lemma_quiet_keeps_value(sync, events.drop_last());
        assert(is_quiet(events[events.len() - 1]));
    }
}

/// Files are never synchronized by themselves: whatever is remembered, only
/// seen content is sent, and it is sent as it was seen.
pub proof fn law_files_stay_local(sync: SyncView, event: SyncEvent)
    ensures
        sync.sends(event) matches Some(content) ==> event == SyncEvent::SawContent(content),
        forall|selection: crate::file_transfer::SelectionView|
            (#[trigger] sync.sends(SyncEvent::SawFiles(selection))) is None,
{
}

/// Whether a type is among those that the clipboard offers.
pub open spec fn offers(types: Seq<char>, mime: Seq<char>) -> bool {
    crate::text::lines(types).contains(mime)
}

fn lines_offer(lines: &Vec<Vec<char>>, mime: &str) -> (found: bool)
    ensures
        found == crate::text::texts(lines@).contains(mime@),
{
    let mut i: usize = 0;
    let ghost all = crate::text::texts(lines@);
    while i < lines.len()
        invariant
            i <= lines.len(),
            all == crate::text::texts(lines@),
            forall|j: int| 0 <= j < i ==> all[j] != mime@,
        decreases lines.len() - i,
    {
        assert(all[i as int] == lines@[i as int]@);
        if spells(lines[i].as_slice(), mime) {
            assert(all[i as int] == mime@);
            return true;
        }
        i = i + 1;
    }
    false
}

/// The type to read from the clipboard: the first supported one that it
/// offers. Lists of files are read another way, never as their text.
pub open spec fn readable_type(types: Seq<char>) -> Option<Seq<char>> {
    if offers(types, "text/uri-list"@) {
        None
    } else if offers(types, "text/plain"@) {
        Some("text/plain"@)
    } else if offers(types, "text/plain;charset=utf-8"@) {
        Some("text/plain;charset=utf-8"@)
    } else if offers(types, "image/png"@) {
        Some("image/png"@)
    } else if offers(types, "image/jpeg"@) {
        Some("image/jpeg"@)
    } else if offers(types, "image/webp"@) {
        Some("image/webp"@)
    } else {
        None
    }
}

/// The type to read, from the listing of the clipboard tool.
pub fn content_type(listing: Vec<u8>) -> (result: Result<Option<&'static str>, ClipboardError>)
    ensures
        if vstd::utf8::valid_utf8(listing@) {
            result matches Ok(mime) && match mime {
                Some(mime) => readable_type(vstd::utf8::decode_utf8(listing@)) == Some(mime@),
                None => readable_type(vstd::utf8::decode_utf8(listing@)) is None,
            }
        } else {
            result matches Err(error) && error@ == ClipboardFault::InvalidRecord
        },
{
    let text = match text_from_utf8(listing) {
        Some(text) => text,
        None => {
            return Err(ClipboardError::InvalidRecord);
        },
    };
    let chars = to_chars(text.as_str());
    let lines = split_lines(chars.as_slice());
    if lines_offer(&lines, "text/uri-list") {
        return Ok(None);
    }
    if lines_offer(&lines, "text/plain") {
        return Ok(Some("text/plain"));
    }
    if lines_offer(&lines, "text/plain;charset=utf-8") {
        return Ok(Some("text/plain;charset=utf-8"));
    }
    if lines_offer(&lines, "image/png") {
        return Ok(Some("image/png"));
    }
    if lines_offer(&lines, "image/jpeg") {
        return Ok(Some("image/jpeg"));
    }
    if lines_offer(&lines, "image/webp") {
        return Ok(Some("image/webp"));
    }
    Ok(None)
}

/// Whether the clipboard offers a list of files.
pub fn offers_files(listing: &[u8]) -> (files: bool)
    ensures
        files == offers(crate::text::lossy_text(listing@), "text/uri-list"@),
{
    let text = text_from_utf8_lossy(listing);
    let chars = to_chars(text.as_str());
    let lines = split_lines(chars.as_slice());
    lines_offer(&lines, "text/uri-list")
}

/// The type that content is sent under. Some programs offer the qualified text
/// type but only ask for the plain one when pasting.
pub open spec fn sent_type(mime: Seq<char>) -> Seq<char> {
    if mime == "text/plain;charset=utf-8"@ {
        "text/plain"@
    } else {
        mime
    }
}

/// What was read from the clipboard as content to send.
pub fn read_content(mime: &str, bytes: Vec<u8>) -> (result: Result<
    ClipboardContent,
    ClipboardError,
>)
    requires
        crate::clipboard::is_supported_mime(mime@),
    ensures
        ({
            let content = crate::clipboard::ContentView { mime_type: sent_type(mime@), bytes: bytes@ };
            match crate::clipboard::content_fault(content) {
                Some(fault) => result matches Err(error) && error@ == fault,
                None => result matches Ok(read) && read@ == content,
            }
        }),
{
    let mime_type = if same_text(mime, "text/plain;charset=utf-8") {
        "text/plain".to_string()
    } else {
        mime.to_string()
    };
    let content = ClipboardContent { mime_type, bytes };
    match validate_content(&content) {
        Ok(_) => Ok(content),
        Err(error) => Err(error),
    }
}

/// What a list of files on the clipboard means. A list may also be a dragged
/// link or a directory; that stays local.
pub fn file_poll_of(selection: Result<FileSelection, ClipboardError>) -> (poll: FilePoll)
    ensures
        match selection {
            Ok(selection) => poll == FilePoll::Selection(selection),
            Err(ClipboardError::NoRegularFiles) => poll is Nothing,
            Err(ClipboardError::TooLarge) => poll is TooLarge,
            Err(error) => poll == FilePoll::Failed(error),
        },
{
    match selection {
        Ok(selection) => FilePoll::Selection(selection),
        Err(ClipboardError::NoRegularFiles) => FilePoll::Nothing,
        Err(ClipboardError::TooLarge) => FilePoll::TooLarge,
        Err(error) => FilePoll::Failed(error),
    }
}

/// How received content is put on the clipboard.
pub enum WritePlan {
    /// These bytes under this type.
    Bytes { mime_type: String, bytes: Vec<u8> },
    /// These files are written first; then their list is put there.
    Files(Vec<FileEntry>),
}

/// Whether a result is the plan for some content.
pub open spec fn is_plan(
    content: crate::clipboard::ContentView,
    result: Result<WritePlan, ClipboardError>,
) -> bool {
    match crate::clipboard::content_fault(content) {
        Some(fault) => result matches Err(error) && error@ == fault,
        None => if content.mime_type == crate::clipboard::file_transfer_mime() {
            match crate::file_bundle::bundle_denoted(content.bytes) {
                Ok(files) => result matches Ok(WritePlan::Files(entries))
                    && crate::file_bundle::bundle_entries(entries@) == files,
                Err(fault) => result matches Err(error) && error@ == fault,
            }
        } else {
            result matches Ok(WritePlan::Bytes { mime_type, bytes }) && mime_type@
                == content.mime_type && bytes@ == content.bytes
        },
    }
}

pub fn write_content(content: ClipboardContent) -> (result: Result<WritePlan, ClipboardError>)
    ensures
        is_plan(content@, result),
{
    if let Err(error) = validate_content(&content) {
        return Err(error);
    }
    if same_text(content.mime_type.as_str(), "application/x-cachybridge-file-list") {
        return match decode_file_bundle(content.bytes.as_slice()) {
            Ok(files) => Ok(WritePlan::Files(files)),
            Err(error) => Err(error),
        };
    }
    Ok(WritePlan::Bytes { mime_type: content.mime_type, bytes: content.bytes })
}

pub const MIB: u64 = 1_048_576;

pub const GIB: u64 = 1_073_741_824;

/// Where the numbers with 53 significant bits stop being all the integers.
pub const DOUBLE_LIMIT: u64 = 9_007_199_254_740_992;

/// The distance of neighbouring numbers with 53 significant bits.
pub open spec fn double_step(n: nat) -> nat
    decreases n,
{
    if n < DOUBLE_LIMIT {
        1
    } else {
        2 * double_step(n / 2)
    }
}

/// The nearest multiple of a step; a tie goes to the even multiple.
pub open spec fn nearest_multiple(n: nat, step: nat) -> nat {
    let whole = n / step;
    let rest = n % step;
    if rest * 2 > step || (rest * 2 == step && whole % 2 == 1) {
        (whole + 1) * step
    } else {
        whole * step
    }
}

/// The number with 53 significant bits that is nearest to `n`.
pub open spec fn as_double(n: nat) -> nat {
    nearest_multiple(n, double_step(n))
}

fn to_double(n: u64) -> (double: u128)
    ensures
        double == as_double(n as nat),
        double <= 0x2_0000_0000_0000_0000,
{
    let mut step: u64 = 1;
    let mut top: u64 = n;
    assert(1 * double_step(n as nat) == double_step(n as nat));
    while top >= DOUBLE_LIMIT
        invariant
            1 <= step,
            step * double_step(top as nat) == double_step(n as nat),
            step * top <= n,
        decreases top,
    {
        let ghost half = double_step((top / 2) as nat);
        proof {
            assert(step <= 0x800) by (nonlinear_arith)
                requires
                    step * top <= 0xffff_ffff_ffff_ffff,
                    top >= 0x20_0000_0000_0000,
            ;
            assert(step * (2 * half) == (step * 2) * half) by (nonlinear_arith);
            assert((step * 2) * (top / 2) <= step * top) by (nonlinear_arith)
                requires
                    2 * (top / 2) <= top,
                    step >= 0,
            ;
        }
        top = top / 2;
        step = step * 2;
    }
    assert(step * 1 == step) by (nonlinear_arith);
    assert(step == double_step(n as nat));
    let whole: u64 = n / step;
    let rest: u64 = n % step;
    proof {
        vstd::arithmetic::div_mod::lemma_fundamental_div_mod(n as int, step as int);
        vstd::arithmetic::div_mod::lemma_mod_bound(n as int, step as int);
        assert(whole * step == step * whole) by (nonlinear_arith);
        assert((whole + 1) * step == step * whole + step) by (nonlinear_arith);
    }
    if rest as u128 * 2 > step as u128 || (rest as u128 * 2 == step as u128 && whole % 2 == 1) {
        (whole as u128 + 1) * step as u128
    } else {
        whole as u128 * step as u128
    }
}

/// Tenths of a unit, rounded to the nearest; a tie goes to the even tenth.
pub open spec fn tenths(bytes: nat, unit: nat) -> nat {
    let whole = bytes * 10 / unit;
    let rest = bytes * 10 % unit;
    if rest * 2 > unit || (rest * 2 == unit && whole % 2 == 1) {
        whole + 1
    } else {
        whole
    }
}

pub open spec fn one_decimal(n: nat) -> Seq<char> {
    crate::text::decimal(n / 10) + "."@ + crate::text::decimal(n % 10)
}

/// A size in the largest unit that it fills. The division is one of numbers
/// with 53 significant bits, so the size is first brought to the nearest.
pub open spec fn size_text(bytes: nat) -> Seq<char> {
    if bytes >= GIB {
        one_decimal(tenths(as_double(bytes), GIB as nat)) + " GiB"@
    } else if bytes >= MIB {
        one_decimal(tenths(as_double(bytes), MIB as nat)) + " MiB"@
    } else {
        crate::text::decimal(bytes) + " bytes"@
    }
}

fn push_size(out: &mut String, bytes: u128, unit: u64)
    requires
        bytes <= 0x2_0000_0000_0000_0000,
        unit == MIB || unit == GIB,
    ensures
        final(out)@ == old(out)@ + one_decimal(tenths(bytes as nat, unit as nat)),
{
    let mut n: u128 = bytes * 10 / unit as u128;
    let rest: u128 = bytes * 10 % unit as u128;
    proof {
        if unit == MIB {
            assert(n == bytes * 10 / 1_048_576);
        } else {
            assert(n == bytes * 10 / 1_073_741_824);
        }
    }
    if rest * 2 > unit as u128 || (rest * 2 == unit as u128 && n % 2 == 1) {
        n = n + 1;
    }
    push_decimal(out, (n / 10) as u64);
    out.push_str(".");
    push_decimal(out, (n % 10) as u64);
    assert(out@ =~= old(out)@ + one_decimal(tenths(bytes as nat, unit as nat)));
}

/// A size in words.
pub fn human_size(bytes: u64) -> (text: String)
    ensures
        text@ == size_text(bytes as nat),
{
    let mut text = String::new();
    if bytes >= GIB {
        push_size(&mut text, to_double(bytes), GIB);
        text.push_str(" GiB");
    } else if bytes >= MIB {
        push_size(&mut text, to_double(bytes), MIB);
        text.push_str(" MiB");
    } else {
        push_decimal(&mut text, bytes);
        text.push_str(" bytes");
    }
    assert(text@ =~= size_text(bytes as nat));
    text
}

/// What an offer holds, in words.
pub open spec fn summary_text(files: Seq<(Seq<char>, u64)>) -> Seq<char> {
    if files.len() == 1 {
        files[0].0
    } else {
        crate::text::decimal(files.len()) + " files (starting with "@ + files[0].0 + ")"@
    }
}

pub open spec fn approval_text(files: Seq<(Seq<char>, u64)>, total: nat) -> Seq<char> {
    "A paired CachyBridge iMac wants to send:\n\n"@ + summary_text(files) + "\n"@ + size_text(total)
        + "\n\nAccept and save it in Downloads/CachyBridge?"@
}

/// The question to ask the user about an offer.
pub fn approval_message(manifest: &Vec<(String, u64)>, total_bytes: u64) -> (message: String)
    requires
        manifest@.len() > 0,
    ensures
        message@ == approval_text(
            crate::file_transfer::manifest_view(manifest@),
            total_bytes as nat,
        ),
{
    let ghost files = crate::file_transfer::manifest_view(manifest@);
    let mut summary = String::new();
    if manifest.len() == 1 {
        summary.push_str(manifest[0].0.as_str());
    } else {
        push_decimal(&mut summary, manifest.len() as u64);
        summary.push_str(" files (starting with ");
        summary.push_str(manifest[0].0.as_str());
        summary.push_str(")");
    }
    assert(files[0].0 == manifest@[0].0@);
    assert(summary@ =~= summary_text(files));
    let mut message = String::new();
    message.push_str("A paired CachyBridge iMac wants to send:\n\n");
    assert(message@ =~= "A paired CachyBridge iMac wants to send:\n\n"@);
    message.push_str(summary.as_str());
    message.push_str("\n");
    message.push_str(human_size(total_bytes).as_str());
    message.push_str("\n\nAccept and save it in Downloads/CachyBridge?");
    message
}

/// A text on one line of its own without the sign that parts keys and values.
pub open spec fn one_line(s: Seq<char>) -> Seq<char> {
    s.map_values(
        |c: char|
            if c == '\n' || c == '\r' || c == '=' {
                ' '
            } else {
                c
            },
    )
}

fn to_one_line(text: &str) -> (line: String)
    ensures
        line@ == one_line(text@),
{
    let chars = to_chars(text);
    let mut line = String::new();
    let mut i: usize = 0;
    assert(one_line(text@).take(0) =~= Seq::<char>::empty());
    while i < chars.len()
        invariant
            i <= chars.len(),
            chars@ == text@,
            line@ == one_line(text@).take(i as int),
        decreases chars.len() - i,
    {
        let c = chars[i];
        if c == '\n' || c == '\r' || c == '=' {
            line.push(' ');
        } else {
            line.push(c);
        }
        assert(one_line(text@).take(i + 1) =~= one_line(text@).take(i as int).push(
            one_line(text@)[i as int],
        ));
        i = i + 1;
    }
    assert(one_line(text@).take(i as int) =~= one_line(text@));
    line
}

/// The state of a transfer, as other programs read it.
pub struct TransferStatus {
    /// `sending` or `receiving`.
    pub direction: String,
    pub state: String,
    pub name: String,
    pub completed: u64,
    pub total: u64,
    /// Bytes in a second, as measured by the caller.
    pub speed: u64,
    pub destination: Option<String>,
}

pub open spec fn status_lines(status: TransferStatus) -> Seq<Seq<char>> {
    seq![
        crate::text::entry("direction"@, status.direction@),
        crate::text::entry("state"@, status.state@),
        crate::text::entry("name"@, one_line(status.name@)),
        crate::text::entry("completed"@, crate::text::decimal(status.completed as nat)),
        crate::text::entry("total"@, crate::text::decimal(status.total as nat)),
        crate::text::entry("speed_bps"@, crate::text::decimal(status.speed as nat)),
        crate::text::entry(
            "destination"@,
            match status.destination {
                Some(path) => one_line(path@),
                None => Seq::empty(),
            },
        ),
    ]
}

/// The contents of the status file.
pub fn transfer_status(status: &TransferStatus) -> (text: String)
    ensures
        text@ == crate::text::unlines(status_lines(*status)),
{
    let ghost all = status_lines(*status);
    let mut text = String::new();
    assert(text@ =~= crate::text::unlines(Seq::empty()));
    push_entry(&mut text, "direction", status.direction.as_str(), Ghost(Seq::empty()));
    assert(Seq::empty().push(all[0]) =~= all.take(1));
    push_entry(&mut text, "state", status.state.as_str(), Ghost(all.take(1)));
    assert(all.take(1).push(all[1]) =~= all.take(2));
    let name = to_one_line(status.name.as_str());
    push_entry(&mut text, "name", name.as_str(), Ghost(all.take(2)));
    assert(all.take(2).push(all[2]) =~= all.take(3));
    let completed = decimal_text(status.completed);
    push_entry(&mut text, "completed", completed.as_str(), Ghost(all.take(3)));
    assert(all.take(3).push(all[3]) =~= all.take(4));
    let total = decimal_text(status.total);
    push_entry(&mut text, "total", total.as_str(), Ghost(all.take(4)));
    assert(all.take(4).push(all[4]) =~= all.take(5));
    let speed = decimal_text(status.speed);
    push_entry(&mut text, "speed_bps", speed.as_str(), Ghost(all.take(5)));
    assert(all.take(5).push(all[5]) =~= all.take(6));
    let destination = match &status.destination {
        Some(path) => to_one_line(path.as_str()),
        None => {
            let none = String::new();
            assert(none@ =~= Seq::<char>::empty());
            none
        },
    };
    push_entry(&mut text, "destination", destination.as_str(), Ghost(all.take(6)));
    assert(all.take(6).push(all[6]) =~= all);
    text
}

/// Whatever a file is called and wherever it goes, a reader of the status
/// finds seven lines with one entry each, in their order.
pub proof fn law_status_has_one_entry_per_line(status: TransferStatus)
    requires
        crate::text::is_line(status.direction@),
        crate::text::is_line(status.state@),
    ensures
        crate::text::lines(crate::text::unlines(status_lines(status))) == status_lines(status),
{
    reveal_strlit("direction");
    reveal_strlit("state");
    reveal_strlit("name");
    reveal_strlit("completed");
    reveal_strlit("total");
    reveal_strlit("speed_bps");
    reveal_strlit("destination");
    let all = status_lines(status);
    lemma_decimal_line(status.completed as nat);
    lemma_decimal_line(status.total as nat);
    lemma_decimal_line(status.speed as nat);
    lemma_entry_line("direction"@, status.direction@);
    lemma_entry_line("state"@, status.state@);
    lemma_entry_line("name"@, one_line(status.name@));
    lemma_entry_line("completed"@, crate::text::decimal(status.completed as nat));
    lemma_entry_line("total"@, crate::text::decimal(status.total as nat));
    lemma_entry_line("speed_bps"@, crate::text::decimal(status.speed as nat));
    lemma_entry_line(
        "destination"@,
        match status.destination {
            Some(path) => one_line(path@),
            None => Seq::empty(),
        },
    );
    crate::text::lemma_lines_of_unlines(all);
}

proof fn lemma_decimal_line(n: nat)
    ensures
        crate::text::is_line(crate::text::decimal(n)),
{
    crate::text::lemma_decimal(n);
    let s = crate::text::decimal(n);
    if s.contains('\n') {
        let i = choose|i: int| 0 <= i < s.len() && s[i] == '\n';
        assert(crate::text::is_digit(s[i]));
    }
    if s.len() > 0 {
        assert(crate::text::is_digit(s[s.len() - 1]));
    }
}

proof fn lemma_entry_line(key: Seq<char>, value: Seq<char>)
    requires
        crate::text::is_line(value),
        !key.contains('\n'),
    ensures
        crate::text::is_line(crate::text::entry(key, value)),
{
    let line = crate::text::entry(key, value);
    if line.contains('\n') {
        let i = choose|i: int| 0 <= i < line.len() && line[i] == '\n';
        if i < key.len() {
            assert(key[i] == '\n');
        } else if i > key.len() {
            assert(value[i - key.len() - 1] == '\n');
        }
    }
    if value.len() > 0 {
        assert(line.last() == value.last());
    } else {
        assert(line.last() == '=');
    }
}

/// The directory for received files: below the user's downloads as the system
/// names them, else below the home directory.
pub open spec fn downloads_directory(
    reported: Option<Seq<u8>>,
    home: Option<Seq<char>>,
) -> Option<Seq<char>> {
    let named = match reported {
        Some(bytes) => if vstd::utf8::valid_utf8(bytes) {
            let path = crate::text::trimmed(vstd::utf8::decode_utf8(bytes));
            if path.len() > 0 && path[0] == '/' {
                Some(path)
            } else {
                None
            }
        } else {
            None
        },
        None => None,
    };
    let downloads = match named {
        Some(path) => Some(path),
        None => match home {
            Some(home) => Some(crate::file_paths::path_joined(home, "Downloads"@)),
            None => None,
        },
    };
    match downloads {
        Some(path) => Some(crate::file_paths::path_joined(path, "CachyBridge"@)),
        None => None,
    }
}

/// `reported` is what the system's query tool printed, if it succeeded.
pub fn received_files_directory(reported: Option<Vec<u8>>, home: Option<String>) -> (result: Result<
    String,
    ClipboardError,
>)
    ensures
        match downloads_directory(
            match reported {
                Some(bytes) => Some(bytes@),
                None => None,
            },
            match home {
                Some(home) => Some(home@),
                None => None,
            },
        ) {
            Some(path) => result matches Ok(directory) && directory@ == path,
            None => result matches Err(error) && error@ == ClipboardFault::Command(
                "could not determine a downloads directory"@,
            ),
        },
{
    if let Some(bytes) = reported {
        if let Some(text) = text_from_utf8(bytes) {
            let chars = to_chars(text.as_str());
            let path = trim_chars(chars.as_slice());
            if path.len() > 0 && path[0] == '/' {
                return Ok(join_path(to_text(path.as_slice()).as_str(), "CachyBridge"));
            }
        }
    }
    match home {
        Some(home) => {
            let downloads = join_path(home.as_str(), "Downloads");
            Ok(join_path(downloads.as_str(), "CachyBridge"))
        },
        None => Err(
            ClipboardError::Command("could not determine a downloads directory".to_string()),
        ),
    }
}

/// The directory for files that came inside a clipboard value.
pub fn bundled_files_directory(data_home: Option<String>, home: Option<String>) -> (result: Result<
    String,
    ClipboardError,
>)
    ensures
        ({
            let base = match data_home {
                Some(base) => Some(base@),
                None => match home {
                    Some(home) => Some(
                        crate::file_paths::path_joined(home@, ".local/share"@),
                    ),
                    None => None,
                },
            };
            match base {
                Some(base) => result matches Ok(directory) && directory@
                    == crate::file_paths::path_joined(
                    crate::file_paths::path_joined(base, "cachybridge"@),
                    "received-files"@,
                ),
                None => result matches Err(error) && error@ == ClipboardFault::Command(
                    "could not determine a private data directory"@,
                ),
            }
        }),
{
    let base = match data_home {
        Some(base) => base,
        None => match home {
            Some(home) => join_path(home.as_str(), ".local/share"),
            None => {
                return Err(
                    ClipboardError::Command(
                        "could not determine a private data directory".to_string(),
                    ),
                );
            },
        },
    };
    let own = join_path(base.as_str(), "cachybridge");
    Ok(join_path(own.as_str(), "received-files"))
}

/// Whether a name is one for a directory in which files are gathered: hidden,
/// and made of twelve random bytes.
pub open spec fn is_staging_name(name: Seq<char>) -> bool {
    exists|bytes: Seq<u8>|
        bytes.len() == 12 && name == ".cachybridge-"@ + #[trigger] crate::text::hex_text(bytes)
            + ".part"@
}

/// A fresh name for a directory in which files are gathered.
pub fn staging_name() -> (name: String)
    ensures
        is_staging_name(name@),
{
    let bytes = random_bytes(12);
    let digits = hex_encode(bytes.as_slice());
    let mut name = String::new();
    name.push_str(".cachybridge-");
    name.push_str(digits.as_str());
    name.push_str(".part");
    assert(name@ =~= ".cachybridge-"@ + crate::text::hex_text(bytes@) + ".part"@);
    name
}

/// Whether a name is one for a directory of bundled files: twelve random bytes
/// in hexadecimal digits.
pub open spec fn is_bundle_name(name: Seq<char>) -> bool {
    exists|bytes: Seq<u8>| bytes.len() == 12 && name == #[trigger] crate::text::hex_text(bytes)
}

/// A fresh directory name for files that came in a bundle.
pub fn bundle_name() -> (name: String)
    ensures
        is_bundle_name(name@),
{
    let bytes = random_bytes(12);
    hex_encode(bytes.as_slice())
}

/// What a clipboard tool that could not be started means.
pub fn command_start_error(not_found: bool, why: String) -> (error: ClipboardError)
    ensures
        error@ == if not_found {
            ClipboardFault::MissingTool
        } else {
            ClipboardFault::Io(why@)
        },
{
    if not_found {
        ClipboardError::MissingTool
    } else {
        ClipboardError::Io(why)
    }
}

/// Content that is seen is sent as it is whenever it differs, in its type or in
/// its bytes, from the value that both clipboards have, or where they have none
/// in common. It then is what they have in common.
pub proof fn law_new_content_is_sent(sync: SyncView, content: crate::clipboard::ContentView)
    ensures
        match sync.value {
            None => sync.sends(SyncEvent::SawContent(content)) == Some(content),
            Some(last) => if last.mime_type == content.mime_type && last.bytes == content.bytes {
                sync.sends(SyncEvent::SawContent(content)) is None
            } else {
                sync.sends(SyncEvent::SawContent(content)) == Some(content)
            },
        },
        sync.after(SyncEvent::SawContent(content)).value == Some(content),
        sync.after(SyncEvent::Received(content)).value == Some(content),
{
    if let Some(last) = sync.value {
        if last.mime_type == content.mime_type && last.bytes == content.bytes {
            assert(last =~= content);
        }
    }
}

/// Every change is sent: after one content was received or seen, another one is
/// sent once it is seen, whatever was seen of files or of an empty clipboard in
/// between; and after files were received any content is.
pub proof fn law_every_change_is_sent(
    sync: SyncView,
    earlier: crate::clipboard::ContentView,
    files: crate::file_transfer::SelectionView,
    events: Seq<SyncEvent>,
    content: crate::clipboard::ContentView,
)
    requires
        earlier.mime_type != content.mime_type || earlier.bytes != content.bytes,
        forall|i: int|
            0 <= i < events.len() ==> !((#[trigger] events[i]) is Received) && !(
            events[i] is ReceivedFiles) && !(events[i] is SawContent),
    ensures
        sync.after(SyncEvent::Received(earlier)).after_all(events).sends(
            SyncEvent::SawContent(content),
        ) == Some(content),
        sync.after(SyncEvent::SawContent(earlier)).after_all(events).sends(
            SyncEvent::SawContent(content),
        ) == Some(content),
        sync.after(SyncEvent::ReceivedFiles(files)).after_all(events).sends(
            SyncEvent::SawContent(content),
        ) == Some(content),
{
    assert forall|i: int| 0 <= i < events.len() implies is_quiet(#[trigger] events[i]) by {}
    lemma_quiet_keeps_value(sync.after(SyncEvent::Received(earlier)), events);
    lemma_quiet_keeps_value(sync.after(SyncEvent::SawContent(earlier)), events);
    lemma_quiet_keeps_value(sync.after(SyncEvent::ReceivedFiles(files)), events);
}

/// A selection that is too large is reported once: again only after files, other
/// content or an empty clipboard were seen. What is received does not matter.
pub proof fn law_too_large_is_reported_once(
    sync: SyncView,
    content: crate::clipboard::ContentView,
    files: crate::file_transfer::SelectionView,
)
    ensures
        !sync.reported ==> sync.reports(SyncEvent::SawTooMuch),
        !sync.after(SyncEvent::SawTooMuch).reports(SyncEvent::SawTooMuch),
        sync.after(SyncEvent::SawContent(content)).reports(SyncEvent::SawTooMuch),
        sync.after(SyncEvent::SawFiles(files)).reports(SyncEvent::SawTooMuch),
        sync.after(SyncEvent::SawNoContent).reports(SyncEvent::SawTooMuch),
        sync.after(SyncEvent::SawNoFiles) == sync,
        sync.after(SyncEvent::Failed) == sync,
        sync.after(SyncEvent::Received(content)).reported == sync.reported,
        sync.after(SyncEvent::ReceivedFiles(files)).reported == sync.reported,
        sync.after(SyncEvent::SawTooMuch).value == sync.value,
        sync.after(SyncEvent::SawFiles(files)).value == sync.value,
        sync.after(SyncEvent::SawFiles(files)).selection == Some(files),
        sync.after(SyncEvent::ReceivedFiles(files)).selection == Some(files),
        sync.after(SyncEvent::ReceivedFiles(files)).value is None,
        sync.after(SyncEvent::SawContent(content)).selection is None,
        sync.after(SyncEvent::Received(content)).selection is None,
        sync.after(SyncEvent::SawNoContent).selection == sync.selection,
        sync.after(SyncEvent::SawTooMuch).selection == sync.selection,
{
}

/// Records are sorted by the byte behind their prefix: offers of files, their
/// bytes and their ends (3 to 5) go to the file session, answers (6 and 7) to
/// the sender that waits, everything else is content.
pub proof fn law_records_are_sorted_by_their_kind(kind: u8, body: Seq<u8>)
    ensures
        ({
            let class = class_of(seq![67u8, 66, 67, 76, 50, kind] + body);
            if 3 <= kind <= 5 {
                class == RecordClass::Files
            } else if kind == 6 || kind == 7 {
                class == RecordClass::Decision
            } else {
                class == RecordClass::Content
            }
        }),
{
    let record = seq![67u8, 66, 67, 76, 50, kind] + body;
    assert(record.take(5) =~= crate::clipboard::record_prefix());
    assert(record[5] == kind);
}

/// What is read from a clipboard is a type that it offers, and something is read
/// whenever it offers text or one of the images, unless it offers files. Text
/// goes before images, plain text before the qualified one, and of the images
/// the first of PNG, JPEG and WebP.
pub proof fn law_the_offered_type_is_read(types: Seq<char>)
    ensures
        ({
            let offered = crate::text::lines(types);
            let read = readable_type(types);
            let plain = offered.contains("text/plain"@);
            let qualified = offered.contains("text/plain;charset=utf-8"@);
            let png = offered.contains("image/png"@);
            let jpeg = offered.contains("image/jpeg"@);
            let webp = offered.contains("image/webp"@);
            &&& offered.contains("text/uri-list"@) ==> read is None
            &&& read matches Some(mime) ==> offered.contains(mime) && (mime == "text/plain"@
                || mime == "text/plain;charset=utf-8"@ || mime == "image/png"@ || mime
                == "image/jpeg"@ || mime == "image/webp"@)
            &&& !offered.contains("text/uri-list"@) ==> {
                &&& read is Some <==> plain || qualified || png || jpeg || webp
                &&& plain ==> read == Some("text/plain"@)
                &&& qualified && !plain ==> read == Some("text/plain;charset=utf-8"@)
                &&& png && !plain && !qualified ==> read == Some("image/png"@)
                &&& jpeg && !plain && !qualified && !png ==> read == Some("image/jpeg"@)
            }
        }),
{
}

/// Content goes out under its own type, but for the qualified text, which goes
/// out as plain text.
pub proof fn law_only_the_qualified_text_is_renamed(mime: Seq<char>)
    ensures
        mime != "text/plain;charset=utf-8"@ ==> sent_type(mime) == mime,
        mime == "text/plain;charset=utf-8"@ ==> sent_type(mime) == "text/plain"@,
{
}

proof fn lemma_double_step(n: nat)
    ensures
        1 <= double_step(n),
        n < 9_007_199_254_740_992 ==> double_step(n) == 1,
    decreases n,
{
    if n >= DOUBLE_LIMIT {
        lemma_double_step(n / 2);
    }
}

proof fn lemma_nearest_multiple(n: nat, step: nat)
    requires
        step >= 1,
    ensures
        2 * (nearest_multiple(n, step) - n) <= step,
        2 * (n - nearest_multiple(n, step)) <= step,
{
    vstd::arithmetic::div_mod::lemma_fundamental_div_mod(n as int, step as int);
    let whole = n / step;
    assert(whole * step == step * whole) by (nonlinear_arith);
    assert((whole + 1) * step == step * whole + step) by (nonlinear_arith);
}

/// A size is written in bytes below a mebibyte, in mebibytes below a gibibyte
/// and in gibibytes from there on, with the one decimal that is nearest to it:
/// for sizes below 2^53 the number that is written is off by half a tenth of
/// the unit at most.
pub proof fn law_sizes_are_rounded_to_a_tenth(bytes: nat)
    requires
        bytes < 9_007_199_254_740_992,
    ensures
        bytes < 1_048_576 ==> size_text(bytes) == crate::text::decimal(bytes) + " bytes"@,
        bytes >= 1_048_576 ==> exists|t: nat|
            #![trigger crate::text::decimal(t / 10)]
            {
                let unit: nat = if bytes < 1_073_741_824 {
                    1_048_576
                } else {
                    1_073_741_824
                };
                &&& size_text(bytes) == crate::text::decimal(t / 10) + "."@ + crate::text::decimal(
                    t % 10,
                ) + (if bytes < 1_073_741_824 {
                    " MiB"@
                } else {
                    " GiB"@
                })
                &&& 2 * (t * unit - 10 * bytes) <= unit
                &&& 2 * (10 * bytes - t * unit) <= unit
                &&& 2 * (t * unit - 10 * bytes) == unit || 2 * (10 * bytes - t * unit) == unit ==> t
                    % 2 == 0
            },
{
    lemma_double_step(bytes);
    lemma_nearest_multiple(bytes, 1);
    assert(bytes % 1 == 0 && bytes / 1 == bytes) by (nonlinear_arith);
    assert(as_double(bytes) == bytes) by {
        assert(nearest_multiple(bytes, 1) == bytes / 1 * 1);
        assert(bytes * 1 == bytes) by (nonlinear_arith);
    }
    if bytes >= 1_048_576 {
        let unit: nat = if bytes < 1_073_741_824 {
            1_048_576
        } else {
            1_073_741_824
        };
        let t = tenths(bytes, unit);
        vstd::arithmetic::div_mod::lemma_fundamental_div_mod((bytes * 10) as int, unit as int);
        let whole = bytes * 10 / unit;
        assert(whole * unit == unit * whole) by (nonlinear_arith);
        assert((whole + 1) * unit == unit * whole + unit) by (nonlinear_arith);
        assert(crate::text::decimal(t / 10).len() >= 0);
        assert(size_text(bytes) == crate::text::decimal(t / 10) + "."@ + crate::text::decimal(
            t % 10,
        ) + (if bytes < 1_073_741_824 {
            " MiB"@
        } else {
            " GiB"@
        }));
    }
}

/// A name on one line is the name, with a space in the place of each character
/// that would end the line or part a key from its value.
pub proof fn law_one_line_keeps_the_rest(text: Seq<char>, i: int)
    requires
        0 <= i < text.len(),
    ensures
        one_line(text).len() == text.len(),
        one_line(text)[i] == text[i] || (one_line(text)[i] == ' ' && (text[i] == '\n' || text[i]
            == '\r' || text[i] == '=')),
        one_line(text)[i] != '\n' && one_line(text)[i] != '\r' && one_line(text)[i] != '=',
{
}

/// Received files go to the directory that the system names, if it names an
/// absolute one, and else below the home directory, always in a directory of
/// their own. Without either there is no place for them.
pub proof fn law_received_files_have_a_directory(
    path: Seq<char>,
    home: Seq<char>,
    other: Option<Seq<u8>>,
)
    requires
        path.len() > 0,
        path[0] == '/',
        crate::text::trimmed(path) == path,
        other matches Some(bytes) ==> bytes.len() == 0,
    ensures
        downloads_directory(Some(crate::text::utf8(path)), Some(home)) == Some(
            crate::file_paths::path_joined(path, "CachyBridge"@),
        ),
        downloads_directory(Some(crate::text::utf8(path)), None) == Some(
            crate::file_paths::path_joined(path, "CachyBridge"@),
        ),
        downloads_directory(other, Some(home)) == Some(
            crate::file_paths::path_joined(
                crate::file_paths::path_joined(home, "Downloads"@),
                "CachyBridge"@,
            ),
        ),
        downloads_directory(other, None) is None,
{
    crate::text::lemma_utf8_round_trip(path);
    if let Some(bytes) = other {
        assert(bytes =~= Seq::<u8>::empty());
        assert(vstd::utf8::decode_utf8(bytes) =~= Seq::<char>::empty());
        assert(crate::text::trimmed(Seq::<char>::empty()) =~= Seq::<char>::empty());
    }
}

/// The numbers with 53 significant bits are multiples of a step that doubles
/// with the number, and a size is brought to the nearest of them; half-way, to
/// the even multiple.
pub proof fn law_large_sizes_are_brought_to_the_nearest(n: nat)
    ensures
        n < 9_007_199_254_740_992 ==> as_double(n) == n,
        n >= 9_007_199_254_740_992 ==> double_step(n) == 2 * double_step(n / 2),
        double_step(n) * 4_503_599_627_370_496 <= n || double_step(n) == 1,
        n < double_step(n) * 9_007_199_254_740_992,
        exists|m: nat|
            #![trigger m * double_step(n)]
            {
                &&& as_double(n) == m * double_step(n)
                &&& 2 * (as_double(n) - n) <= double_step(n)
                &&& 2 * (n - as_double(n)) <= double_step(n)
                &&& 2 * (as_double(n) - n) == double_step(n) || 2 * (n - as_double(n))
                    == double_step(n) ==> m % 2 == 0
            },
    decreases n,
{
    let step = double_step(n);
    lemma_double_step(n);
    if n >= DOUBLE_LIMIT {
        law_large_sizes_are_brought_to_the_nearest(n / 2);
    }
    vstd::arithmetic::div_mod::lemma_fundamental_div_mod(n as int, step as int);
    vstd::arithmetic::div_mod::lemma_mod_bound(n as int, step as int);
    let whole = n / step;
    let rest = n % step;
    assert(whole * step == step * whole) by (nonlinear_arith);
    assert((whole + 1) * step == step * whole + step) by (nonlinear_arith);
    let m: nat = if rest * 2 > step || (rest * 2 == step && whole % 2 == 1) {
        whole + 1
    } else {
        whole
    };
    assert(as_double(n) == m * step);
    if n < DOUBLE_LIMIT {
        assert(n % 1 == 0 && n / 1 == n && n * 1 == n) by (nonlinear_arith);
    }
}

/// What is seen on the local clipboard is what counts: content is sent as it
/// is unless both clipboards have it, files are remembered and stay here, too
/// much is reported once, and a failure changes nothing.
pub proof fn law_what_is_seen_counts(
    sync: SyncView,
    content: ClipboardContent,
    selection: FileSelection,
    error: ClipboardError,
)
    ensures
        ({
            let seen = content_event(ContentPoll::Content(content));
            &&& sync.after(seen).value matches Some(value) && value.mime_type
                == content.mime_type@ && value.bytes == content.bytes@
            &&& sync.after(seen).selection is None && !sync.after(seen).reported
            &&& match sync.sends(seen) {
                Some(sent) => sent.mime_type == content.mime_type@ && sent.bytes == content.bytes@,
                None => sync.value matches Some(value) && value.mime_type == content.mime_type@
                    && value.bytes == content.bytes@,
            }
            &&& !sync.reports(seen)
        }),
        ({
            let files = file_event(FilePoll::Selection(selection));
            &&& sync.after(files).selection == Some(selection@)
            &&& sync.after(files).value == sync.value
            &&& !sync.after(files).reported
            &&& sync.sends(files) is None && !sync.reports(files)
        }),
        ({
            let nothing = content_event(ContentPoll::Nothing);
            &&& sync.after(nothing) == (SyncView { reported: false, ..sync })
            &&& sync.sends(nothing) is None && !sync.reports(nothing)
        }),
        sync.after(file_event(FilePoll::Nothing)) == sync,
        sync.sends(file_event(FilePoll::Nothing)) is None,
        !sync.reports(file_event(FilePoll::Nothing)),
        forall|event: SyncEvent|
            event == file_event(FilePoll::TooLarge) || event == content_event(
                ContentPoll::TooLarge,
            ) ==> sync.reports(event) == !sync.reported && #[trigger] sync.after(event) == (
            SyncView { reported: true, ..sync }) && sync.sends(event) is None,
        forall|event: SyncEvent|
            event == file_event(FilePoll::Failed(error)) || event == content_event(
                ContentPoll::Failed(error),
            ) ==> !sync.reports(event) && #[trigger] sync.after(event) == sync && sync.sends(
                event,
            ) is None,
{
}

/// Received content is put on the clipboard as it came, under its own type; a
/// list of files is unpacked instead, each file with its name and its bytes.
pub proof fn law_received_content_is_put_there_as_it_came(
    content: crate::clipboard::ContentView,
    result: Result<WritePlan, ClipboardError>,
    i: int,
)
    requires
        is_plan(content, result),
    ensures
        crate::clipboard::content_fault(content) is Some ==> result is Err && result->Err_0@
            == crate::clipboard::content_fault(content)->0,
        crate::clipboard::content_fault(content) is None && content.mime_type
            != "application/x-cachybridge-file-list"@ ==> (result matches Ok(WritePlan::Bytes {
            mime_type,
            bytes,
        }) && mime_type@ == content.mime_type && bytes@ == content.bytes),
        crate::clipboard::content_fault(content) is None && content.mime_type
            == "application/x-cachybridge-file-list"@ ==> match crate::file_bundle::bundle_denoted(
            content.bytes,
        ) {
            Ok(files) => result matches Ok(WritePlan::Files(entries)) && entries@.len()
                == files.len() && (0 <= i < files.len() ==> entries@[i].name@ == files[i].0
                && entries@[i].bytes@ == files[i].1),
            Err(fault) => result is Err && result->Err_0@ == fault,
        },
{
    if let Ok(WritePlan::Files(entries)) = result {
        if 0 <= i < entries@.len() {
            assert(crate::file_bundle::bundle_entries(entries@)[i] == (
                entries@[i].name@,
                entries@[i].bytes@,
            ));
        }
    }
}

/// The question about an offer names the only file, or how many files there are
/// and the first of them, and their size.
pub proof fn law_the_question_names_the_offer(
    name: Seq<char>,
    size: u64,
    more: Seq<(Seq<char>, u64)>,
    total: nat,
)
    ensures
        approval_text(seq![(name, size)], total) == "A paired CachyBridge iMac wants to send:\n\n"@
            + name + "\n"@ + size_text(total)
            + "\n\nAccept and save it in Downloads/CachyBridge?"@,
        more.len() > 0 ==> approval_text(seq![(name, size)] + more, total)
            == "A paired CachyBridge iMac wants to send:\n\n"@ + (crate::text::decimal(
            more.len() + 1,
        ) + " files (starting with "@ + name + ")"@) + "\n"@ + size_text(total)
            + "\n\nAccept and save it in Downloads/CachyBridge?"@,
{
    let all = seq![(name, size)] + more;
    assert(all[0] == (name, size));
    assert(all.len() == more.len() + 1);
}

/// The status tells, in this order, the direction, the state, the name, how
/// much is done of how much, the speed and where it goes.
pub proof fn law_the_status_tells_everything(status: TransferStatus)
    ensures
        status_lines(status).len() == 7,
        status_lines(status)[0] == "direction"@ + seq!['='] + status.direction@,
        status_lines(status)[1] == "state"@ + seq!['='] + status.state@,
        status_lines(status)[2] == "name"@ + seq!['='] + one_line(status.name@),
        status_lines(status)[3] == "completed"@ + seq!['='] + crate::text::decimal(
            status.completed as nat,
        ),
        status_lines(status)[4] == "total"@ + seq!['='] + crate::text::decimal(status.total as nat),
        status_lines(status)[5] == "speed_bps"@ + seq!['='] + crate::text::decimal(
            status.speed as nat,
        ),
        status.destination matches Some(path) ==> status_lines(status)[6] == "destination"@ + seq![
            '=',
        ] + one_line(path@),
        status.destination is None ==> status_lines(status)[6] =~= "destination"@ + seq!['='],
{
}

/// A directory in which files are gathered is hidden and marked as unfinished;
/// what makes its name and that of a bundle its own is twelve bytes in 24
/// hexadecimal digits.
pub proof fn law_gathering_names(name: Seq<char>)
    ensures
        is_bundle_name(name) ==> name.len() == 24,
        is_staging_name(name) ==> name.len() == 42 && name[0] == '.' && name.take(13)
            == ".cachybridge-"@ && is_bundle_name(name.subrange(13, 37)) && name.skip(37)
            == ".part"@,
{
    reveal_strlit(".cachybridge-");
    reveal_strlit(".part");
    if is_staging_name(name) {
        let bytes = choose|bytes: Seq<u8>|
            bytes.len() == 12 && name == ".cachybridge-"@ + #[trigger] crate::text::hex_text(bytes)
                + ".part"@;
        assert(name.subrange(13, 37) =~= crate::text::hex_text(bytes));
        assert(name.take(13) =~= ".cachybridge-"@);
        assert(name.skip(37) =~= ".part"@);
    }
}

} // verus!
