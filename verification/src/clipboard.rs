//! Clipboard synchronization over an already authenticated transport.
//!
//! Contents never touch discovery, logs, or configuration files. Text and
//! common image data travel as one start record and a run of chunk records.
use vstd::prelude::*;

use crate::random::random_bytes;
use crate::text::{same_text, text_from_utf8, utf8_bytes};
use crate::transport::TransportError;
use crate::wire::{copy_range, get_u32, get_u64, put_bytes, put_u32, put_u64};

verus! {

pub const RECORD_PREFIX_LEN: usize = 5;

pub const START_KIND: u8 = 1;

pub const CHUNK_KIND: u8 = 2;

/// File payloads use a separate streaming format. The start and chunk records
/// above are for text and images, whose whole value is small enough to
/// validate and hold in memory.
pub const FILE_START_KIND: u8 = 3;

pub const FILE_CHUNK_KIND: u8 = 4;

pub const FILE_FINISH_KIND: u8 = 5;

pub const FILE_ACCEPT_KIND: u8 = 6;

pub const FILE_REJECT_KIND: u8 = 7;

pub const DIRECT_FILE_START_KIND: u8 = 8;

/// A record is consumed only once all of it is buffered. Records stay well
/// below the smallest normal socket window, so that a transfer cannot stall at
/// a partial frame boundary.
pub const MAX_CHUNK_BYTES: usize = 16384;

pub const MAX_CLIPBOARD_BYTES: u64 = 8388608;

/// A disk-safety ceiling, not an in-memory ceiling. Files are streamed into a
/// private staging directory and published only once every byte is present.
pub const MAX_FILE_TRANSFER_BYTES: u64 = 68719476736;

pub const MAX_FILE_COUNT: usize = 256;

#[derive(Debug, PartialEq)]
pub enum ClipboardError {
    MissingTool,
    Command(String),
    TooLarge,
    UnsupportedMime,
    NonText,
    NoRegularFiles,
    InvalidFileBundle,
    InvalidRecord,
    Transport(TransportError),
    Io(String),
}

/// A clipboard error with its texts.
pub enum ClipboardFault {
    MissingTool,
    Command(Seq<char>),
    TooLarge,
    UnsupportedMime,
    NonText,
    NoRegularFiles,
    InvalidFileBundle,
    InvalidRecord,
    Transport(TransportError),
    Io(Seq<char>),
}

impl View for ClipboardError {
    type V = ClipboardFault;

    open spec fn view(&self) -> ClipboardFault {
        match self {
            ClipboardError::MissingTool => ClipboardFault::MissingTool,
            ClipboardError::Command(text) => ClipboardFault::Command(text@),
            ClipboardError::TooLarge => ClipboardFault::TooLarge,
            ClipboardError::UnsupportedMime => ClipboardFault::UnsupportedMime,
            ClipboardError::NonText => ClipboardFault::NonText,
            ClipboardError::NoRegularFiles => ClipboardFault::NoRegularFiles,
            ClipboardError::InvalidFileBundle => ClipboardFault::InvalidFileBundle,
            ClipboardError::InvalidRecord => ClipboardFault::InvalidRecord,
            ClipboardError::Transport(error) => ClipboardFault::Transport(*error),
            ClipboardError::Io(text) => ClipboardFault::Io(text@),
        }
    }
}

/// A value with its type.
#[derive(Debug, Clone, PartialEq, Eq)]
pub struct ClipboardContent {
    pub mime_type: String,
    pub bytes: Vec<u8>,
}

#[verifier::ext_equal]
pub struct ContentView {
    pub mime_type: Seq<char>,
    pub bytes: Seq<u8>,
}

impl View for ClipboardContent {
    type V = ContentView;

    open spec fn view(&self) -> ContentView {
        ContentView { mime_type: self.mime_type@, bytes: self.bytes@ }
    }
}

/// A value of which some chunks have arrived.
#[derive(Debug, Clone, PartialEq, Eq)]
pub struct IncomingTransfer {
    pub id: u64,
    pub mime_type: String,
    pub total_bytes: usize,
    pub bytes: Vec<u8>,
}

#[verifier::ext_equal]
pub struct TransferView {
    pub id: u64,
    pub mime_type: Seq<char>,
    pub total_bytes: int,
    pub bytes: Seq<u8>,
}

impl TransferView {
    /// At least one byte is still missing.
    pub open spec fn wf(self) -> bool {
        self.bytes.len() < self.total_bytes
    }
}

impl View for IncomingTransfer {
    type V = TransferView;

    open spec fn view(&self) -> TransferView {
        TransferView {
            id: self.id,
            mime_type: self.mime_type@,
            total_bytes: self.total_bytes as int,
            bytes: self.bytes@,
        }
    }
}

// Kinds of content.

pub open spec fn file_transfer_mime() -> Seq<char> {
    "application/x-cachybridge-file-list"@
}

pub open spec fn is_supported_mime(mime: Seq<char>) -> bool {
    mime == "text/plain"@ || mime == "text/plain;charset=utf-8"@ || mime == "image/png"@ || mime
        == "image/jpeg"@ || mime == "image/webp"@ || mime == file_transfer_mime()
}

pub open spec fn size_limit(mime: Seq<char>) -> u64 {
    if mime == file_transfer_mime() {
        MAX_FILE_TRANSFER_BYTES
    } else {
        MAX_CLIPBOARD_BYTES
    }
}

pub open spec fn is_text_mime(mime: Seq<char>) -> bool {
    mime == "text/plain"@ || mime == "text/plain;charset=utf-8"@
}

/// Why content cannot be sent.
pub open spec fn content_fault(content: ContentView) -> Option<ClipboardFault> {
    if !is_supported_mime(content.mime_type) {
        Some(ClipboardFault::UnsupportedMime)
    } else if content.bytes.len() > size_limit(content.mime_type) {
        Some(ClipboardFault::TooLarge)
    } else if is_text_mime(content.mime_type) && !vstd::utf8::valid_utf8(content.bytes) {
        Some(ClipboardFault::NonText)
    } else {
        None
    }
}

/// What a check reports.
pub open spec fn reports(
    result: Result<(), ClipboardError>,
    fault: Option<ClipboardFault>,
) -> bool {
    match result {
        Ok(_) => fault is None,
        Err(error) => fault == Some(error@),
    }
}

pub fn validate_mime(mime_type: &str) -> (result: Result<(), ClipboardError>)
    ensures
        reports(
            result,
            if is_supported_mime(mime_type@) {
                None
            } else {
                Some(ClipboardFault::UnsupportedMime)
            },
        ),
{
    if same_text(mime_type, "text/plain") || same_text(mime_type, "text/plain;charset=utf-8")
        || same_text(mime_type, "image/png") || same_text(mime_type, "image/jpeg") || same_text(
        mime_type,
        "image/webp",
    ) || same_text(mime_type, "application/x-cachybridge-file-list") {
        Ok(())
    } else {
        Err(ClipboardError::UnsupportedMime)
    }
}

pub fn content_size_limit(mime_type: &str) -> (limit: u64)
    ensures
        limit == size_limit(mime_type@),
{
    if same_text(mime_type, "application/x-cachybridge-file-list") {
        MAX_FILE_TRANSFER_BYTES
    } else {
        MAX_CLIPBOARD_BYTES
    }
}

pub fn validate_content(content: &ClipboardContent) -> (result: Result<(), ClipboardError>)
    ensures
        reports(result, content_fault(content@)),
{
    match validate_mime(content.mime_type.as_str()) {
        Ok(_) => {},
        Err(error) => {
            return Err(error);
        },
    }
    if content.bytes.len() as u64 > content_size_limit(content.mime_type.as_str()) {
        return Err(ClipboardError::TooLarge);
    }
    if same_text(content.mime_type.as_str(), "text/plain") || same_text(
        content.mime_type.as_str(),
        "text/plain;charset=utf-8",
    ) {
        assert(content.bytes@.subrange(0, content.bytes@.len() as int) =~= content.bytes@);
        if text_from_utf8(
            copy_range(content.bytes.as_slice(), 0, content.bytes.len()),
        ).is_none() {
            return Err(ClipboardError::NonText);
        }
    }
    Ok(())
}

// Records.

/// The bytes that begin every clipboard record.
pub open spec fn record_prefix() -> Seq<u8> {
    seq![67u8, 66, 67, 76, 50]
}

/// A record of a kind.
pub open spec fn record_of(kind: u8, body: Seq<u8>) -> Seq<u8> {
    record_prefix().push(kind) + body
}

/// Starts a record of a kind.
pub fn new_record(kind: u8) -> (record: Vec<u8>)
    ensures
        record@ == record_of(kind, Seq::empty()),
{
    let mut record: Vec<u8> = Vec::new();
    record.push(67);
    record.push(66);
    record.push(67);
    record.push(76);
    record.push(50);
    record.push(kind);
    assert(record@ =~= record_of(kind, Seq::empty()));
    record
}

pub open spec fn has_prefix(record: Seq<u8>) -> bool {
    record.len() >= RECORD_PREFIX_LEN && record.take(5) == record_prefix()
}

/// The kind of a record, if it has one.
pub open spec fn kind_of_record(record: Seq<u8>) -> Option<u8> {
    if has_prefix(record) && record.len() > RECORD_PREFIX_LEN {
        Some(record[5])
    } else {
        None
    }
}

fn prefixed(record: &[u8]) -> (prefixed: bool)
    ensures
        prefixed == has_prefix(record@),
{
    let found: bool = record.len() >= RECORD_PREFIX_LEN && record[0] == 67 && record[1] == 66
        && record[2] == 67 && record[3] == 76 && record[4] == 50;
    proof {
        let p = record_prefix();
        if found {
            assert(record@.take(5) =~= p);
        } else if has_prefix(record@) {
            let t = record@.take(5);
            assert(t[0] == p[0] && t[1] == p[1] && t[2] == p[2] && t[3] == p[3] && t[4] == p[4]);
        }
    }
    found
}

pub fn record_kind(record: &[u8]) -> (kind: Option<u8>)
    ensures
        kind == kind_of_record(record@),
{
    if prefixed(record) && record.len() > RECORD_PREFIX_LEN {
        Some(record[RECORD_PREFIX_LEN])
    } else {
        None
    }
}

pub fn is_direct_file_offer(record: &[u8]) -> (direct: bool)
    ensures
        direct == (kind_of_record(record@) == Some(DIRECT_FILE_START_KIND)),
{
    match record_kind(record) {
        Some(kind) => kind == DIRECT_FILE_START_KIND,
        None => false,
    }
}

/// The body behind the prefix and kind.
pub fn record_body(record: &[u8]) -> (body: &[u8])
    requires
        kind_of_record(record@) is Some,
    ensures
        body@ == record@.skip(6),
{
    assert(record@.subrange(6, record@.len() as int) =~= record@.skip(6));
    vstd::slice::slice_subrange(record, 6, record.len())
}

/// A record falls apart into its kind and body.
pub proof fn lemma_record_of(kind: u8, body: Seq<u8>)
    ensures
        has_prefix(record_of(kind, body)),
        kind_of_record(record_of(kind, body)) == Some(kind),
        record_of(kind, body).skip(6) == body,
        record_of(kind, body).len() == 6 + body.len(),
{
    let record = record_of(kind, body);
    assert(record.take(5) =~= record_prefix());
    assert(record[5] == kind);
    assert(record.skip(6) =~= body);
}

// Start and chunk records of content.

pub open spec fn start_body(id: u64, mime: Seq<u8>, total: u32) -> Seq<u8> {
    crate::wire::be64(id) + seq![mime.len() as u8] + crate::wire::be32(total) + mime
}

/// The start record of content, unless the content cannot be sent.
pub open spec fn encoded_start(id: u64, content: ContentView) -> Result<Seq<u8>, ClipboardFault> {
    let mime = crate::text::utf8(content.mime_type);
    match content_fault(content) {
        Some(fault) => Err(fault),
        None => if content.bytes.len() > 0xffff_ffff {
            Err(ClipboardFault::TooLarge)
        } else {
            Ok(record_of(START_KIND, start_body(id, mime, content.bytes.len() as u32)))
        },
    }
}

/// What a function that gives bytes returns.
pub open spec fn gives(
    result: Result<Vec<u8>, ClipboardError>,
    spec: Result<Seq<u8>, ClipboardFault>,
) -> bool {
    match result {
        Ok(bytes) => spec == Ok::<Seq<u8>, ClipboardFault>(bytes@),
        Err(error) => spec == Err::<Seq<u8>, ClipboardFault>(error@),
    }
}

/// Supported types have short ASCII names.
pub proof fn lemma_mime_bytes(mime: Seq<char>)
    requires
        is_supported_mime(mime),
    ensures
        9 <= crate::text::utf8(mime).len() <= 35,
        crate::text::utf8(mime).len() == mime.len(),
{
    reveal_strlit("text/plain");
    reveal_strlit("text/plain;charset=utf-8");
    reveal_strlit("image/png");
    reveal_strlit("image/jpeg");
    reveal_strlit("image/webp");
    reveal_strlit("application/x-cachybridge-file-list");
    assert(vstd::utf8::is_ascii_chars(mime));
    vstd::utf8::is_ascii_chars_encode_utf8(mime);
}

pub fn encode_start(id: u64, content: &ClipboardContent) -> (result: Result<
    Vec<u8>,
    ClipboardError,
>)
    ensures
        gives(result, encoded_start(id, content@)),
{
    match validate_content(content) {
        Ok(_) => {},
        Err(error) => {
            return Err(error);
        },
    }
    let mime = utf8_bytes(content.mime_type.as_str());
    proof {
        lemma_mime_bytes(content@.mime_type);
    }
    if content.bytes.len() as u64 > 0xffff_ffff {
        return Err(ClipboardError::TooLarge);
    }
    let mut record = new_record(START_KIND);
    put_u64(&mut record, id);
    record.push(mime.len() as u8);
    put_u32(&mut record, content.bytes.len() as u32);
    put_bytes(&mut record, mime.as_slice());
    assert(record@ =~= record_of(
        START_KIND,
        start_body(id, mime@, content.bytes@.len() as u32),
    ));
    Ok(record)
}

/// The transfer that a start record announces.
pub open spec fn start_denoted(body: Seq<u8>) -> Result<TransferView, ClipboardFault> {
    let mime = vstd::utf8::decode_utf8(body.skip(13));
    let total = crate::wire::u32_at(body, 9);
    if body.len() < 13 || body.len() != 13 + body[8] {
        Err(ClipboardFault::InvalidRecord)
    } else if !vstd::utf8::valid_utf8(body.skip(13)) || !is_supported_mime(mime) {
        Err(ClipboardFault::UnsupportedMime)
    } else if total > size_limit(mime) {
        Err(ClipboardFault::TooLarge)
    } else {
        Ok(
            TransferView {
                id: crate::wire::u64_at(body, 0),
                mime_type: mime,
                total_bytes: total as int,
                bytes: Seq::empty(),
            },
        )
    }
}

pub fn decode_start(record: &[u8]) -> (result: Result<IncomingTransfer, ClipboardError>)
    ensures
        match result {
            Ok(transfer) => start_denoted(record@) == Ok::<TransferView, ClipboardFault>(
                transfer@,
            ),
            Err(error) => start_denoted(record@) == Err::<TransferView, ClipboardFault>(error@),
        },
{
    if record.len() < 13 {
        return Err(ClipboardError::InvalidRecord);
    }
    let mime_length: usize = record[8] as usize;
    if record.len() != 13 + mime_length {
        return Err(ClipboardError::InvalidRecord);
    }
    let total: u32 = get_u32(record, 9);
    assert(record@.subrange(13, record@.len() as int) =~= record@.skip(13));
    let mime_type = match text_from_utf8(copy_range(record, 13, record.len())) {
        Some(mime_type) => mime_type,
        None => {
            return Err(ClipboardError::UnsupportedMime);
        },
    };
    match validate_mime(mime_type.as_str()) {
        Ok(_) => {},
        Err(error) => {
            return Err(error);
        },
    }
    if total as u64 > content_size_limit(mime_type.as_str()) {
        return Err(ClipboardError::TooLarge);
    }
    Ok(
        IncomingTransfer {
            id: get_u64(record, 0),
            mime_type,
            total_bytes: total as usize,
            bytes: Vec::new(),
        },
    )
}

pub open spec fn chunk_body(id: u64, offset: u32, bytes: Seq<u8>) -> Seq<u8> {
    crate::wire::be64(id) + crate::wire::be32(offset) + bytes
}

pub open spec fn encoded_chunk(id: u64, offset: int, bytes: Seq<u8>) -> Result<
    Seq<u8>,
    ClipboardFault,
> {
    if bytes.len() == 0 || bytes.len() > MAX_CHUNK_BYTES {
        Err(ClipboardFault::InvalidRecord)
    } else if offset > 0xffff_ffff {
        Err(ClipboardFault::TooLarge)
    } else {
        Ok(record_of(CHUNK_KIND, chunk_body(id, offset as u32, bytes)))
    }
}

pub fn encode_chunk(id: u64, offset: usize, bytes: &[u8]) -> (result: Result<
    Vec<u8>,
    ClipboardError,
>)
    ensures
        gives(result, encoded_chunk(id, offset as int, bytes@)),
{
    if bytes.len() == 0 || bytes.len() > MAX_CHUNK_BYTES {
        return Err(ClipboardError::InvalidRecord);
    }
    if offset as u64 > 0xffff_ffff {
        return Err(ClipboardError::TooLarge);
    }
    let mut record = new_record(CHUNK_KIND);
    put_u64(&mut record, id);
    put_u32(&mut record, offset as u32);
    put_bytes(&mut record, bytes);
    assert(record@ =~= record_of(CHUNK_KIND, chunk_body(id, offset as u32, bytes@)));
    Ok(record)
}

/// Whether a body can be that of a chunk: at least one byte behind the header,
/// and not more than a chunk holds.
pub open spec fn is_chunk_body(body: Seq<u8>) -> bool {
    12 < body.len() <= 12 + MAX_CHUNK_BYTES
}

pub fn decode_chunk(record: &[u8]) -> (result: Result<(u64, usize, &[u8]), ClipboardError>)
    ensures
        match result {
            Ok((id, offset, bytes)) => is_chunk_body(record@) && id == crate::wire::u64_at(
                record@,
                0,
            ) && offset == crate::wire::u32_at(record@, 8) && bytes@ == record@.skip(12),
            Err(error) => !is_chunk_body(record@) && error@ == ClipboardFault::InvalidRecord,
        },
{
    if record.len() <= 12 {
        return Err(ClipboardError::InvalidRecord);
    }
    if record.len() - 12 > MAX_CHUNK_BYTES {
        return Err(ClipboardError::InvalidRecord);
    }
    let id: u64 = get_u64(record, 0);
    let offset: usize = get_u32(record, 8) as usize;
    assert(record@.subrange(12, record@.len() as int) =~= record@.skip(12));
    Ok((id, offset, vstd::slice::slice_subrange(record, 12, record.len())))
}

/// What a content record leads to: the transfer in progress afterwards and the
/// content that is now complete.
pub open spec fn content_step(incoming: Option<TransferView>, record: Seq<u8>) -> Result<
    (Option<TransferView>, Option<ContentView>),
    ClipboardFault,
> {
    let body = record.skip(6);
    match kind_of_record(record) {
        Some(kind) if kind == START_KIND => match start_denoted(body) {
            Err(fault) => Err(fault),
            Ok(transfer) => if transfer.total_bytes == 0 {
                Ok(
                    (
                        incoming,
                        Some(ContentView { mime_type: transfer.mime_type, bytes: Seq::empty() }),
                    ),
                )
            } else {
                Ok((Some(transfer), None))
            },
        },
        Some(kind) if kind == CHUNK_KIND => {
            let id = crate::wire::u64_at(body, 0);
            let offset = crate::wire::u32_at(body, 8);
            let bytes = body.skip(12);
            match incoming {
                Some(transfer) if is_chunk_body(body) && transfer.id == id && offset
                    == transfer.bytes.len() && bytes.len() <= transfer.total_bytes
                    - transfer.bytes.len() => {
                    let all = transfer.bytes + bytes;
                    if all.len() == transfer.total_bytes {
                        Ok(
                            (
                                None,
                                Some(ContentView { mime_type: transfer.mime_type, bytes: all }),
                            ),
                        )
                    } else {
                        Ok((Some(TransferView { bytes: all, ..transfer }), None))
                    }
                },
                _ => Err(ClipboardFault::InvalidRecord),
            }
        },
        _ => Err(ClipboardFault::InvalidRecord),
    }
}

pub open spec fn transfer_view(incoming: Option<IncomingTransfer>) -> Option<TransferView> {
    match incoming {
        Some(transfer) => Some(transfer@),
        None => None,
    }
}

pub open spec fn content_view(content: Option<ClipboardContent>) -> Option<ContentView> {
    match content {
        Some(content) => Some(content@),
        None => None,
    }
}

/// Takes one content record into the transfer in progress. A record that does
/// not fit leaves the transfer as it was.
pub fn receive_record(record: &[u8], incoming: &mut Option<IncomingTransfer>) -> (result: Result<
    Option<ClipboardContent>,
    ClipboardError,
>)
    requires
        transfer_view(*old(incoming)) matches Some(transfer) ==> transfer.wf(),
    ensures
        transfer_view(*final(incoming)) matches Some(transfer) ==> transfer.wf(),
        match result {
            Ok(content) => content_step(transfer_view(*old(incoming)), record@) == Ok::<
                (Option<TransferView>, Option<ContentView>),
                ClipboardFault,
            >((transfer_view(*final(incoming)), content_view(content))),
            Err(error) => content_step(transfer_view(*old(incoming)), record@) == Err::<
                (Option<TransferView>, Option<ContentView>),
                ClipboardFault,
            >(error@) && *final(incoming) == *old(incoming),
        },
{
    let kind: u8 = match record_kind(record) {
        Some(kind) => kind,
        None => {
            return Err(ClipboardError::InvalidRecord);
        },
    };
    let body = record_body(record);
    if kind == START_KIND {
        let transfer = match decode_start(body) {
            Ok(transfer) => transfer,
            Err(error) => {
                return Err(error);
            },
        };
        if transfer.total_bytes == 0 {
            let content = ClipboardContent { mime_type: transfer.mime_type, bytes: Vec::new() };
            assert(content@.bytes =~= Seq::<u8>::empty());
            return Ok(Some(content));
        }
        *incoming = Some(transfer);
        Ok(None)
    } else if kind == CHUNK_KIND {
        let (id, offset, bytes) = match decode_chunk(body) {
            Ok(found) => found,
            Err(error) => {
                return Err(error);
            },
        };
        match incoming.take() {
            None => Err(ClipboardError::InvalidRecord),
            Some(mut transfer) => {
                if transfer.id != id || offset != transfer.bytes.len() || bytes.len()
                    > transfer.total_bytes - transfer.bytes.len() {
                    *incoming = Some(transfer);
                    return Err(ClipboardError::InvalidRecord);
                }
                put_bytes(&mut transfer.bytes, bytes);
                if transfer.bytes.len() == transfer.total_bytes {
                    Ok(
                        Some(
                            ClipboardContent {
                                mime_type: transfer.mime_type,
                                bytes: transfer.bytes,
                            },
                        ),
                    )
                } else {
                    *incoming = Some(transfer);
                    Ok(None)
                }
            },
        }
    } else {
        Err(ClipboardError::InvalidRecord)
    }
}

// Whole values.

/// End of the chunk that begins at an offset.
pub open spec fn chunk_end(offset: int, len: int) -> int {
    if len - offset > MAX_CHUNK_BYTES {
        offset + MAX_CHUNK_BYTES
    } else {
        len
    }
}

/// The chunk records from an offset on.
pub open spec fn chunk_records(id: u64, bytes: Seq<u8>, offset: int) -> Seq<Seq<u8>>
    decreases bytes.len() - offset,
{
    if offset < 0 || offset >= bytes.len() {
        Seq::empty()
    } else {
        let end = chunk_end(offset, bytes.len() as int);
        seq![
            record_of(CHUNK_KIND, chunk_body(id, offset as u32, bytes.subrange(offset, end))),
        ] + chunk_records(id, bytes, end)
    }
}

/// All records of a value: its start and its chunks.
pub open spec fn content_records(id: u64, content: ContentView) -> Seq<Seq<u8>> {
    seq![encoded_start(id, content)->Ok_0] + chunk_records(id, content.bytes, 0)
}

/// The contents of a list of byte strings.
pub open spec fn byte_lists(list: Seq<Vec<u8>>) -> Seq<Seq<u8>> {
    list.map_values(|bytes: Vec<u8>| bytes@)
}

/// The records that carry a value under an identifier.
pub fn records_for_content(id: u64, content: &ClipboardContent) -> (result: Result<
    Vec<Vec<u8>>,
    ClipboardError,
>)
    ensures
        match result {
            Ok(records) => encoded_start(id, content@) is Ok && byte_lists(records@)
                == content_records(id, content@),
            Err(error) => encoded_start(id, content@) == Err::<Seq<u8>, ClipboardFault>(error@),
        },
{
    let start = match encode_start(id, content) {
        Ok(start) => start,
        Err(error) => {
            return Err(error);
        },
    };
    let mut records: Vec<Vec<u8>> = Vec::new();
    let ghost first = start@;
    records.push(start);
    let bytes = content.bytes.as_slice();
    let len: usize = bytes.len();
    let mut offset: usize = 0;
    assert(byte_lists(records@) =~= seq![first]);
    while offset < len
        invariant
            offset <= len,
            len == bytes@.len(),
            len <= 0xffff_ffff,
            bytes@ == content.bytes@,
            encoded_start(id, content@) == Ok::<Seq<u8>, ClipboardFault>(first),
            byte_lists(records@) + chunk_records(id, bytes@, offset as int) == content_records(
                id,
                content@,
            ),
        decreases len - offset,
    {
        let end: usize = if len - offset > MAX_CHUNK_BYTES {
            offset + MAX_CHUNK_BYTES
        } else {
            len
        };
        let ghost before = byte_lists(records@);
        let chunk = vstd::slice::slice_subrange(bytes, offset, end);
        match encode_chunk(id, offset, chunk) {
            Ok(record) => {
                let ghost added = record@;
                records.push(record);
                assert(byte_lists(records@) =~= before.push(added));
                assert(before + chunk_records(id, bytes@, offset as int) =~= before.push(added)
                    + chunk_records(id, bytes@, end as int));
            },
            Err(error) => {
                return Err(error);
            },
        }
        offset = end;
    }
    assert(byte_lists(records@) + chunk_records(id, bytes@, offset as int) =~= byte_lists(
        records@,
    ));
    Ok(records)
}

/// A fresh identifier. Nothing is promised of its value.
pub fn random_transfer_id() -> (id: u64) {
    let bytes = random_bytes(8);
    get_u64(bytes.as_slice(), 0)
}

/// What a run of content records leads to: the transfer left over and the
/// values completed, in order.
pub open spec fn receive_all(incoming: Option<TransferView>, records: Seq<Seq<u8>>) -> Result<
    (Option<TransferView>, Seq<ContentView>),
    ClipboardFault,
>
    decreases records.len(),
{
    if records.len() == 0 {
        Ok((incoming, Seq::empty()))
    } else {
        match content_step(incoming, records[0]) {
            Err(fault) => Err(fault),
            Ok((next, done)) => match receive_all(next, records.skip(1)) {
                Err(fault) => Err(fault),
                Ok((last, more)) => Ok(
                    (
                        last,
                        match done {
                            Some(content) => seq![content] + more,
                            None => more,
                        },
                    ),
                ),
            },
        }
    }
}

/// A start record announces the value it was made for.
proof fn lemma_start(id: u64, content: ContentView)
    requires
        encoded_start(id, content) is Ok,
    ensures
        start_denoted(encoded_start(id, content)->Ok_0.skip(6)) == Ok::<
            TransferView,
            ClipboardFault,
        >(
            TransferView {
                id,
                mime_type: content.mime_type,
                total_bytes: content.bytes.len() as int,
                bytes: Seq::empty(),
            },
        ),
        kind_of_record(encoded_start(id, content)->Ok_0) == Some(START_KIND),
{
    let mime = crate::text::utf8(content.mime_type);
    let total = content.bytes.len() as u32;
    let body = start_body(id, mime, total);
    lemma_mime_bytes(content.mime_type);
    lemma_record_of(START_KIND, body);
    assert(body.subrange(0, 8) =~= crate::wire::be64(id));
    crate::wire::lemma_u64_at(body, 0, id);
    assert(body[8] == mime.len() as u8);
    assert(body.subrange(9, 13) =~= crate::wire::be32(total));
    crate::wire::lemma_u32_at(body, 9, total);
    assert(body.skip(13) =~= mime);
    crate::text::lemma_utf8_round_trip(content.mime_type);
}

proof fn lemma_chunk(id: u64, offset: u32, bytes: Seq<u8>)
    ensures
        ({
            let body = chunk_body(id, offset, bytes);
            &&& body.len() == 12 + bytes.len()
            &&& crate::wire::u64_at(body, 0) == id
            &&& crate::wire::u32_at(body, 8) == offset
            &&& body.skip(12) == bytes
        }),
{
    let body = chunk_body(id, offset, bytes);
    assert(body.subrange(0, 8) =~= crate::wire::be64(id));
    crate::wire::lemma_u64_at(body, 0, id);
    assert(body.subrange(8, 12) =~= crate::wire::be32(offset));
    crate::wire::lemma_u32_at(body, 8, offset);
    assert(body.skip(12) =~= bytes);
}

/// Whether a value of `total` bytes can be cut into chunks of these sizes.
pub open spec fn cuts(sizes: Seq<int>, total: int) -> bool
    decreases sizes.len(),
{
    if sizes.len() == 0 {
        total == 0
    } else {
        1 <= sizes[0] <= MAX_CHUNK_BYTES && sizes[0] <= total && cuts(
            sizes.skip(1),
            total - sizes[0],
        )
    }
}

/// The chunk records from an offset on, for chunks of these sizes.
pub open spec fn cut_records(id: u64, bytes: Seq<u8>, offset: int, sizes: Seq<int>) -> Seq<Seq<u8>>
    decreases sizes.len(),
{
    if sizes.len() == 0 {
        Seq::empty()
    } else {
        let end = offset + sizes[0];
        seq![
            record_of(CHUNK_KIND, chunk_body(id, offset as u32, bytes.subrange(offset, end))),
        ] + cut_records(id, bytes, end, sizes.skip(1))
    }
}

/// A transfer of a value of which the first `offset` bytes have arrived.
spec fn arrived(id: u64, content: ContentView, offset: int) -> TransferView {
    TransferView {
        id,
        mime_type: content.mime_type,
        total_bytes: content.bytes.len() as int,
        bytes: content.bytes.take(offset),
    }
}

proof fn lemma_chunk_step(id: u64, content: ContentView, offset: int, end: int)
    requires
        0 <= offset < end <= content.bytes.len() <= 0xffff_ffff,
        end - offset <= MAX_CHUNK_BYTES,
    ensures
        content_step(
            Some(arrived(id, content, offset)),
            record_of(
                CHUNK_KIND,
                chunk_body(id, offset as u32, content.bytes.subrange(offset, end)),
            ),
        ) == Ok::<(Option<TransferView>, Option<ContentView>), ClipboardFault>(
            if end == content.bytes.len() {
                (None, Some(content))
            } else {
                (Some(arrived(id, content, end)), None)
            },
        ),
{
    let bytes = content.bytes;
    let part = bytes.subrange(offset, end);
    let body = chunk_body(id, offset as u32, part);
    lemma_record_of(CHUNK_KIND, body);
    lemma_chunk(id, offset as u32, part);
    assert(bytes.take(offset) + part =~= bytes.take(end));
    if end == bytes.len() {
        assert(bytes.take(end) =~= bytes);
    }
}

/// One record, and then the others.
proof fn lemma_receive_first(
    incoming: Option<TransferView>,
    first: Seq<u8>,
    rest: Seq<Seq<u8>>,
    next: Option<TransferView>,
    done: Option<ContentView>,
    more: Seq<ContentView>,
)
    requires
        content_step(incoming, first) == Ok::<
            (Option<TransferView>, Option<ContentView>),
            ClipboardFault,
        >((next, done)),
        receive_all(next, rest) == Ok::<
            (Option<TransferView>, Seq<ContentView>),
            ClipboardFault,
        >((None, more)),
    ensures
        receive_all(incoming, seq![first] + rest) == Ok::<
            (Option<TransferView>, Seq<ContentView>),
            ClipboardFault,
        >(
            (
                None,
                match done {
                    Some(content) => seq![content] + more,
                    None => more,
                },
            ),
        ),
{
    let records = seq![first] + rest;
    assert(records.skip(1) =~= rest);
    assert(records[0] == first);
}

proof fn lemma_receive_cuts(id: u64, content: ContentView, offset: int, sizes: Seq<int>)
    requires
        0 <= offset < content.bytes.len(),
        content.bytes.len() <= 0xffff_ffff,
        cuts(sizes, content.bytes.len() - offset),
    ensures
        receive_all(
            Some(arrived(id, content, offset)),
            cut_records(id, content.bytes, offset, sizes),
        ) == Ok::<(Option<TransferView>, Seq<ContentView>), ClipboardFault>((None, seq![content])),
    decreases sizes.len(),
{
    let end = offset + sizes[0];
    let before = Some(arrived(id, content, offset));
    let rest = cut_records(id, content.bytes, end, sizes.skip(1));
    let first = record_of(
        CHUNK_KIND,
        chunk_body(id, offset as u32, content.bytes.subrange(offset, end)),
    );
    lemma_chunk_step(id, content, offset, end);
    if end == content.bytes.len() {
        assert(cuts(sizes.skip(1), 0));
        assert(sizes.skip(1).len() == 0);
        assert(rest.len() == 0);
        lemma_receive_first(before, first, rest, None, Some(content), Seq::empty());
        assert(seq![content] + Seq::<ContentView>::empty() =~= seq![content]);
    } else {
        lemma_receive_cuts(id, content, end, sizes.skip(1));
        let after = Some(arrived(id, content, end));
        lemma_receive_first(before, first, rest, after, None, seq![content]);
    }
}

/// A value that was cut into records, into chunks of whatever sizes a record
/// can hold, is put together again, whole and once, with nothing left over.
pub proof fn law_content_is_reassembled(id: u64, content: ContentView, sizes: Seq<int>)
    requires
        encoded_start(id, content) is Ok,
        cuts(sizes, content.bytes.len() as int),
    ensures
        receive_all(
            None,
            seq![encoded_start(id, content)->Ok_0] + cut_records(id, content.bytes, 0, sizes),
        ) == Ok::<(Option<TransferView>, Seq<ContentView>), ClipboardFault>(
            (None, seq![content]),
        ),
{
    lemma_start(id, content);
    let chunks = cut_records(id, content.bytes, 0, sizes);
    let records = seq![encoded_start(id, content)->Ok_0] + chunks;
    assert(records.skip(1) =~= chunks);
    assert(content.bytes.take(0) =~= Seq::<u8>::empty());
    if content.bytes.len() > 0 {
        lemma_receive_cuts(id, content, 0, sizes);
    } else {
        assert(content.bytes =~= Seq::<u8>::empty());
        assert(sizes.len() == 0);
        assert(chunks =~= Seq::<Seq<u8>>::empty());
        assert(content_step(None, records[0]) == Ok::<
            (Option<TransferView>, Option<ContentView>),
            ClipboardFault,
        >((None, Some(content))));
        assert(receive_all(None, records.skip(1)) == Ok::<
            (Option<TransferView>, Seq<ContentView>),
            ClipboardFault,
        >((None, Seq::empty())));
        assert(seq![content] + Seq::<ContentView>::empty() =~= seq![content]);
    }
}

/// The sizes of chunks that are as large as they can be.
pub open spec fn full_sizes(offset: int, len: int) -> Seq<int>
    decreases len - offset,
{
    if offset < 0 || offset >= len {
        Seq::empty()
    } else {
        let end = chunk_end(offset, len);
        seq![end - offset] + full_sizes(end, len)
    }
}

proof fn lemma_full_sizes(id: u64, bytes: Seq<u8>, offset: int)
    requires
        0 <= offset <= bytes.len(),
    ensures
        cuts(full_sizes(offset, bytes.len() as int), bytes.len() - offset),
        cut_records(id, bytes, offset, full_sizes(offset, bytes.len() as int)) == chunk_records(
            id,
            bytes,
            offset,
        ),
    decreases bytes.len() - offset,
{
    let len = bytes.len() as int;
    let sizes = full_sizes(offset, len);
    if offset < len {
        let end = chunk_end(offset, len);
        lemma_full_sizes(id, bytes, end);
        assert(sizes.skip(1) =~= full_sizes(end, len));
    }
}

/// What [`records_for_content`] gives for a value is put together again to that
/// value.
pub proof fn law_records_give_their_content(id: u64, content: ContentView)
    requires
        encoded_start(id, content) is Ok,
    ensures
        receive_all(None, content_records(id, content)) == Ok::<
            (Option<TransferView>, Seq<ContentView>),
            ClipboardFault,
        >((None, seq![content])),
{
    lemma_full_sizes(id, content.bytes, 0);
    law_content_is_reassembled(id, content, full_sizes(0, content.bytes.len() as int));
}

/// A transfer never holds more than was announced, and content comes out only
/// with exactly as many bytes as were announced.
pub proof fn law_content_is_never_partial(incoming: Option<TransferView>, record: Seq<u8>)
    requires
        incoming matches Some(transfer) ==> transfer.wf(),
        content_step(incoming, record) is Ok,
    ensures
        ({
            let (next, done) = content_step(incoming, record)->Ok_0;
            &&& next matches Some(transfer) ==> transfer.wf()
            &&& kind_of_record(record) == Some(CHUNK_KIND) && done is Some ==> incoming is Some
                && done->0.bytes.len() == incoming->0.total_bytes && done->0.mime_type
                == incoming->0.mime_type && next is None
        }),
{
}

/// What can be sent: plain text that is UTF-8, PNG, JPEG and WebP images of up
/// to 8 MiB, and lists of files of up to 64 GiB; what cannot be sent has the first
/// fault that applies.
pub proof fn law_which_content_can_be_sent(content: ContentView)
    ensures
        ({
            let text = content.mime_type == "text/plain"@ || content.mime_type
                == "text/plain;charset=utf-8"@;
            let image = content.mime_type == "image/png"@ || content.mime_type == "image/jpeg"@
                || content.mime_type == "image/webp"@;
            let files = content.mime_type == "application/x-cachybridge-file-list"@;
            let limit: int = if files {
                68_719_476_736
            } else {
                8_388_608
            };
            &&& !text && !image && !files ==> content_fault(content) == Some(
                ClipboardFault::UnsupportedMime,
            )
            &&& (text || image || files) && content.bytes.len() > limit ==> content_fault(content)
                == Some(ClipboardFault::TooLarge)
            &&& text && content.bytes.len() <= limit ==> (content_fault(content) is None
                <==> vstd::utf8::valid_utf8(content.bytes))
            &&& (image || files) && content.bytes.len() <= limit ==> content_fault(content) is None
            &&& is_supported_mime(content.mime_type) <==> text || image || files
            &&& size_limit(content.mime_type) == limit
        }),
{
    reveal_strlit("text/plain");
    reveal_strlit("text/plain;charset=utf-8");
    reveal_strlit("image/png");
    reveal_strlit("image/jpeg");
    reveal_strlit("image/webp");
    reveal_strlit("application/x-cachybridge-file-list");
    assert("text/plain"@.len() == 10 && "text/plain;charset=utf-8"@.len() == 24
        && "image/png"@.len() == 9 && "image/jpeg"@.len() == 10 && "image/webp"@.len() == 10
        && "application/x-cachybridge-file-list"@.len() == 35);
    assert("text/plain"@[0] == 't' && "image/jpeg"@[0] == 'i' && "image/webp"@[0] == 'i');
}

/// A record is the five bytes that begin every one, the byte of its kind and its
/// body, and its kind is read from there. Eight kinds have a meaning.
pub proof fn law_records_begin_alike(kind: u8, body: Seq<u8>, record: Seq<u8>)
    ensures
        record_of(kind, body) == seq![67u8, 66, 67, 76, 50, kind] + body,
        kind_of_record(record_of(kind, body)) == Some(kind),
        kind_of_record(record) is Some <==> record.len() > 5 && record[0] == 67 && record[1] == 66
            && record[2] == 67 && record[3] == 76 && record[4] == 50,
        kind_of_record(record) matches Some(found) ==> found == record[5],
        START_KIND == 1 && CHUNK_KIND == 2 && FILE_START_KIND == 3 && FILE_CHUNK_KIND == 4
            && FILE_FINISH_KIND == 5 && FILE_ACCEPT_KIND == 6 && FILE_REJECT_KIND == 7
            && DIRECT_FILE_START_KIND == 8,
{
    lemma_record_of(kind, body);
    assert(record_of(kind, body) =~= seq![67u8, 66, 67, 76, 50, kind] + body);
    let p = record_prefix();
    let t = record.take(5);
    if record.len() > 5 && record[0] == 67 && record[1] == 66 && record[2] == 67 && record[3] == 76
        && record[4] == 50 {
        assert(t =~= p);
    } else if kind_of_record(record) is Some {
        assert(t[0] == p[0] && t[1] == p[1] && t[2] == p[2] && t[3] == p[3] && t[4] == p[4]);
    }
}

/// A start record holds its transfer's number, the length of the type, the number
/// of bytes to come and the type, in this order.
pub proof fn law_start_records(id: u64, content: ContentView)
    requires
        encoded_start(id, content) is Ok,
    ensures
        ({
            let record = encoded_start(id, content)->Ok_0;
            let mime = crate::text::utf8(content.mime_type);
            &&& record.len() == 19 + mime.len()
            &&& record.take(6) == seq![67u8, 66, 67, 76, 50, 1]
            &&& record.subrange(6, 14) == crate::wire::be64(id)
            &&& record[14] == mime.len()
            &&& record.subrange(15, 19) == crate::wire::be32(content.bytes.len() as u32)
            &&& record.skip(19) == mime
        }),
        content_fault(content) is None,
        content.bytes.len() <= 0xffff_ffff,
{
    let record = encoded_start(id, content)->Ok_0;
    let mime = crate::text::utf8(content.mime_type);
    lemma_mime_bytes(content.mime_type);
    assert(record.take(6) =~= seq![67u8, 66, 67, 76, 50, 1]);
    assert(record.subrange(6, 14) =~= crate::wire::be64(id));
    assert(record.subrange(15, 19) =~= crate::wire::be32(content.bytes.len() as u32));
    assert(record.skip(19) =~= mime);
}

/// A chunk record holds its transfer's number, the place of its bytes and the
/// bytes: at least one, at most 16384.
pub proof fn law_chunk_records(id: u64, offset: u32, bytes: Seq<u8>)
    ensures
        encoded_chunk(id, offset as int, bytes) is Ok <==> 1 <= bytes.len() <= 16384,
        encoded_chunk(id, offset as int, bytes) matches Ok(record) ==> record == seq![
            67u8,
            66,
            67,
            76,
            50,
            2,
        ] + crate::wire::be64(id) + crate::wire::be32(offset) + bytes,
        encoded_chunk(id, 0x1_0000_0000 + offset, bytes) is Err,
{
    assert(record_of(CHUNK_KIND, chunk_body(id, offset, bytes)) =~= seq![67u8, 66, 67, 76, 50, 2]
        + crate::wire::be64(id) + crate::wire::be32(offset) + bytes);
}

/// A chunk is taken in exactly if it continues the transfer in progress: it has
/// that transfer's number, begins where its bytes end, and does not go beyond what
/// was announced. It is then appended; with the last byte the content is complete.
pub proof fn law_chunks_continue_their_transfer(
    incoming: Option<TransferView>,
    id: u64,
    offset: u32,
    bytes: Seq<u8>,
)
    requires
        1 <= bytes.len() <= 16384,
    ensures
        ({
            let record = record_of(2, chunk_body(id, offset, bytes));
            match incoming {
                Some(transfer) if transfer.id == id && transfer.bytes.len() == offset
                    && transfer.bytes.len() + bytes.len() <= transfer.total_bytes => {
                    content_step(incoming, record) matches Ok((next, done)) && if transfer.bytes.len()
                        + bytes.len() == transfer.total_bytes {
                        &&& next is None
                        &&& done == Some(
                            ContentView {
                                mime_type: transfer.mime_type,
                                bytes: transfer.bytes + bytes,
                            },
                        )
                    } else {
                        &&& done is None
                        &&& next matches Some(more)
                        &&& more.id == id
                        &&& more.mime_type == transfer.mime_type
                        &&& more.total_bytes == transfer.total_bytes
                        &&& more.bytes == transfer.bytes + bytes
                    }
                },
                _ => content_step(incoming, record) == Err::<
                    (Option<TransferView>, Option<ContentView>),
                    ClipboardFault,
                >(ClipboardFault::InvalidRecord),
            }
        }),
{
    lemma_chunk(id, offset, bytes);
    lemma_record_of(2, chunk_body(id, offset, bytes));
}

/// A start begins a transfer anew, whatever was in progress; one of no bytes is
/// complete at once and leaves what is in progress alone.
pub proof fn law_starts_begin_anew(incoming: Option<TransferView>, id: u64, content: ContentView)
    requires
        encoded_start(id, content) is Ok,
    ensures
        ({
            let outcome = content_step(incoming, encoded_start(id, content)->Ok_0);
            if content.bytes.len() == 0 {
                outcome matches Ok((next, done)) && next == incoming && done == Some(content)
            } else {
                outcome matches Ok((next, done)) && done is None && (next matches Some(transfer)
                    && transfer.id == id && transfer.mime_type == content.mime_type
                    && transfer.total_bytes == content.bytes.len() && transfer.bytes.len() == 0)
            }
        }),
{
    lemma_start(id, content);
    if content.bytes.len() == 0 {
        assert(content.bytes =~= Seq::<u8>::empty());
    }
}

/// Content is cut into chunks of 16384 bytes, the last one having what is left;
/// each says where its bytes stand.
pub proof fn law_chunks_are_cut_evenly(id: u64, bytes: Seq<u8>, i: int)
    requires
        0 <= i,
        i * 16384 < bytes.len(),
    ensures
        i < chunk_records(id, bytes, 0).len(),
        ({
            let from = i * 16384;
            let to = if bytes.len() - from > 16384 {
                from + 16384
            } else {
                bytes.len() as int
            };
            chunk_records(id, bytes, 0)[i] == seq![67u8, 66, 67, 76, 50, 2] + crate::wire::be64(id)
                + crate::wire::be32(from as u32) + bytes.subrange(from, to)
        }),
{
    lemma_cut_evenly(id, bytes, 0, i);
}

proof fn lemma_cut_evenly(id: u64, bytes: Seq<u8>, offset: int, i: int)
    requires
        0 <= i,
        0 <= offset,
        offset + i * 16384 < bytes.len(),
    ensures
        i < chunk_records(id, bytes, offset).len(),
        ({
            let from = offset + i * 16384;
            let to = if bytes.len() - from > 16384 {
                from + 16384
            } else {
                bytes.len() as int
            };
            chunk_records(id, bytes, offset)[i] == seq![67u8, 66, 67, 76, 50, 2]
                + crate::wire::be64(id) + crate::wire::be32(from as u32) + bytes.subrange(from, to)
        }),
    decreases i,
{
    let end = chunk_end(offset, bytes.len() as int);
    if i == 0 {
        let part = bytes.subrange(offset, end);
        assert(record_of(CHUNK_KIND, chunk_body(id, offset as u32, part)) =~= seq![
            67u8,
            66,
            67,
            76,
            50,
            2,
        ] + crate::wire::be64(id) + crate::wire::be32(offset as u32) + part);
    } else {
        assert(end == offset + 16384);
        lemma_cut_evenly(id, bytes, end, i - 1);
        assert(chunk_records(id, bytes, offset)[i] == chunk_records(id, bytes, end)[i - 1]);
    }
}

/// What is reported or given is what was due, and nothing else.
pub proof fn law_results_are_what_was_due(
    bytes: Vec<u8>,
    error: ClipboardError,
    fault: Option<ClipboardFault>,
    due: Result<Seq<u8>, ClipboardFault>,
)
    ensures
        reports(Ok(()), fault) <==> fault is None,
        reports(Err(error), fault) <==> fault == Some(error@),
        gives(Ok(bytes), due) <==> due == Ok::<Seq<u8>, ClipboardFault>(bytes@),
        gives(Err(error), due) <==> due == Err::<Seq<u8>, ClipboardFault>(error@),
{
}

} // verus!
