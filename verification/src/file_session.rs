//! The two sides of a file transfer as state machines.
//!
//! The receiver turns records into questions, writes and publications; the
//! sender turns what it read from files into records. Disk, dialogs and the
//! connection belong to the application.
use vstd::prelude::*;

use crate::clipboard::{
    record_body, record_kind, ClipboardError, ClipboardFault, DIRECT_FILE_START_KIND,
    FILE_CHUNK_KIND, FILE_FINISH_KIND, FILE_START_KIND, MAX_CHUNK_BYTES, MAX_FILE_COUNT,
    MAX_FILE_TRANSFER_BYTES,
};
use crate::file_transfer::{
    decode_file_chunk, decode_file_decision, decode_file_start, encode_file_chunk,
    encode_file_decision, encode_file_finish, encode_file_start_with_kind, FileSelection,
    OfferView, SelectionView,
};
use crate::wire::{copy_range, get_u64};

verus! {

/// A file of which some bytes may have arrived.
#[derive(Debug, PartialEq, Eq)]
pub struct IncomingFile {
    pub name: String,
    pub size: u64,
    pub received: u64,
}

/// A transfer that the user agreed to.
#[derive(Debug, PartialEq, Eq)]
pub struct IncomingFileTransfer {
    pub id: u64,
    pub files: Vec<IncomingFile>,
    pub file_index: usize,
    pub total_bytes: u64,
    pub received_bytes: u64,
}

#[verifier::ext_equal]
pub struct IncomingFileView {
    pub name: Seq<char>,
    pub size: int,
    pub received: int,
}

#[verifier::ext_equal]
pub struct FileTransferView {
    pub id: u64,
    pub files: Seq<IncomingFileView>,
    pub index: int,
    pub total: int,
    pub received: int,
}

impl View for IncomingFile {
    type V = IncomingFileView;

    open spec fn view(&self) -> IncomingFileView {
        IncomingFileView {
            name: self.name@,
            size: self.size as int,
            received: self.received as int,
        }
    }
}

pub open spec fn incoming_files(files: Seq<IncomingFile>) -> Seq<IncomingFileView> {
    files.map_values(|file: IncomingFile| file@)
}

impl View for IncomingFileTransfer {
    type V = FileTransferView;

    open spec fn view(&self) -> FileTransferView {
        FileTransferView {
            id: self.id,
            files: incoming_files(self.files@),
            index: self.file_index as int,
            total: self.total_bytes as int,
            received: self.received_bytes as int,
        }
    }
}

/// Sum of the sizes of the first `k` files.
pub open spec fn sizes_before(files: Seq<IncomingFileView>, k: int) -> int
    decreases k,
{
    if k <= 0 || k > files.len() {
        0
    } else {
        sizes_before(files, k - 1) + files[k - 1].size
    }
}

impl FileTransferView {
    /// Files fill up one after the other, and the counters add up.
    pub open spec fn wf(self) -> bool {
        &&& self.files.len() > 0
        &&& 0 <= self.index <= self.files.len()
        &&& forall|i: int|
            0 <= i < self.files.len() ==> 0 <= (#[trigger] self.files[i]).received
                <= self.files[i].size
        &&& forall|i: int|
            0 <= i < self.index ==> (#[trigger] self.files[i]).received == self.files[i].size
        &&& forall|i: int|
            self.index < i < self.files.len() ==> (#[trigger] self.files[i]).received == 0
        &&& self.index < self.files.len() && self.files[self.index].received
            == self.files[self.index].size ==> self.files[self.index].size == 0
        &&& self.received == sizes_before(self.files, self.index) + (if self.index
            < self.files.len() {
            self.files[self.index].received
        } else {
            0
        })
        &&& self.total == sizes_before(self.files, self.files.len() as int)
        &&& self.total <= MAX_FILE_TRANSFER_BYTES
    }

    /// Every announced byte is there.
    pub open spec fn is_complete(self) -> bool {
        self.index == self.files.len() && self.received == self.total
    }

    /// Whether a chunk is the next piece of the current file.
    pub open spec fn takes(self, id: u64, index: int, offset: int, len: int) -> bool {
        &&& id == self.id
        &&& index == self.index
        &&& index < self.files.len()
        &&& offset == self.files[index].received
        &&& len <= self.files[index].size - self.files[index].received
    }

    /// Whether `len` more bytes complete the current file.
    pub open spec fn completes(self, len: int) -> bool {
        self.files[self.index].received + len == self.files[self.index].size
    }

    /// The transfer after `len` more bytes of the current file.
    pub open spec fn after(self, len: int) -> FileTransferView {
        let file = self.files[self.index];
        FileTransferView {
            files: self.files.update(
                self.index,
                IncomingFileView { received: file.received + len, ..file },
            ),
            index: if self.completes(len) {
                self.index + 1
            } else {
                self.index
            },
            received: self.received + len,
            ..self
        }
    }
}

/// What the application is to do for a record.
pub enum FileActionView {
    /// Ask the user about an offer.
    Ask(OfferView),
    /// Append bytes to the staged file with this index.
    Write { index: int, bytes: Seq<u8>, completes: bool },
    /// Move the staged files to their destination.
    Publish(FileTransferView),
}

/// What a file record leads to: the transfer in progress afterwards and what
/// is to be done.
pub open spec fn file_step(incoming: Option<FileTransferView>, record: Seq<u8>) -> Result<
    (Option<FileTransferView>, FileActionView),
    ClipboardFault,
> {
    let body = record.skip(6);
    match crate::clipboard::kind_of_record(record) {
        Some(kind) if kind == FILE_START_KIND || kind == DIRECT_FILE_START_KIND => if incoming
            is Some {
            Err(ClipboardFault::InvalidRecord)
        } else {
            match crate::file_transfer::offer_denoted(body) {
                Ok(offer) => Ok((None, FileActionView::Ask(offer))),
                Err(fault) => Err(fault),
            }
        },
        Some(kind) if kind == FILE_CHUNK_KIND => {
            let id = crate::wire::u64_at(body, 0);
            let index = crate::wire::u16_at(body, 8) as int;
            let offset = crate::wire::u64_at(body, 10) as int;
            let bytes = body.skip(18);
            match incoming {
                Some(transfer) if crate::file_transfer::is_file_chunk_body(body) && transfer.takes(
                    id,
                    index,
                    offset,
                    bytes.len() as int,
                ) => Ok(
                    (
                        Some(transfer.after(bytes.len() as int)),
                        FileActionView::Write {
                            index,
                            bytes,
                            completes: transfer.completes(bytes.len() as int),
                        },
                    ),
                ),
                _ => Err(ClipboardFault::InvalidRecord),
            }
        },
        Some(kind) if kind == FILE_FINISH_KIND => match incoming {
            Some(transfer) if body.len() == 8 && crate::wire::u64_at(body, 0) == transfer.id
                && transfer.is_complete() => Ok((None, FileActionView::Publish(transfer))),
            _ => Err(ClipboardFault::InvalidRecord),
        },
        _ => Err(ClipboardFault::InvalidRecord),
    }
}

/// The transfer that a refused record leaves: an ill-timed end abandons it.
pub open spec fn after_refusal(incoming: Option<FileTransferView>, record: Seq<u8>) -> Option<
    FileTransferView,
> {
    if crate::clipboard::kind_of_record(record) == Some(FILE_FINISH_KIND) && record.skip(6).len()
        == 8 {
        None
    } else {
        incoming
    }
}

/// An offer as it was read.
#[derive(Debug, PartialEq, Eq)]
pub struct FileOffer {
    pub id: u64,
    pub files: Vec<(String, u64)>,
    pub total_bytes: u64,
}

impl View for FileOffer {
    type V = OfferView;

    open spec fn view(&self) -> OfferView {
        OfferView {
            id: self.id,
            files: crate::file_transfer::manifest_view(self.files@),
            total_bytes: self.total_bytes,
        }
    }
}

/// What the application is to do for a record.
#[derive(Debug, PartialEq, Eq)]
pub enum FileAction {
    Ask(FileOffer),
    Write { index: usize, bytes: Vec<u8>, completes: bool },
    Publish(IncomingFileTransfer),
}

impl View for FileAction {
    type V = FileActionView;

    open spec fn view(&self) -> FileActionView {
        match self {
            FileAction::Ask(offer) => FileActionView::Ask(offer@),
            FileAction::Write { index, bytes, completes } => FileActionView::Write {
                index: *index as int,
                bytes: bytes@,
                completes: *completes,
            },
            FileAction::Publish(transfer) => FileActionView::Publish(transfer@),
        }
    }
}

pub open spec fn session_view(incoming: Option<IncomingFileTransfer>) -> Option<FileTransferView> {
    match incoming {
        Some(transfer) => Some(transfer@),
        None => None,
    }
}

proof fn lemma_sizes_equal(a: Seq<IncomingFileView>, b: Seq<IncomingFileView>, k: int)
    requires
        a.len() == b.len(),
        forall|i: int| 0 <= i < a.len() ==> (#[trigger] a[i]).size == (#[trigger] b[i]).size,
    ensures
        sizes_before(a, k) == sizes_before(b, k),
    decreases k,
{
    if 0 < k <= a.len() {
        lemma_sizes_equal(a, b, k - 1);
        assert(a[k - 1].size == b[k - 1].size);
    }
}

proof fn lemma_sizes_grow(files: Seq<IncomingFileView>, i: int, j: int)
    requires
        0 <= i <= j <= files.len(),
        forall|k: int| 0 <= k < files.len() ==> 0 <= (#[trigger] files[k]).size,
    ensures
        0 <= sizes_before(files, i) <= sizes_before(files, j),
    decreases j,
{
    if i < j {
        lemma_sizes_grow(files, i, j - 1);
        assert(files[j - 1].size >= 0);
    } else if j > 0 {
        lemma_sizes_grow(files, i - 1, j - 1);
        assert(files[j - 1].size >= 0);
    }
}

/// One more piece keeps the counters in step.
pub proof fn lemma_after_keeps_wf(transfer: FileTransferView, len: int)
    requires
        transfer.wf(),
        transfer.index < transfer.files.len(),
        0 < len <= transfer.files[transfer.index].size - transfer.files[transfer.index].received,
    ensures
        transfer.after(len).wf(),
        transfer.received + len <= transfer.total,
{
    let next = transfer.after(len);
    let i = transfer.index;
    let n = transfer.files.len() as int;
    assert forall|k: int| 0 <= k < n implies 0 <= (#[trigger] transfer.files[k]).size by {}
    assert forall|k: int| 0 <= k < n implies (#[trigger] next.files[k]).size == (
    #[trigger] transfer.files[k]).size by {}
    lemma_sizes_equal(next.files, transfer.files, i);
    lemma_sizes_equal(next.files, transfer.files, i + 1);
    lemma_sizes_equal(next.files, transfer.files, n);
    lemma_sizes_grow(transfer.files, i + 1, n);
    assert(sizes_before(transfer.files, i + 1) == sizes_before(transfer.files, i)
        + transfer.files[i].size);
    assert forall|k: int| 0 <= k < n implies 0 <= (#[trigger] next.files[k]).received
        <= next.files[k].size by {
        assert(0 <= transfer.files[k].received <= transfer.files[k].size);
    }
    assert forall|k: int| 0 <= k < next.index implies (#[trigger] next.files[k]).received
        == next.files[k].size by {
        if k < i {
            assert(transfer.files[k].received == transfer.files[k].size);
        }
    }
    assert forall|k: int| next.index < k < n implies (#[trigger] next.files[k]).received == 0 by {
        assert(transfer.files[k].received == 0);
    }
    if next.index < n && next.index == i + 1 {
        assert(transfer.files[i + 1].received == 0);
    }
}

/// Takes one file record. Nothing is asked, written or published but what the
/// record and the transfer in progress call for.
#[verifier::rlimit(40)]
pub fn receive_file_record(
    record: &[u8],
    incoming: &mut Option<IncomingFileTransfer>,
) -> (result: Result<FileAction, ClipboardError>)
    requires
        session_view(*old(incoming)) matches Some(transfer) ==> transfer.wf(),
    ensures
        session_view(*final(incoming)) matches Some(transfer) ==> transfer.wf(),
        result matches Ok(FileAction::Ask(offer)) ==> is_offer(offer@),
        match result {
            Ok(action) => file_step(session_view(*old(incoming)), record@) == Ok::<
                (Option<FileTransferView>, FileActionView),
                ClipboardFault,
            >((session_view(*final(incoming)), action@)),
            Err(error) => file_step(session_view(*old(incoming)), record@) == Err::<
                (Option<FileTransferView>, FileActionView),
                ClipboardFault,
            >(error@) && session_view(*final(incoming)) == after_refusal(
                session_view(*old(incoming)),
                record@,
            ),
        },
{
    let kind: u8 = match record_kind(record) {
        Some(kind) => kind,
        None => {
            return Err(ClipboardError::InvalidRecord);
        },
    };
    let body = record_body(record);
    if kind == FILE_START_KIND || kind == DIRECT_FILE_START_KIND {
        if incoming.is_some() {
            return Err(ClipboardError::InvalidRecord);
        }
        match decode_file_start(body) {
            Ok((id, files, total_bytes)) => {
                proof {
                    lemma_denoted_is_offer(body@);
                }
                Ok(FileAction::Ask(FileOffer { id, files, total_bytes }))
            },
            Err(error) => Err(error),
        }
    } else if kind == FILE_CHUNK_KIND {
        let (id, index, offset, bytes) = match decode_file_chunk(body) {
            Ok(found) => found,
            Err(error) => {
                return Err(error);
            },
        };
        match incoming.take() {
            None => Err(ClipboardError::InvalidRecord),
            Some(mut transfer) => {
                let ghost before = transfer@;
                if id != transfer.id || index != transfer.file_index || index
                    >= transfer.files.len() {
                    *incoming = Some(transfer);
                    return Err(ClipboardError::InvalidRecord);
                }
                assert(before.files[index as int] == transfer.files@[index as int]@);
                let size: u64 = transfer.files[index].size;
                let received: u64 = transfer.files[index].received;
                let len: u64 = bytes.len() as u64;
                if offset != received || len > size - received {
                    *incoming = Some(transfer);
                    return Err(ClipboardError::InvalidRecord);
                }
                proof {
                    lemma_after_keeps_wf(before, len as int);
                }
                transfer.files[index].received = received + len;
                transfer.received_bytes = transfer.received_bytes + len;
                let completes: bool = received + len == size;
                if completes {
                    transfer.file_index = transfer.file_index + 1;
                }
                assert(transfer@.files =~= before.after(len as int).files);
                assert(transfer@ =~= before.after(len as int));
                *incoming = Some(transfer);
                assert(bytes@.subrange(0, bytes@.len() as int) =~= bytes@);
                Ok(
                    FileAction::Write {
                        index,
                        bytes: copy_range(bytes, 0, bytes.len()),
                        completes,
                    },
                )
            },
        }
    } else if kind == FILE_FINISH_KIND {
        if body.len() != 8 {
            return Err(ClipboardError::InvalidRecord);
        }
        let id: u64 = get_u64(body, 0);
        match incoming.take() {
            None => Err(ClipboardError::InvalidRecord),
            Some(transfer) => {
                assert(transfer@.files.len() == transfer.files@.len());
                if id != transfer.id || transfer.file_index != transfer.files.len()
                    || transfer.received_bytes != transfer.total_bytes {
                    Err(ClipboardError::InvalidRecord)
                } else {
                    Ok(FileAction::Publish(transfer))
                }
            },
        }
    } else {
        Err(ClipboardError::InvalidRecord)
    }
}

/// The transfer that begins when an offer is accepted.
pub open spec fn accepted(offer: OfferView) -> FileTransferView {
    FileTransferView {
        id: offer.id,
        files: offer.files.map_values(
            |file: (Seq<char>, u64)|
                IncomingFileView { name: file.0, size: file.1 as int, received: 0 },
        ),
        index: 0,
        total: offer.total_bytes as int,
        received: 0,
    }
}

/// An offer with files whose sizes add up to the announced total.
pub open spec fn is_offer(offer: OfferView) -> bool {
    &&& 0 < offer.files.len() <= MAX_FILE_COUNT
    &&& crate::file_transfer::size_sum(offer.files) == offer.total_bytes
    &&& offer.total_bytes <= MAX_FILE_TRANSFER_BYTES
}

proof fn lemma_sizes_of_offer(offer: OfferView, k: int)
    requires
        0 <= k <= offer.files.len(),
    ensures
        sizes_before(accepted(offer).files, k) == crate::file_transfer::size_sum(
            offer.files.take(k),
        ),
    decreases k,
{
    if k > 0 {
        lemma_sizes_of_offer(offer, k - 1);
        assert(offer.files.take(k).drop_last() =~= offer.files.take(k - 1));
    }
}

/// Accepting an offer begins a transfer with nothing received.
pub proof fn lemma_accepted_is_wf(offer: OfferView)
    requires
        is_offer(offer),
    ensures
        accepted(offer).wf(),
{
    let n = offer.files.len() as int;
    lemma_sizes_of_offer(offer, n);
    assert(offer.files.take(n) =~= offer.files);
}

proof fn lemma_manifest_count(
    rest: Seq<u8>,
    count: int,
    files: Seq<(Seq<char>, u64)>,
)
    requires
        0 <= count,
        crate::file_transfer::manifest_read(rest, count, files) is Ok,
    ensures
        crate::file_transfer::manifest_read(rest, count, files)->Ok_0.0.len() == files.len()
            + count,
    decreases count,
{
    if count > 0 {
        let len = crate::wire::u16_at(rest, 0) as int;
        let size = crate::wire::u64_at(rest, 2);
        let name = vstd::utf8::decode_utf8(rest.subrange(10, 10 + len));
        lemma_manifest_count(rest.skip(10 + len), count - 1, files.push((name, size)));
    }
}

/// What was read as an offer is one.
pub proof fn lemma_denoted_is_offer(body: Seq<u8>)
    requires
        crate::file_transfer::offer_denoted(body) is Ok,
    ensures
        is_offer(crate::file_transfer::offer_denoted(body)->Ok_0),
{
    let count = crate::wire::u16_at(body, 8) as int;
    lemma_manifest_count(body.skip(18), count, Seq::empty());
}

/// Agrees to an offer: the answer to send, and the transfer that begins.
pub fn accept_offer(offer: FileOffer) -> (result: (Vec<u8>, IncomingFileTransfer))
    requires
        is_offer(offer@),
    ensures
        result.0@ == crate::file_transfer::decision_record(offer@.id, true),
        result.1@ == accepted(offer@),
        result.1@.wf(),
{
    let ghost all = offer@;
    let mut files: Vec<IncomingFile> = Vec::new();
    let mut i: usize = 0;
    while i < offer.files.len()
        invariant
            i <= offer.files.len(),
            all == offer@,
            incoming_files(files@) == accepted(all).files.take(i as int),
        decreases offer.files.len() - i,
    {
        let ghost before = incoming_files(files@);
        let file = IncomingFile {
            name: offer.files[i].0.clone(),
            size: offer.files[i].1,
            received: 0,
        };
        let ghost added = file@;
        assert(all.files[i as int] == (offer.files@[i as int].0@, offer.files@[i as int].1));
        files.push(file);
        assert(incoming_files(files@) =~= before.push(added));
        i = i + 1;
        assert(before.push(added) =~= accepted(all).files.take(i as int));
    }
    proof {
        lemma_accepted_is_wf(all);
        assert(accepted(all).files.take(i as int) =~= accepted(all).files);
    }
    let transfer = IncomingFileTransfer {
        id: offer.id,
        files,
        file_index: 0,
        total_bytes: offer.total_bytes,
        received_bytes: 0,
    };
    (encode_file_decision(offer.id, true), transfer)
}

/// Declines an offer: the answer to send.
pub fn decline_offer(offer: &FileOffer) -> (record: Vec<u8>)
    ensures
        record@ == crate::file_transfer::decision_record(offer@.id, false),
{
    encode_file_decision(offer.id, false)
}

/// Nothing is lost and nothing is added: a write advances the count by exactly
/// its bytes and stays within the announced size, and only a transfer in which
/// every file is complete is published.
pub proof fn law_transfers_are_conserved(incoming: Option<FileTransferView>, record: Seq<u8>)
    requires
        incoming matches Some(transfer) ==> transfer.wf(),
        file_step(incoming, record) is Ok,
    ensures
        ({
            let (next, action) = file_step(incoming, record)->Ok_0;
            &&& next matches Some(transfer) ==> transfer.wf()
            &&& match action {
                FileActionView::Ask(offer) => incoming is None && next is None && is_offer(offer),
                FileActionView::Write { index, bytes, .. } => incoming is Some && next is Some
                    && next->0.received == incoming->0.received + bytes.len()
                    && next->0.received <= next->0.total && next->0.total == incoming->0.total
                    && index == incoming->0.index && bytes.len() > 0,
                FileActionView::Publish(transfer) => next is None && incoming == Some(transfer)
                    && transfer.received == transfer.total && forall|i: int|
                    0 <= i < transfer.files.len() ==> (#[trigger] transfer.files[i]).received
                        == transfer.files[i].size,
            }
        }),
{
    let body = record.skip(6);
    match file_step(incoming, record)->Ok_0.1 {
        FileActionView::Ask(_) => {
            lemma_denoted_is_offer(body);
        },
        FileActionView::Write { bytes, .. } => {
            lemma_after_keeps_wf(incoming->0, bytes.len() as int);
        },
        FileActionView::Publish(_) => {},
    }
}

// Sending.

/// The sending side of a transfer. It hands out bytes only after the peer has
/// agreed.
#[derive(Debug, PartialEq, Eq)]
pub struct FileSender {
    id: u64,
    files: Vec<(String, u64)>,
    approved: bool,
    ended: bool,
    index: usize,
    offset: u64,
    transferred: u64,
}

#[verifier::ext_equal]
pub struct SenderView {
    pub id: u64,
    pub files: Seq<(Seq<char>, u64)>,
    pub approved: bool,
    /// Whether the offer is over without an approval.
    pub ended: bool,
    pub index: int,
    pub offset: int,
    pub transferred: int,
}

impl SenderView {
    pub open spec fn wf(self) -> bool {
        &&& 0 <= self.index <= self.files.len() <= MAX_FILE_COUNT
        &&& self.ended ==> !self.approved
        &&& !self.approved ==> self.index == 0 && self.offset == 0 && self.transferred == 0
    }
}

impl View for FileSender {
    type V = SenderView;

    closed spec fn view(&self) -> SenderView {
        SenderView {
            id: self.id,
            files: crate::file_transfer::manifest_view(self.files@),
            approved: self.approved,
            ended: self.ended,
            index: self.index as int,
            offset: self.offset as int,
            transferred: self.transferred as int,
        }
    }
}

/// Why a selection is not even offered.
pub open spec fn selection_fault(selection: SelectionView) -> Option<ClipboardFault> {
    if selection.files.len() == 0 || selection.files.len() > MAX_FILE_COUNT
        || selection.total_bytes > MAX_FILE_TRANSFER_BYTES {
        Some(ClipboardFault::TooLarge)
    } else {
        None
    }
}

/// What follows the end of a file.
#[derive(Debug, PartialEq, Eq)]
pub enum SenderStep {
    /// Open and read the file with this index.
    Open(usize),
    /// Send this record; the transfer is over.
    Finish(Vec<u8>),
}

impl FileSender {
    /// Begins a transfer: the record that offers the files, and the sender that
    /// waits for the answer.
    pub fn begin(selection: &FileSelection, id: u64, start_kind: u8) -> (result: Result<
        (FileSender, Vec<u8>),
        ClipboardError,
    >)
        ensures
            match result {
                Ok((sender, record)) => {
                    &&& selection_fault(selection@) is None
                    &&& crate::file_transfer::encoded_offer(id, selection@, start_kind) == Ok::<
                        Seq<u8>,
                        ClipboardFault,
                    >(record@)
                    &&& sender@ == (SenderView {
                        id,
                        files: crate::file_transfer::manifest(selection@.files),
                        approved: false,
                        ended: false,
                        index: 0,
                        offset: 0,
                        transferred: 0,
                    })
                    &&& sender@.wf()
                },
                Err(error) => if selection_fault(selection@) is Some {
                    selection_fault(selection@) == Some(error@)
                } else {
                    crate::file_transfer::encoded_offer(id, selection@, start_kind) == Err::<
                        Seq<u8>,
                        ClipboardFault,
                    >(error@)
                },
            },
    {
        if selection.files.len() == 0 || selection.files.len() > MAX_FILE_COUNT
            || selection.total_bytes > MAX_FILE_TRANSFER_BYTES {
            return Err(ClipboardError::TooLarge);
        }
        let record = match encode_file_start_with_kind(id, selection, start_kind) {
            Ok(record) => record,
            Err(error) => {
                return Err(error);
            },
        };
        let ghost all = crate::file_transfer::manifest(selection@.files);
        let mut files: Vec<(String, u64)> = Vec::new();
        let mut i: usize = 0;
        while i < selection.files.len()
            invariant
                i <= selection.files.len(),
                all == crate::file_transfer::manifest(selection@.files),
                crate::file_transfer::manifest_view(files@) == all.take(i as int),
            decreases selection.files.len() - i,
        {
            let ghost before = crate::file_transfer::manifest_view(files@);
            assert(selection@.files[i as int] == selection.files@[i as int]@);
            let name = selection.files[i].name.clone();
            let ghost added = (name@, selection.files@[i as int].size);
            files.push((name, selection.files[i].size));
            assert(crate::file_transfer::manifest_view(files@) =~= before.push(added));
            i = i + 1;
            assert(before.push(added) =~= all.take(i as int));
        }
        assert(all.take(i as int) =~= all);
        Ok(
            (
                FileSender {
                    id,
                    files,
                    approved: false,
                    ended: false,
                    index: 0,
                    offset: 0,
                    transferred: 0,
                },
                record,
            ),
        )
    }

    /// Takes in what came from the peer, or that nothing did, while the offer
    /// is open. An answer that declines and an error end it for good.
    pub fn answered(&mut self, record: Option<&[u8]>, elapsed_ms: u64) -> (result: Result<
        ApprovalStep,
        ClipboardError,
    >)
        requires
            old(self)@.wf(),
            !old(self)@.approved,
            !old(self)@.ended,
        ensures
            final(self)@.wf(),
            ({
                let expected = approval(old(self)@.id, record_view(record), elapsed_ms);
                &&& match result {
                    Ok(step) => expected == Ok::<ApprovalStep, ClipboardFault>(step),
                    Err(error) => expected == Err::<ApprovalStep, ClipboardFault>(error@),
                }
                &&& final(self)@ == (SenderView {
                    approved: expected == Ok::<ApprovalStep, ClipboardFault>(
                        ApprovalStep::Approved,
                    ),
                    ended: expected is Err || expected == Ok::<ApprovalStep, ClipboardFault>(
                        ApprovalStep::Declined,
                    ),
                    ..old(self)@
                })
            }),
    {
        let result = wait_for_file_approval(self.id, record, elapsed_ms);
        match result {
            Ok(ApprovalStep::Approved) => {
                self.approved = true;
            },
            Ok(ApprovalStep::Declined) | Err(_) => {
                self.ended = true;
            },
            _ => {},
        }
        result
    }

    /// Bytes sent so far, over all files.
    pub fn transferred(&self) -> (bytes: u64)
        ensures
            bytes == self@.transferred,
    {
        self.transferred
    }

    /// The record for bytes that were read from the current file.
    pub fn chunk(&mut self, bytes: &[u8]) -> (result: Result<Vec<u8>, ClipboardError>)
        requires
            old(self)@.wf(),
            old(self)@.approved,
            old(self)@.index < old(self)@.files.len(),
            old(self)@.offset + bytes@.len() <= u64::MAX,
            old(self)@.transferred + bytes@.len() <= u64::MAX,
        ensures
            final(self)@.wf(),
            crate::clipboard::gives(
                result,
                crate::file_transfer::encoded_file_chunk(
                    old(self)@.id,
                    old(self)@.index,
                    old(self)@.offset as u64,
                    bytes@,
                ),
            ),
            final(self)@ == if result is Ok {
                SenderView {
                    offset: old(self)@.offset + bytes@.len(),
                    transferred: old(self)@.transferred + bytes@.len(),
                    ..old(self)@
                }
            } else {
                old(self)@
            },
    {
        let result = encode_file_chunk(self.id, self.index, self.offset, bytes);
        if result.is_ok() {
            self.offset = self.offset + bytes.len() as u64;
            self.transferred = self.transferred + bytes.len() as u64;
        }
        result
    }

    /// The current file has been read to its end. A file whose length is not
    /// the announced one has changed, which ends the transfer.
    pub fn end_of_file(&mut self) -> (result: Result<SenderStep, ClipboardError>)
        requires
            old(self)@.wf(),
            old(self)@.approved,
            old(self)@.index < old(self)@.files.len(),
        ensures
            final(self)@.wf(),
            ({
                let before = old(self)@;
                let (name, size) = before.files[before.index];
                match result {
                    Ok(step) => {
                        &&& before.offset == size
                        &&& final(self)@ == (SenderView {
                            index: before.index + 1,
                            offset: 0,
                            ..before
                        })
                        &&& match step {
                            SenderStep::Open(index) => index == before.index + 1 && index
                                < before.files.len(),
                            SenderStep::Finish(record) => before.index + 1 == before.files.len()
                                && record@ == crate::clipboard::record_of(
                                FILE_FINISH_KIND,
                                crate::wire::be64(before.id),
                            ),
                        }
                    },
                    Err(error) => before.offset != size && final(self)@ == before && error@
                        == ClipboardFault::Command(
                        name + " changed while it was being transferred"@,
                    ),
                }
            }),
    {
        assert(self@.files[self.index as int] == (
            self.files@[self.index as int].0@,
            self.files@[self.index as int].1,
        ));
        if self.offset != self.files[self.index].1 {
            let mut text = self.files[self.index].0.clone();
            text.push_str(" changed while it was being transferred");
            return Err(ClipboardError::Command(text));
        }
        self.index = self.index + 1;
        self.offset = 0;
        if self.index < self.files.len() {
            Ok(SenderStep::Open(self.index))
        } else {
            Ok(SenderStep::Finish(encode_file_finish(self.id)))
        }
    }
}

/// What a waiting sender does next.
#[derive(Debug, PartialEq, Eq)]
pub enum ApprovalStep {
    Approved,
    Declined,
    /// The record is not an answer: handle it like any other, and go on waiting.
    Process,
    Wait,
}

pub const FILE_APPROVAL_TIMEOUT_MS: u64 = 120_000;

pub open spec fn record_view(record: Option<&[u8]>) -> Option<Seq<u8>> {
    match record {
        Some(bytes) => Some(bytes@),
        None => None,
    }
}

/// Decides what a sender does with what came while it waits for an answer.
pub open spec fn approval(
    id: u64,
    record: Option<Seq<u8>>,
    elapsed_ms: u64,
) -> Result<ApprovalStep, ClipboardFault> {
    match record {
        Some(bytes) => match crate::file_transfer::decision_denoted(bytes, id) {
            Err(fault) => Err(fault),
            Ok(Some(true)) => Ok(ApprovalStep::Approved),
            Ok(Some(false)) => Ok(ApprovalStep::Declined),
            Ok(None) => Ok(ApprovalStep::Process),
        },
        None => if elapsed_ms >= FILE_APPROVAL_TIMEOUT_MS {
            Err(
                ClipboardFault::Command(
                    "the receiving iMac did not respond to the file-transfer offer"@,
                ),
            )
        } else {
            Ok(ApprovalStep::Wait)
        },
    }
}

pub fn wait_for_file_approval(
    id: u64,
    record: Option<&[u8]>,
    elapsed_ms: u64,
) -> (result: Result<ApprovalStep, ClipboardError>)
    ensures
        ({
            let expected = approval(id, record_view(record), elapsed_ms);
            match result {
                Ok(step) => expected == Ok::<ApprovalStep, ClipboardFault>(step),
                Err(error) => expected == Err::<ApprovalStep, ClipboardFault>(error@),
            }
        }),
{
    match record {
        Some(bytes) => match decode_file_decision(bytes, id) {
            Err(error) => Err(error),
            Ok(Some(true)) => Ok(ApprovalStep::Approved),
            Ok(Some(false)) => Ok(ApprovalStep::Declined),
            Ok(None) => Ok(ApprovalStep::Process),
        },
        None => {
            if elapsed_ms >= FILE_APPROVAL_TIMEOUT_MS {
                Err(
                    ClipboardError::Command(
                        "the receiving iMac did not respond to the file-transfer offer".to_owned(),
                    ),
                )
            } else {
                Ok(ApprovalStep::Wait)
            }
        },
    }
}

// Files arrive whole.

/// The record for a piece of a file.
pub open spec fn piece_record(id: u64, index: int, offset: int, piece: Seq<u8>) -> Seq<u8> {
    crate::clipboard::record_of(
        FILE_CHUNK_KIND,
        crate::file_transfer::file_chunk_body(id, index as u16, offset as u64, piece),
    )
}

/// Pieces put together.
pub open spec fn whole(pieces: Seq<Seq<u8>>) -> Seq<u8>
    decreases pieces.len(),
{
    if pieces.len() == 0 {
        Seq::empty()
    } else {
        pieces[0] + whole(pieces.skip(1))
    }
}

/// The records for the pieces of one file from an offset on.
pub open spec fn file_records(id: u64, index: int, offset: int, pieces: Seq<Seq<u8>>) -> Seq<
    Seq<u8>,
>
    decreases pieces.len(),
{
    if pieces.len() == 0 {
        Seq::empty()
    } else {
        seq![piece_record(id, index, offset, pieces[0])] + file_records(
            id,
            index,
            offset + pieces[0].len(),
            pieces.skip(1),
        )
    }
}

/// The records for the pieces of the first `k` files.
pub open spec fn all_records(id: u64, files: Seq<Seq<Seq<u8>>>, k: int) -> Seq<Seq<u8>>
    decreases k,
{
    if k <= 0 || k > files.len() {
        Seq::empty()
    } else {
        all_records(id, files, k - 1) + file_records(id, k - 1, 0, files[k - 1])
    }
}

/// What a run of records leads to: the transfer left over and the writes, in order.
pub open spec fn writes(incoming: Option<FileTransferView>, records: Seq<Seq<u8>>) -> Result<
    (Option<FileTransferView>, Seq<(int, Seq<u8>)>),
    ClipboardFault,
>
    decreases records.len(),
{
    if records.len() == 0 {
        Ok((incoming, Seq::empty()))
    } else {
        match file_step(incoming, records[0]) {
            Err(fault) => Err(fault),
            Ok((next, action)) => match writes(next, records.skip(1)) {
                Err(fault) => Err(fault),
                Ok((last, more)) => Ok(
                    (
                        last,
                        match action {
                            FileActionView::Write { index, bytes, .. } => seq![(index, bytes)]
                                + more,
                            _ => more,
                        },
                    ),
                ),
            },
        }
    }
}

/// What the writes put into one file.
pub open spec fn written(all: Seq<(int, Seq<u8>)>, index: int) -> Seq<u8>
    decreases all.len(),
{
    if all.len() == 0 {
        Seq::empty()
    } else if all[0].0 == index {
        all[0].1 + written(all.skip(1), index)
    } else {
        written(all.skip(1), index)
    }
}

proof fn lemma_written_concat(a: Seq<(int, Seq<u8>)>, b: Seq<(int, Seq<u8>)>, index: int)
    ensures
        written(a + b, index) == written(a, index) + written(b, index),
    decreases a.len(),
{
    if a.len() == 0 {
        assert(a + b =~= b);
        assert(written(a, index) + written(b, index) =~= written(b, index));
    } else {
        assert((a + b).skip(1) =~= a.skip(1) + b);
        assert((a + b)[0] == a[0]);
        lemma_written_concat(a.skip(1), b, index);
        assert(written(a + b, index) =~= written(a, index) + written(b, index));
    }
}

proof fn lemma_writes_concat(
    incoming: Option<FileTransferView>,
    a: Seq<Seq<u8>>,
    b: Seq<Seq<u8>>,
)
    requires
        writes(incoming, a) is Ok,
        writes(writes(incoming, a)->Ok_0.0, b) is Ok,
    ensures
        writes(incoming, a + b) == Ok::<
            (Option<FileTransferView>, Seq<(int, Seq<u8>)>),
            ClipboardFault,
        >(
            (
                writes(writes(incoming, a)->Ok_0.0, b)->Ok_0.0,
                writes(incoming, a)->Ok_0.1 + writes(writes(incoming, a)->Ok_0.0, b)->Ok_0.1,
            ),
        ),
    decreases a.len(),
{
    if a.len() == 0 {
        assert(a + b =~= b);
        let more = writes(incoming, b)->Ok_0.1;
        assert(Seq::<(int, Seq<u8>)>::empty() + more =~= more);
    } else {
        assert((a + b).skip(1) =~= a.skip(1) + b);
        assert((a + b)[0] == a[0]);
        let (next, action) = file_step(incoming, a[0])->Ok_0;
        lemma_writes_concat(next, a.skip(1), b);
        let first = writes(next, a.skip(1))->Ok_0.1;
        let more = writes(writes(incoming, a)->Ok_0.0, b)->Ok_0.1;
        if let FileActionView::Write { index, bytes, .. } = action {
            assert(seq![(index, bytes)] + (first + more) =~= (seq![(index, bytes)] + first) + more);
        }
    }
}

proof fn lemma_piece_record(id: u64, index: int, offset: int, piece: Seq<u8>)
    requires
        0 <= index <= 65535,
        0 <= offset <= u64::MAX,
    ensures
        ({
            let record = piece_record(id, index, offset, piece);
            let body = record.skip(6);
            &&& crate::clipboard::kind_of_record(record) == Some(FILE_CHUNK_KIND)
            &&& body.len() == 18 + piece.len()
            &&& crate::wire::u64_at(body, 0) == id
            &&& crate::wire::u16_at(body, 8) == index
            &&& crate::wire::u64_at(body, 10) == offset
            &&& body.skip(18) == piece
        }),
{
    let body = crate::file_transfer::file_chunk_body(id, index as u16, offset as u64, piece);
    crate::clipboard::lemma_record_of(FILE_CHUNK_KIND, body);
    assert(body.subrange(0, 8) =~= crate::wire::be64(id));
    crate::wire::lemma_u64_at(body, 0, id);
    assert(body.subrange(8, 10) =~= crate::wire::be16(index as u16));
    crate::wire::lemma_u16_at(body, 8, index as u16);
    assert(body.subrange(10, 18) =~= crate::wire::be64(offset as u64));
    crate::wire::lemma_u64_at(body, 10, offset as u64);
    assert(body.skip(18) =~= piece);
}

/// Pieces that can be sent.
pub open spec fn are_pieces(pieces: Seq<Seq<u8>>) -> bool {
    forall|j: int| 0 <= j < pieces.len() ==> 0 < (#[trigger] pieces[j]).len() <= MAX_CHUNK_BYTES
}

proof fn lemma_one_file(transfer: FileTransferView, pieces: Seq<Seq<u8>>)
    requires
        transfer.wf(),
        transfer.files.len() <= MAX_FILE_COUNT,
        transfer.index < transfer.files.len(),
        are_pieces(pieces),
        pieces.len() > 0,
        whole(pieces).len() == transfer.files[transfer.index].size
            - transfer.files[transfer.index].received,
    ensures
        ({
            let offset = transfer.files[transfer.index].received;
            let run = writes(
                Some(transfer),
                file_records(transfer.id, transfer.index, offset, pieces),
            );
            &&& run is Ok
            &&& run->Ok_0.0 == Some(transfer.after(whole(pieces).len() as int))
            &&& forall|k: int|
                #![trigger written(run->Ok_0.1, k)]
                written(run->Ok_0.1, k) == if k == transfer.index {
                    whole(pieces)
                } else {
                    Seq::empty()
                }
        }),
    decreases pieces.len(),
{
    let i = transfer.index;
    let offset = transfer.files[i].received;
    let piece = pieces[0];
    let rest = pieces.skip(1);
    let records = file_records(transfer.id, i, offset, pieces);
    let next = transfer.after(piece.len() as int);
    lemma_sizes_bound(transfer);
    lemma_piece_record(transfer.id, i, offset, piece);
    assert(records[0] == piece_record(transfer.id, i, offset, piece));
    assert(records.skip(1) =~= file_records(transfer.id, i, offset + piece.len(), rest));
    assert(whole(pieces).len() == piece.len() + whole(rest).len());
    lemma_after_keeps_wf(transfer, piece.len() as int);
    let step = file_step(Some(transfer), records[0]);
    assert(step is Ok && step->Ok_0.0 == Some(next));
    assert(step->Ok_0.1 == FileActionView::Write {
        index: i,
        bytes: piece,
        completes: transfer.completes(piece.len() as int),
    });
    if rest.len() == 0 {
        assert(whole(rest) =~= Seq::<u8>::empty());
        assert(whole(pieces) =~= piece);
        assert(file_records(transfer.id, i, offset + piece.len(), rest) =~= Seq::<
            Seq<u8>,
        >::empty());
        assert(writes(Some(next), records.skip(1)) == Ok::<
            (Option<FileTransferView>, Seq<(int, Seq<u8>)>),
            ClipboardFault,
        >((Some(next), Seq::empty())));
        let run = writes(Some(transfer), records);
        assert(run->Ok_0.1 =~= seq![(i, piece)]);
        assert forall|k: int| #![trigger written(run->Ok_0.1, k)] written(run->Ok_0.1, k)
            == if k == i {
            whole(pieces)
        } else {
            Seq::empty()
        } by {
            assert(run->Ok_0.1.skip(1) =~= Seq::<(int, Seq<u8>)>::empty());
            assert(written(run->Ok_0.1.skip(1), k) =~= Seq::<u8>::empty());
            assert(piece + Seq::<u8>::empty() =~= piece);
        }
    } else {
        assert(0 < rest[0].len()) by {
            assert(rest[0] == pieces[1]);
        }
        assert(whole(rest).len() > 0);
        assert(!transfer.completes(piece.len() as int));
        assert forall|j: int| 0 <= j < rest.len() implies 0 < (#[trigger] rest[j]).len()
            <= MAX_CHUNK_BYTES by {
            assert(rest[j] == pieces[j + 1]);
        }
        lemma_one_file(next, rest);
        assert(next.after(whole(rest).len() as int) =~= transfer.after(
            whole(pieces).len() as int,
        ));
        let run = writes(Some(transfer), records);
        let later = writes(Some(next), records.skip(1));
        assert(run->Ok_0.1 == seq![(i, piece)] + later->Ok_0.1);
        assert forall|k: int| #![trigger written(run->Ok_0.1, k)] written(run->Ok_0.1, k)
            == if k == i {
            whole(pieces)
        } else {
            Seq::empty()
        } by {
            assert(run->Ok_0.1.skip(1) =~= later->Ok_0.1);
            assert(written(later->Ok_0.1, k) == if k == i {
                whole(rest)
            } else {
                Seq::empty()
            });
        }
    }
}

proof fn lemma_sizes_bound(transfer: FileTransferView)
    requires
        transfer.wf(),
        transfer.index < transfer.files.len(),
    ensures
        transfer.files[transfer.index].size <= MAX_FILE_TRANSFER_BYTES,
{
    let i = transfer.index;
    assert forall|k: int| 0 <= k < transfer.files.len() implies 0 <= (
    #[trigger] transfer.files[k]).size by {}
    lemma_sizes_grow(transfer.files, i + 1, transfer.files.len() as int);
    lemma_sizes_grow(transfer.files, 0, i);
}

/// The transfer when the first `k` files are complete.
pub open spec fn files_done(offer: OfferView, k: int) -> FileTransferView
    decreases k,
{
    if k <= 0 {
        accepted(offer)
    } else {
        files_done(offer, k - 1).after(offer.files[k - 1].1 as int)
    }
}

/// What is sent for an offer: for every file pieces that make up as many bytes
/// as were announced, at least one.
pub open spec fn fits_offer(offer: OfferView, files: Seq<Seq<Seq<u8>>>) -> bool {
    &&& files.len() == offer.files.len()
    &&& forall|i: int|
        0 <= i < files.len() ==> are_pieces(#[trigger] files[i]) && whole(files[i]).len()
            == offer.files[i].1 && whole(files[i]).len() > 0
}

proof fn lemma_files_done(offer: OfferView, files: Seq<Seq<Seq<u8>>>, k: int)
    requires
        is_offer(offer),
        fits_offer(offer, files),
        0 <= k <= files.len(),
    ensures
        ({
            let run = writes(Some(accepted(offer)), all_records(offer.id, files, k));
            let done = files_done(offer, k);
            &&& run is Ok
            &&& run->Ok_0.0 == Some(done)
            &&& done.wf()
            &&& done.index == k
            &&& done.id == offer.id
            &&& done.files.len() == offer.files.len()
            &&& forall|j: int|
                0 <= j < done.files.len() ==> (#[trigger] done.files[j]).size == offer.files[j].1
            &&& forall|j: int|
                k <= j < done.files.len() ==> (#[trigger] done.files[j]).received == 0
            &&& forall|j: int|
                #![trigger written(run->Ok_0.1, j)]
                written(run->Ok_0.1, j) == if 0 <= j < k {
                    whole(files[j])
                } else {
                    Seq::empty()
                }
        }),
    decreases k,
{
    if k == 0 {
        lemma_accepted_is_wf(offer);
        let run = writes(Some(accepted(offer)), all_records(offer.id, files, 0));
        assert forall|j: int| #![trigger written(run->Ok_0.1, j)] written(run->Ok_0.1, j)
            == Seq::<u8>::empty() by {
            assert(run->Ok_0.1 =~= Seq::<(int, Seq<u8>)>::empty());
        }
    } else {
        lemma_files_done(offer, files, k - 1);
        let before = files_done(offer, k - 1);
        let pieces = files[k - 1];
        assert(are_pieces(pieces));
        assert(before.files[k - 1].received == 0);
        assert(before.files[k - 1].size == offer.files[k - 1].1);
        assert(pieces.len() > 0) by {
            if pieces.len() == 0 {
                assert(whole(pieces).len() == 0);
            }
        }
        lemma_one_file(before, pieces);
        lemma_after_keeps_wf(before, offer.files[k - 1].1 as int);
        let a = all_records(offer.id, files, k - 1);
        let b = file_records(offer.id, k - 1, 0, pieces);
        lemma_writes_concat(Some(accepted(offer)), a, b);
        let run = writes(Some(accepted(offer)), all_records(offer.id, files, k));
        let first = writes(Some(accepted(offer)), a)->Ok_0.1;
        let more = writes(Some(before), b)->Ok_0.1;
        assert forall|j: int| #![trigger written(run->Ok_0.1, j)] written(run->Ok_0.1, j)
            == if 0 <= j < k {
            whole(files[j])
        } else {
            Seq::empty()
        } by {
            lemma_written_concat(first, more, j);
            assert(written(first, j) == if 0 <= j < k - 1 {
                whole(files[j])
            } else {
                Seq::empty()
            });
            assert(written(more, j) == if j == k - 1 {
                whole(pieces)
            } else {
                Seq::empty()
            });
            assert(written(run->Ok_0.1, j) =~= if 0 <= j < k {
                whole(files[j])
            } else {
                Seq::empty()
            });
        }
    }
}

/// Files arrive whole: after an accepted offer, the pieces of every file, sent
/// in order and cut in whatever way, are written into that file one behind the
/// other, and the end record then publishes the complete transfer. (A file
/// without any bytes has no pieces, and stops the transfer at its place.)
pub proof fn law_files_arrive_whole(offer: OfferView, files: Seq<Seq<Seq<u8>>>)
    requires
        is_offer(offer),
        fits_offer(offer, files),
    ensures
        ({
            let n = files.len() as int;
            let run = writes(Some(accepted(offer)), all_records(offer.id, files, n));
            let done = files_done(offer, n);
            &&& run is Ok
            &&& run->Ok_0.0 == Some(done)
            &&& done.is_complete()
            &&& forall|i: int|
                #![trigger written(run->Ok_0.1, i)]
                0 <= i < n ==> written(run->Ok_0.1, i) == whole(files[i])
            &&& file_step(
                Some(done),
                crate::clipboard::record_of(FILE_FINISH_KIND, crate::wire::be64(offer.id)),
            ) == Ok::<(Option<FileTransferView>, FileActionView), ClipboardFault>(
                (None, FileActionView::Publish(done)),
            )
        }),
{
    let n = files.len() as int;
    lemma_files_done(offer, files, n);
    let done = files_done(offer, n);
    let body = crate::wire::be64(offer.id);
    crate::clipboard::lemma_record_of(FILE_FINISH_KIND, body);
    assert(body.subrange(0, 8) =~= body);
    crate::wire::lemma_u64_at(body, 0, offer.id);
}

/// No byte of a file leaves before the peer has accepted, and what counts as
/// acceptance is one record: that of the very offer.
pub proof fn law_bytes_need_an_acceptance(
    sender: SenderView,
    record: Option<Seq<u8>>,
    elapsed_ms: u64,
)
    requires
        sender.wf(),
    ensures
        sender.transferred > 0 ==> sender.approved,
        sender.index > 0 ==> sender.approved,
        sender.ended ==> sender.transferred == 0 && sender.index == 0,
        approval(sender.id, record, elapsed_ms) == Ok::<ApprovalStep, ClipboardFault>(
            ApprovalStep::Approved,
        ) <==> record == Some(crate::file_transfer::decision_record(sender.id, true)),
{
    crate::file_transfer::law_decisions_are_bound_to_their_offer(sender.id, true, sender.id);
    if let Some(bytes) = record {
        if crate::file_transfer::decision_denoted(bytes, sender.id) == Ok::<
            Option<bool>,
            ClipboardFault,
        >(Some(true)) {
            let expected = crate::file_transfer::decision_record(sender.id, true);
            crate::wire::lemma_u64_at(bytes, 6, sender.id);
            crate::clipboard::lemma_record_of(
                crate::clipboard::FILE_ACCEPT_KIND,
                crate::wire::be64(sender.id),
            );
            assert(bytes =~= bytes.take(5).push(bytes[5]) + bytes.subrange(6, 14));
            assert(bytes == expected);
        }
    }
}

/// A piece is written exactly if it continues the current file of the transfer:
/// it names that transfer and that file, begins where the file ends so far, and
/// does not go beyond the file's size. It is then written as it is; a file that it
/// completes makes room for the next.
pub proof fn law_pieces_continue_their_file(
    incoming: Option<FileTransferView>,
    id: u64,
    index: u16,
    offset: u64,
    piece: Seq<u8>,
)
    requires
        1 <= piece.len() <= 16384,
    ensures
        ({
            let record = piece_record(id, index as int, offset as int, piece);
            match incoming {
                Some(transfer) if transfer.id == id && transfer.index == index && index
                    < transfer.files.len() && transfer.files[index as int].received == offset
                    && offset + piece.len() <= transfer.files[index as int].size => {
                    file_step(incoming, record) matches Ok((next, action)) && {
                        let whole = offset + piece.len() == transfer.files[index as int].size;
                        &&& action == (FileActionView::Write {
                            index: index as int,
                            bytes: piece,
                            completes: whole,
                        })
                        &&& next matches Some(after)
                        &&& after.id == id
                        &&& after.total == transfer.total
                        &&& after.received == transfer.received + piece.len()
                        &&& after.index == transfer.index + (if whole {
                            1int
                        } else {
                            0
                        })
                        &&& after.files.len() == transfer.files.len()
                        &&& after.files[index as int].received == offset + piece.len()
                        &&& after.files[index as int].size == transfer.files[index as int].size
                        &&& after.files[index as int].name == transfer.files[index as int].name
                        &&& forall|i: int|
                            0 <= i < after.files.len() && i != index ==> #[trigger] after.files[i]
                                == transfer.files[i]
                    }
                },
                _ => file_step(incoming, record) == Err::<
                    (Option<FileTransferView>, FileActionView),
                    ClipboardFault,
                >(ClipboardFault::InvalidRecord) && after_refusal(incoming, record) == incoming,
            }
        }),
{
    lemma_piece_record(id, index as int, offset as int, piece);
}

/// The end of a transfer publishes it exactly if it is that transfer's and every
/// file is there; any other end gives the transfer up.
pub proof fn law_ends_publish_or_give_up(incoming: Option<FileTransferView>, id: u64)
    ensures
        ({
            let record = crate::clipboard::record_of(5, crate::wire::be64(id));
            match incoming {
                Some(transfer) if transfer.id == id && transfer.index == transfer.files.len()
                    && transfer.received == transfer.total => file_step(incoming, record) == Ok::<
                    (Option<FileTransferView>, FileActionView),
                    ClipboardFault,
                >((None, FileActionView::Publish(transfer))),
                _ => file_step(incoming, record) == Err::<
                    (Option<FileTransferView>, FileActionView),
                    ClipboardFault,
                >(ClipboardFault::InvalidRecord) && after_refusal(incoming, record) is None,
            }
        }),
{
    let body = crate::wire::be64(id);
    crate::clipboard::lemma_record_of(5, body);
    assert(body.subrange(0, 8) =~= body);
    crate::wire::lemma_u64_at(body, 0, id);
}

/// An offer is put to the user, whichever of the two kinds it has, unless a
/// transfer is in progress, which then goes on.
pub proof fn law_offers_are_put_to_the_user(
    incoming: Option<FileTransferView>,
    id: u64,
    selection: SelectionView,
    kind: u8,
)
    requires
        kind == 3 || kind == 8,
        crate::file_transfer::encoded_offer(id, selection, kind) is Ok,
        crate::file_transfer::distinct_names(crate::file_transfer::manifest(selection.files)),
    ensures
        ({
            let record = crate::file_transfer::encoded_offer(id, selection, kind)->Ok_0;
            &&& incoming is None ==> (file_step(incoming, record) matches Ok((next, action)) && next
                is None && (action matches FileActionView::Ask(offer) && offer.id == id
                && offer.files == crate::file_transfer::manifest(selection.files)
                && offer.total_bytes == selection.total_bytes))
            &&& incoming is Some ==> file_step(incoming, record) == Err::<
                (Option<FileTransferView>, FileActionView),
                ClipboardFault,
            >(ClipboardFault::InvalidRecord) && after_refusal(incoming, record) == incoming
        }),
{
    crate::file_transfer::law_offer_round_trip(id, selection, kind);
    let files = crate::file_transfer::manifest(selection.files);
    crate::file_transfer::law_which_offers_can_be_made(id, selection);
    lemma_sum_is_not_negative(files);
}

proof fn lemma_sum_is_not_negative(files: Seq<(Seq<char>, u64)>)
    ensures
        crate::file_transfer::size_sum(files) >= 0,
    decreases files.len(),
{
    if files.len() > 0 {
        lemma_sum_is_not_negative(files.drop_last());
    }
}

/// Records of other kinds are no part of a file transfer.
pub proof fn law_other_records_are_refused(incoming: Option<FileTransferView>, record: Seq<u8>)
    requires
        crate::clipboard::kind_of_record(record) matches Some(kind) ==> kind < 3 || kind == 6
            || kind == 7 || kind > 8,
    ensures
        file_step(incoming, record) is Err,
        after_refusal(incoming, record) == incoming,
{
}

/// A transfer that begins has the files of its offer, with nothing received.
pub proof fn law_transfers_begin_with_their_offer(offer: OfferView, i: int)
    requires
        0 <= i < offer.files.len(),
    ensures
        ({
            let transfer = accepted(offer);
            &&& transfer.id == offer.id
            &&& transfer.index == 0
            &&& transfer.received == 0
            &&& transfer.total == offer.total_bytes
            &&& transfer.files.len() == offer.files.len()
            &&& transfer.files[i].name == offer.files[i].0
            &&& transfer.files[i].size == offer.files[i].1
            &&& transfer.files[i].received == 0
        }),
{
}

/// While an offer is open its own answer decides, anything else is passed on, and
/// silence counts from two minutes on.
pub proof fn law_the_answer_decides(id: u64, elapsed_ms: u64, record: Seq<u8>)
    ensures
        approval(id, Some(crate::file_transfer::decision_record(id, true)), elapsed_ms) == Ok::<
            ApprovalStep,
            ClipboardFault,
        >(ApprovalStep::Approved),
        approval(id, Some(crate::file_transfer::decision_record(id, false)), elapsed_ms) == Ok::<
            ApprovalStep,
            ClipboardFault,
        >(ApprovalStep::Declined),
        crate::clipboard::kind_of_record(record) matches Some(kind) && kind != 6 && kind != 7
            ==> approval(id, Some(record), elapsed_ms) == Ok::<ApprovalStep, ClipboardFault>(
            ApprovalStep::Process,
        ),
        elapsed_ms < 120_000 ==> approval(id, None, elapsed_ms) == Ok::<
            ApprovalStep,
            ClipboardFault,
        >(ApprovalStep::Wait),
        elapsed_ms >= 120_000 ==> approval(id, None, elapsed_ms) is Err,
{
    crate::file_transfer::law_decisions_are_bound_to_their_offer(id, true, id);
    crate::file_transfer::law_decisions_are_bound_to_their_offer(id, false, id);
    crate::file_transfer::law_decisions_on_the_wire(id, record);
}

/// A selection is offered only if it has one to 256 files of together at most 64
/// GiB.
pub proof fn law_selections_are_bounded(selection: SelectionView)
    ensures
        selection_fault(selection) is None <==> 1 <= selection.files.len() <= 256
            && selection.total_bytes <= 68_719_476_736,
        selection_fault(selection) matches Some(fault) ==> fault == ClipboardFault::TooLarge,
{
}

} // verus!
