//! Bounded transfers of regular files: offers, approvals, chunks, and the
//! bookkeeping on both sides.
//!
//! Files are streamed. The receiver publishes them only once every announced
//! byte is present, and nothing is written before its user has agreed.
use vstd::prelude::*;

use crate::clipboard::{
    new_record, record_kind, ClipboardError, ClipboardFault, DIRECT_FILE_START_KIND,
    FILE_ACCEPT_KIND, FILE_CHUNK_KIND, FILE_FINISH_KIND, FILE_REJECT_KIND, FILE_START_KIND,
    MAX_CHUNK_BYTES, MAX_FILE_COUNT, MAX_FILE_TRANSFER_BYTES, RECORD_PREFIX_LEN,
};
use crate::file_paths::{path_lies_under, safe_file_name, validate_file_name};
use crate::text::{same_text, text_from_utf8, utf8_bytes};
use crate::wire::{copy_range, get_u16, get_u64, put_bytes, put_u16, put_u64};

verus! {

/// A regular file that can be offered.
#[derive(Debug, Clone, PartialEq, Eq)]
pub struct LocalFile {
    pub name: String,
    pub path: String,
    pub size: u64,
    pub modified_nanos: u128,
}

#[derive(Debug, Clone, PartialEq, Eq)]
pub struct FileSelection {
    pub files: Vec<LocalFile>,
    pub total_bytes: u64,
}

#[verifier::ext_equal]
pub struct LocalFileView {
    pub name: Seq<char>,
    pub path: Seq<char>,
    pub size: u64,
    pub modified_nanos: u128,
}

#[verifier::ext_equal]
pub struct SelectionView {
    pub files: Seq<LocalFileView>,
    pub total_bytes: int,
}

impl View for LocalFile {
    type V = LocalFileView;

    open spec fn view(&self) -> LocalFileView {
        LocalFileView {
            name: self.name@,
            path: self.path@,
            size: self.size,
            modified_nanos: self.modified_nanos,
        }
    }
}

pub open spec fn local_files(files: Seq<LocalFile>) -> Seq<LocalFileView> {
    files.map_values(|file: LocalFile| file@)
}

impl View for FileSelection {
    type V = SelectionView;

    open spec fn view(&self) -> SelectionView {
        SelectionView { files: local_files(self.files@), total_bytes: self.total_bytes as int }
    }
}

/// Whether every file of a selection lies under the managed download folder.
/// Such a selection was received, and is not offered back.
pub open spec fn is_received(selection: SelectionView, root: Seq<char>) -> bool {
    forall|i: int|
        0 <= i < selection.files.len() ==> crate::file_paths::lies_under(
            (#[trigger] selection.files[i]).path,
            root,
        )
}

pub fn is_received_file_selection(selection: &FileSelection, root: &str) -> (received: bool)
    ensures
        received == is_received(selection@, root@),
{
    let mut i: usize = 0;
    while i < selection.files.len()
        invariant
            i <= selection.files.len(),
            forall|j: int|
                0 <= j < i ==> crate::file_paths::lies_under(
                    (#[trigger] selection@.files[j]).path,
                    root@,
                ),
        decreases selection.files.len() - i,
    {
        assert(selection@.files[i as int] == selection.files@[i as int]@);
        if !path_lies_under(selection.files[i].path.as_str(), root) {
            return false;
        }
        i = i + 1;
    }
    true
}

/// What is known of a path: size and modification time, where it is a regular file.
pub struct PathInfo {
    pub path: String,
    pub regular: Option<(u64, u128)>,
}

pub open spec fn path_infos(infos: Seq<PathInfo>) -> Seq<(Seq<char>, Option<(u64, u128)>)> {
    infos.map_values(|info: PathInfo| (info.path@, info.regular))
}

pub open spec fn name_taken(files: Seq<LocalFileView>, name: Seq<char>) -> bool {
    exists|j: int| 0 <= j < files.len() && (#[trigger] files[j]).name == name
}

/// The selection that the paths from `i` on complete. Whatever is not a
/// regular file is left out.
pub open spec fn selected(
    infos: Seq<(Seq<char>, Option<(u64, u128)>)>,
    i: int,
    files: Seq<LocalFileView>,
    total: int,
) -> Result<SelectionView, ClipboardFault>
    decreases infos.len() - i,
{
    if i < 0 || i >= infos.len() {
        if files.len() == 0 {
            Err(ClipboardFault::NoRegularFiles)
        } else {
            Ok(SelectionView { files, total_bytes: total })
        }
    } else {
        match infos[i].1 {
            None => selected(infos, i + 1, files, total),
            Some((size, modified_nanos)) => {
                let name = crate::file_paths::offered_name(infos[i].0);
                if total + size > MAX_FILE_TRANSFER_BYTES || files.len() == MAX_FILE_COUNT {
                    Err(ClipboardFault::TooLarge)
                } else if name is None || name_taken(files, name->0) {
                    Err(ClipboardFault::InvalidFileBundle)
                } else {
                    selected(
                        infos,
                        i + 1,
                        files.push(
                            LocalFileView {
                                name: name->0,
                                path: infos[i].0,
                                size,
                                modified_nanos,
                            },
                        ),
                        total + size,
                    )
                }
            },
        }
    }
}

fn has_name(files: &Vec<LocalFile>, name: &str) -> (taken: bool)
    ensures
        taken == name_taken(local_files(files@), name@),
{
    let mut i: usize = 0;
    while i < files.len()
        invariant
            i <= files.len(),
            forall|j: int| 0 <= j < i ==> (#[trigger] local_files(files@)[j]).name != name@,
        decreases files.len() - i,
    {
        assert(local_files(files@)[i as int] == files@[i as int]@);
        if same_text(files[i].name.as_str(), name) {
            assert(local_files(files@)[i as int].name == name@);
            return true;
        }
        i = i + 1;
    }
    false
}

/// Makes a selection of the regular files among paths.
pub fn file_selection_from_paths(infos: &Vec<PathInfo>) -> (result: Result<
    FileSelection,
    ClipboardError,
>)
    ensures
        match result {
            Ok(selection) => selected(path_infos(infos@), 0, Seq::empty(), 0) == Ok::<
                SelectionView,
                ClipboardFault,
            >(selection@),
            Err(error) => selected(path_infos(infos@), 0, Seq::empty(), 0) == Err::<
                SelectionView,
                ClipboardFault,
            >(error@),
        },
{
    let ghost all = path_infos(infos@);
    let mut files: Vec<LocalFile> = Vec::new();
    let mut total: u64 = 0;
    let mut i: usize = 0;
    assert(local_files(files@) =~= Seq::<LocalFileView>::empty());
    while i < infos.len()
        invariant
            i <= infos.len(),
            all == path_infos(infos@),
            total <= MAX_FILE_TRANSFER_BYTES,
            selected(all, i as int, local_files(files@), total as int) == selected(
                all,
                0,
                Seq::empty(),
                0,
            ),
        decreases infos.len() - i,
    {
        assert(all[i as int] == (infos@[i as int].path@, infos@[i as int].regular));
        if let Some((size, modified_nanos)) = infos[i].regular {
            if size > MAX_FILE_TRANSFER_BYTES - total || files.len() == MAX_FILE_COUNT {
                return Err(ClipboardError::TooLarge);
            }
            let name = match safe_file_name(infos[i].path.as_str()) {
                Ok(name) => name,
                Err(error) => {
                    return Err(error);
                },
            };
            if has_name(&files, name.as_str()) {
                return Err(ClipboardError::InvalidFileBundle);
            }
            let ghost before = local_files(files@);
            let file = LocalFile { name, path: infos[i].path.clone(), size, modified_nanos };
            let ghost added = file@;
            files.push(file);
            assert(local_files(files@) =~= before.push(added));
            total = total + size;
        }
        i = i + 1;
    }
    if files.len() == 0 {
        return Err(ClipboardError::NoRegularFiles);
    }
    Ok(FileSelection { files, total_bytes: total })
}

// Offers.

/// Names and sizes, in order.
pub open spec fn manifest(files: Seq<LocalFileView>) -> Seq<(Seq<char>, u64)> {
    files.map_values(|file: LocalFileView| (file.name, file.size))
}

/// The bytes that announce one file.
pub open spec fn entry_bytes(name: Seq<char>, size: u64) -> Seq<u8> {
    let bytes = crate::text::utf8(name);
    crate::wire::be16(bytes.len() as u16) + crate::wire::be64(size) + bytes
}

/// The bytes that announce the first files.
pub open spec fn manifest_bytes(files: Seq<(Seq<char>, u64)>) -> Seq<u8>
    decreases files.len(),
{
    if files.len() == 0 {
        Seq::empty()
    } else {
        manifest_bytes(files.drop_last()) + entry_bytes(files.last().0, files.last().1)
    }
}

/// Sum of the first sizes.
pub open spec fn size_sum(files: Seq<(Seq<char>, u64)>) -> int
    decreases files.len(),
{
    if files.len() == 0 {
        0
    } else {
        size_sum(files.drop_last()) + files.last().1
    }
}

/// The fault of the first file, from `i` on, that cannot be announced.
pub open spec fn manifest_fault(files: Seq<(Seq<char>, u64)>, i: int) -> Option<ClipboardFault>
    decreases files.len() - i,
{
    if i < 0 || i >= files.len() {
        None
    } else if !crate::file_paths::is_file_name(files[i].0) {
        Some(ClipboardFault::InvalidFileBundle)
    } else if size_sum(files.take(i + 1)) > u64::MAX {
        Some(ClipboardFault::TooLarge)
    } else if crate::text::utf8(files[i].0).len() > 65535 {
        Some(ClipboardFault::InvalidFileBundle)
    } else {
        manifest_fault(files, i + 1)
    }
}

pub open spec fn offer_body(id: u64, files: Seq<(Seq<char>, u64)>, total: u64) -> Seq<u8> {
    crate::wire::be64(id) + crate::wire::be16(files.len() as u16) + crate::wire::be64(total)
        + manifest_bytes(files)
}

/// The record that offers files, or why they cannot be offered.
pub open spec fn encoded_offer(id: u64, selection: SelectionView, kind: u8) -> Result<
    Seq<u8>,
    ClipboardFault,
> {
    let files = manifest(selection.files);
    if kind != FILE_START_KIND && kind != DIRECT_FILE_START_KIND {
        Err(ClipboardFault::InvalidRecord)
    } else if files.len() == 0 || files.len() > MAX_FILE_COUNT {
        Err(ClipboardFault::InvalidFileBundle)
    } else if manifest_fault(files, 0) is Some {
        Err(manifest_fault(files, 0)->0)
    } else if size_sum(files) != selection.total_bytes || selection.total_bytes
        > MAX_FILE_TRANSFER_BYTES {
        Err(ClipboardFault::TooLarge)
    } else {
        Ok(
            crate::clipboard::record_of(
                kind,
                offer_body(id, files, selection.total_bytes as u64),
            ),
        )
    }
}

pub fn encode_file_start(id: u64, selection: &FileSelection) -> (result: Result<
    Vec<u8>,
    ClipboardError,
>)
    ensures
        crate::clipboard::gives(result, encoded_offer(id, selection@, FILE_START_KIND)),
{
    encode_file_start_with_kind(id, selection, FILE_START_KIND)
}

pub fn encode_file_start_with_kind(id: u64, selection: &FileSelection, kind: u8) -> (result: Result<
    Vec<u8>,
    ClipboardError,
>)
    ensures
        crate::clipboard::gives(result, encoded_offer(id, selection@, kind)),
{
    if kind != FILE_START_KIND && kind != DIRECT_FILE_START_KIND {
        return Err(ClipboardError::InvalidRecord);
    }
    if selection.files.len() == 0 || selection.files.len() > MAX_FILE_COUNT {
        return Err(ClipboardError::InvalidFileBundle);
    }
    let ghost files = manifest(selection@.files);
    let mut record = new_record(kind);
    put_u64(&mut record, id);
    put_u16(&mut record, selection.files.len() as u16);
    put_u64(&mut record, selection.total_bytes);
    let ghost head = record@;
    let mut total: u64 = 0;
    let mut i: usize = 0;
    assert(files.take(0) =~= Seq::<(Seq<char>, u64)>::empty());
    assert(head + manifest_bytes(files.take(0)) =~= head);
    while i < selection.files.len()
        invariant
            i <= selection.files.len(),
            0 < selection.files.len() <= MAX_FILE_COUNT,
            kind == FILE_START_KIND || kind == DIRECT_FILE_START_KIND,
            files == manifest(selection@.files),
            total == size_sum(files.take(i as int)),
            record@ == head + manifest_bytes(files.take(i as int)),
            manifest_fault(files, 0) == manifest_fault(files, i as int),
        decreases selection.files.len() - i,
    {
        let file = &selection.files[i];
        assert(selection@.files[i as int] == selection.files@[i as int]@);
        assert(files[i as int] == (file.name@, file.size));
        assert(files.take(i + 1).drop_last() =~= files.take(i as int));
        match validate_file_name(file.name.as_str()) {
            Ok(_) => {},
            Err(error) => {
                return Err(error);
            },
        }
        if file.size > u64::MAX - total {
            return Err(ClipboardError::TooLarge);
        }
        total = total + file.size;
        let name = utf8_bytes(file.name.as_str());
        if name.len() > 65535 {
            return Err(ClipboardError::InvalidFileBundle);
        }
        let ghost before = record@;
        put_u16(&mut record, name.len() as u16);
        put_u64(&mut record, file.size);
        put_bytes(&mut record, name.as_slice());
        assert(record@ =~= before + entry_bytes(file.name@, file.size));
        i = i + 1;
        assert(record@ =~= head + manifest_bytes(files.take(i as int)));
    }
    assert(files.take(i as int) =~= files);
    if total != selection.total_bytes || total > MAX_FILE_TRANSFER_BYTES {
        return Err(ClipboardError::TooLarge);
    }
    assert(record@ =~= crate::clipboard::record_of(
        kind,
        offer_body(id, files, selection.total_bytes),
    ));
    Ok(record)
}

pub open spec fn manifest_view(files: Seq<(String, u64)>) -> Seq<(Seq<char>, u64)> {
    files.map_values(|file: (String, u64)| (file.0@, file.1))
}

pub open spec fn manifest_has(files: Seq<(Seq<char>, u64)>, name: Seq<char>) -> bool {
    exists|j: int| 0 <= j < files.len() && (#[trigger] files[j]).0 == name
}

/// The files that `count` more announcements add, and what is left behind them.
pub open spec fn manifest_read(
    rest: Seq<u8>,
    count: int,
    files: Seq<(Seq<char>, u64)>,
) -> Result<(Seq<(Seq<char>, u64)>, Seq<u8>), ClipboardFault>
    decreases count,
{
    if count <= 0 {
        Ok((files, rest))
    } else {
        let len = crate::wire::u16_at(rest, 0) as int;
        let size = crate::wire::u64_at(rest, 2);
        let bytes = rest.subrange(10, 10 + len);
        let name = vstd::utf8::decode_utf8(bytes);
        if rest.len() < 10 || len == 0 || rest.len() - 10 < len {
            Err(ClipboardFault::InvalidRecord)
        } else if !vstd::utf8::valid_utf8(bytes) || !crate::file_paths::is_file_name(name)
            || manifest_has(files, name) {
            Err(ClipboardFault::InvalidFileBundle)
        } else if size_sum(files.push((name, size))) > u64::MAX {
            Err(ClipboardFault::TooLarge)
        } else {
            manifest_read(rest.skip(10 + len), count - 1, files.push((name, size)))
        }
    }
}

/// An offer of files.
pub struct OfferView {
    pub id: u64,
    pub files: Seq<(Seq<char>, u64)>,
    pub total_bytes: u64,
}

/// The offer in the body of a start record.
pub open spec fn offer_denoted(body: Seq<u8>) -> Result<OfferView, ClipboardFault> {
    let count = crate::wire::u16_at(body, 8);
    let total = crate::wire::u64_at(body, 10);
    if body.len() < 18 {
        Err(ClipboardFault::InvalidRecord)
    } else if count == 0 || count > MAX_FILE_COUNT || total > MAX_FILE_TRANSFER_BYTES {
        Err(ClipboardFault::TooLarge)
    } else {
        match manifest_read(body.skip(18), count as int, Seq::empty()) {
            Err(fault) => Err(fault),
            Ok((files, rest)) => if rest.len() != 0 || size_sum(files) != total {
                Err(ClipboardFault::InvalidRecord)
            } else {
                Ok(OfferView { id: crate::wire::u64_at(body, 0), files, total_bytes: total })
            },
        }
    }
}

fn manifest_has_name(files: &Vec<(String, u64)>, name: &str) -> (taken: bool)
    ensures
        taken == manifest_has(manifest_view(files@), name@),
{
    let mut i: usize = 0;
    while i < files.len()
        invariant
            i <= files.len(),
            forall|j: int| 0 <= j < i ==> (#[trigger] manifest_view(files@)[j]).0 != name@,
        decreases files.len() - i,
    {
        assert(manifest_view(files@)[i as int].0 == files@[i as int].0@);
        if same_text(files[i].0.as_str(), name) {
            assert(manifest_view(files@)[i as int].0 == name@);
            return true;
        }
        i = i + 1;
    }
    false
}

pub fn decode_file_start(record: &[u8]) -> (result: Result<
    (u64, Vec<(String, u64)>, u64),
    ClipboardError,
>)
    ensures
        match result {
            Ok((id, files, total)) => offer_denoted(record@) == Ok::<OfferView, ClipboardFault>(
                OfferView { id, files: manifest_view(files@), total_bytes: total },
            ),
            Err(error) => offer_denoted(record@) == Err::<OfferView, ClipboardFault>(error@),
        },
{
    if record.len() < 18 {
        return Err(ClipboardError::InvalidRecord);
    }
    let id: u64 = get_u64(record, 0);
    let count: usize = get_u16(record, 8) as usize;
    let total_bytes: u64 = get_u64(record, 10);
    if count == 0 || count > MAX_FILE_COUNT || total_bytes > MAX_FILE_TRANSFER_BYTES {
        return Err(ClipboardError::TooLarge);
    }
    let mut at: usize = 18;
    let mut files: Vec<(String, u64)> = Vec::new();
    let mut total: u64 = 0;
    let mut done: usize = 0;
    assert(manifest_view(files@) =~= Seq::<(Seq<char>, u64)>::empty());
    while done < count
        invariant
            done <= count,
            18 <= at <= record.len(),
            total == size_sum(manifest_view(files@)),
            manifest_read(record@.skip(at as int), count - done, manifest_view(files@))
                == manifest_read(record@.skip(18), count as int, Seq::empty()),
            record.len() >= 18,
            count == crate::wire::u16_at(record@, 8),
            total_bytes == crate::wire::u64_at(record@, 10),
            0 < count <= MAX_FILE_COUNT,
            total_bytes <= MAX_FILE_TRANSFER_BYTES,
        decreases count - done,
    {
        let ghost rest = record@.skip(at as int);
        if record.len() - at < 10 {
            return Err(ClipboardError::InvalidRecord);
        }
        let name_length: usize = get_u16(record, at) as usize;
        let size: u64 = get_u64(record, at + 2);
        proof {
            assert(rest[0] == record@[at as int] && rest[1] == record@[at + 1]);
            assert(rest[2] == record@[at + 2] && rest[3] == record@[at + 3] && rest[4] == record@[
            at + 4] && rest[5] == record@[at + 5] && rest[6] == record@[at + 6] && rest[7]
                == record@[at + 7] && rest[8] == record@[at + 8] && rest[9] == record@[at + 9]);
        }
        if name_length == 0 || record.len() - at - 10 < name_length {
            return Err(ClipboardError::InvalidRecord);
        }
        assert(record@.subrange(at + 10, at + 10 + name_length) =~= rest.subrange(
            10,
            10 + name_length,
        ));
        let name = match text_from_utf8(
            copy_range(record, at + 10, at + 10 + name_length),
        ) {
            Some(name) => name,
            None => {
                return Err(ClipboardError::InvalidFileBundle);
            },
        };
        match validate_file_name(name.as_str()) {
            Ok(_) => {},
            Err(error) => {
                return Err(error);
            },
        }
        if manifest_has_name(&files, name.as_str()) {
            return Err(ClipboardError::InvalidFileBundle);
        }
        let ghost before = manifest_view(files@);
        let ghost added = (name@, size);
        assert(before.push(added).drop_last() =~= before);
        if size > u64::MAX - total {
            return Err(ClipboardError::TooLarge);
        }
        total = total + size;
        files.push((name, size));
        assert(manifest_view(files@) =~= before.push(added));
        assert(rest.skip(10 + name_length) =~= record@.skip(at + 10 + name_length));
        at = at + 10 + name_length;
        done = done + 1;
    }
    if at != record.len() || total != total_bytes {
        return Err(ClipboardError::InvalidRecord);
    }
    Ok((id, files, total_bytes))
}

// Chunks, ends and decisions.

pub open spec fn file_chunk_body(id: u64, index: u16, offset: u64, bytes: Seq<u8>) -> Seq<u8> {
    crate::wire::be64(id) + crate::wire::be16(index) + crate::wire::be64(offset) + bytes
}

pub open spec fn encoded_file_chunk(id: u64, index: int, offset: u64, bytes: Seq<u8>) -> Result<
    Seq<u8>,
    ClipboardFault,
> {
    if bytes.len() == 0 || bytes.len() > MAX_CHUNK_BYTES || index > 65535 {
        Err(ClipboardFault::InvalidRecord)
    } else {
        Ok(
            crate::clipboard::record_of(
                FILE_CHUNK_KIND,
                file_chunk_body(id, index as u16, offset, bytes),
            ),
        )
    }
}

pub fn encode_file_chunk(id: u64, index: usize, offset: u64, bytes: &[u8]) -> (result: Result<
    Vec<u8>,
    ClipboardError,
>)
    ensures
        crate::clipboard::gives(result, encoded_file_chunk(id, index as int, offset, bytes@)),
{
    if bytes.len() == 0 || bytes.len() > MAX_CHUNK_BYTES || index > 65535 {
        return Err(ClipboardError::InvalidRecord);
    }
    let mut record = new_record(FILE_CHUNK_KIND);
    put_u64(&mut record, id);
    put_u16(&mut record, index as u16);
    put_u64(&mut record, offset);
    put_bytes(&mut record, bytes);
    assert(record@ =~= crate::clipboard::record_of(
        FILE_CHUNK_KIND,
        file_chunk_body(id, index as u16, offset, bytes@),
    ));
    Ok(record)
}

pub open spec fn is_file_chunk_body(body: Seq<u8>) -> bool {
    18 < body.len() <= 18 + MAX_CHUNK_BYTES
}

pub fn decode_file_chunk(record: &[u8]) -> (result: Result<
    (u64, usize, u64, &[u8]),
    ClipboardError,
>)
    ensures
        match result {
            Ok((id, index, offset, bytes)) => is_file_chunk_body(record@) && id
                == crate::wire::u64_at(record@, 0) && index == crate::wire::u16_at(record@, 8)
                && offset == crate::wire::u64_at(record@, 10) && bytes@ == record@.skip(18),
            Err(error) => !is_file_chunk_body(record@) && error@ == ClipboardFault::InvalidRecord,
        },
{
    if record.len() <= 18 {
        return Err(ClipboardError::InvalidRecord);
    }
    if record.len() - 18 > MAX_CHUNK_BYTES {
        return Err(ClipboardError::InvalidRecord);
    }
    let id: u64 = get_u64(record, 0);
    let index: usize = get_u16(record, 8) as usize;
    let offset: u64 = get_u64(record, 10);
    assert(record@.subrange(18, record@.len() as int) =~= record@.skip(18));
    Ok((id, index, offset, vstd::slice::slice_subrange(record, 18, record.len())))
}

pub fn encode_file_finish(id: u64) -> (record: Vec<u8>)
    ensures
        record@ == crate::clipboard::record_of(FILE_FINISH_KIND, crate::wire::be64(id)),
{
    let mut record = new_record(FILE_FINISH_KIND);
    put_u64(&mut record, id);
    assert(record@ =~= crate::clipboard::record_of(FILE_FINISH_KIND, crate::wire::be64(id)));
    record
}

pub open spec fn decision_kind(approved: bool) -> u8 {
    if approved {
        FILE_ACCEPT_KIND
    } else {
        FILE_REJECT_KIND
    }
}

pub open spec fn decision_record(id: u64, approved: bool) -> Seq<u8> {
    crate::clipboard::record_of(decision_kind(approved), crate::wire::be64(id))
}

pub fn encode_file_decision(id: u64, approved: bool) -> (record: Vec<u8>)
    ensures
        record@ == decision_record(id, approved),
{
    let mut record = new_record(
        if approved {
            FILE_ACCEPT_KIND
        } else {
            FILE_REJECT_KIND
        },
    );
    put_u64(&mut record, id);
    assert(record@ =~= decision_record(id, approved));
    record
}

/// The decision on an offer that a record holds; `None` where the record is of
/// another kind.
pub open spec fn decision_denoted(record: Seq<u8>, expected: u64) -> Result<
    Option<bool>,
    ClipboardFault,
> {
    if !crate::clipboard::has_prefix(record) {
        Ok(None)
    } else if record.len() == RECORD_PREFIX_LEN {
        Err(ClipboardFault::InvalidRecord)
    } else if record[5] != FILE_ACCEPT_KIND && record[5] != FILE_REJECT_KIND {
        Ok(None)
    } else if record.len() != 14 || crate::wire::u64_at(record, 6) != expected {
        Err(ClipboardFault::InvalidRecord)
    } else {
        Ok(Some(record[5] == FILE_ACCEPT_KIND))
    }
}

pub fn decode_file_decision(record: &[u8], expected_id: u64) -> (result: Result<
    Option<bool>,
    ClipboardError,
>)
    ensures
        match result {
            Ok(decision) => decision_denoted(record@, expected_id) == Ok::<
                Option<bool>,
                ClipboardFault,
            >(decision),
            Err(error) => decision_denoted(record@, expected_id) == Err::<
                Option<bool>,
                ClipboardFault,
            >(error@),
        },
{
    let kind: u8 = match record_kind(record) {
        Some(kind) => kind,
        None => {
            if record.len() == RECORD_PREFIX_LEN && record[0] == 67 && record[1] == 66 && record[2]
                == 67 && record[3] == 76 && record[4] == 50 {
                assert(record@.take(5) =~= crate::clipboard::record_prefix());
                return Err(ClipboardError::InvalidRecord);
            }
            proof {
                if crate::clipboard::has_prefix(record@) {
                    let t = record@.take(5);
                    let p = crate::clipboard::record_prefix();
                    assert(t[0] == p[0] && t[1] == p[1] && t[2] == p[2] && t[3] == p[3] && t[4]
                        == p[4]);
                }
            }
            return Ok(None);
        },
    };
    if kind != FILE_ACCEPT_KIND && kind != FILE_REJECT_KIND {
        return Ok(None);
    }
    if record.len() != 14 {
        return Err(ClipboardError::InvalidRecord);
    }
    if get_u64(record, 6) != expected_id {
        return Err(ClipboardError::InvalidRecord);
    }
    Ok(Some(kind == FILE_ACCEPT_KIND))
}

/// A decision is read back for its own offer, and is refused for any other.
pub proof fn law_decisions_are_bound_to_their_offer(id: u64, approved: bool, expected: u64)
    ensures
        decision_denoted(decision_record(id, approved), id) == Ok::<Option<bool>, ClipboardFault>(
            Some(approved),
        ),
        expected != id ==> decision_denoted(decision_record(id, approved), expected) == Err::<
            Option<bool>,
            ClipboardFault,
        >(ClipboardFault::InvalidRecord),
{
    let record = decision_record(id, approved);
    crate::clipboard::lemma_record_of(decision_kind(approved), crate::wire::be64(id));
    assert(record.subrange(6, 14) =~= crate::wire::be64(id));
    crate::wire::lemma_u64_at(record, 6, id);
}

proof fn lemma_entry_read(name: Seq<char>, size: u64, rest: Seq<u8>)
    requires
        crate::text::utf8(name).len() <= 65535,
    ensures
        ({
            let s = entry_bytes(name, size) + rest;
            let len = crate::text::utf8(name).len() as int;
            &&& s.len() >= 10 + len
            &&& crate::wire::u16_at(s, 0) == len
            &&& crate::wire::u64_at(s, 2) == size
            &&& s.subrange(10, 10 + len) == crate::text::utf8(name)
            &&& s.skip(10 + len) == rest
        }),
{
    let bytes = crate::text::utf8(name);
    let s = entry_bytes(name, size) + rest;
    assert(s.subrange(0, 2) =~= crate::wire::be16(bytes.len() as u16));
    crate::wire::lemma_u16_at(s, 0, bytes.len() as u16);
    assert(s.subrange(2, 10) =~= crate::wire::be64(size));
    crate::wire::lemma_u64_at(s, 2, size);
    assert(s.subrange(10, 10 + bytes.len() as int) =~= bytes);
    assert(s.skip(10 + bytes.len() as int) =~= rest);
}

/// Bytes that announce the files from `i` on.
spec fn manifest_tail(files: Seq<(Seq<char>, u64)>, i: int) -> Seq<u8>
    decreases files.len() - i,
{
    if i < 0 || i >= files.len() {
        Seq::empty()
    } else {
        entry_bytes(files[i].0, files[i].1) + manifest_tail(files, i + 1)
    }
}

proof fn lemma_manifest_split(files: Seq<(Seq<char>, u64)>, i: int)
    requires
        0 <= i <= files.len(),
    ensures
        manifest_bytes(files) == manifest_bytes(files.take(i)) + manifest_tail(files, i),
    decreases files.len() - i,
{
    if i == files.len() {
        assert(files.take(i) =~= files);
        assert(manifest_bytes(files) + Seq::<u8>::empty() =~= manifest_bytes(files));
    } else {
        lemma_manifest_split(files, i + 1);
        assert(files.take(i + 1).drop_last() =~= files.take(i));
        assert(manifest_bytes(files.take(i)) + manifest_tail(files, i) =~= manifest_bytes(
            files.take(i + 1),
        ) + manifest_tail(files, i + 1));
    }
}

/// Names that differ.
pub open spec fn distinct_names(files: Seq<(Seq<char>, u64)>) -> bool {
    forall|i: int, j: int|
        0 <= i < j < files.len() ==> (#[trigger] files[i]).0 != (#[trigger] files[j]).0
}

proof fn lemma_manifest_read(files: Seq<(Seq<char>, u64)>, i: int)
    requires
        0 <= i <= files.len(),
        distinct_names(files),
        manifest_fault(files, i) is None,
    ensures
        manifest_read(manifest_tail(files, i), files.len() - i, files.take(i)) == Ok::<
            (Seq<(Seq<char>, u64)>, Seq<u8>),
            ClipboardFault,
        >((files, Seq::empty())),
    decreases files.len() - i,
{
    if i == files.len() {
        assert(files.take(i) =~= files);
    } else {
        let (name, size) = files[i];
        let rest = manifest_tail(files, i + 1);
        lemma_entry_read(name, size, rest);
        crate::text::lemma_utf8_round_trip(name);
        assert(crate::text::utf8(name).len() > 0) by {
            if crate::text::utf8(name).len() == 0 {
                assert(vstd::utf8::decode_utf8(crate::text::utf8(name)) =~= Seq::<char>::empty());
            }
        }
        assert(!manifest_has(files.take(i), name)) by {
            assert forall|j: int| 0 <= j < i implies (#[trigger] files.take(i)[j]).0 != name by {
                assert(files.take(i)[j] == files[j]);
            }
        }
        assert(files.take(i).push((name, size)) =~= files.take(i + 1));
        lemma_manifest_read(files, i + 1);
    }
}

/// The three numbers before the announcements.
proof fn lemma_offer_header(id: u64, count: u16, total: u64, tail: Seq<u8>)
    ensures
        ({
            let body = crate::wire::be64(id) + crate::wire::be16(count) + crate::wire::be64(total)
                + tail;
            &&& body.len() == 18 + tail.len()
            &&& crate::wire::u64_at(body, 0) == id
            &&& crate::wire::u16_at(body, 8) == count
            &&& crate::wire::u64_at(body, 10) == total
            &&& body.skip(18) == tail
        }),
{
    let body = crate::wire::be64(id) + crate::wire::be16(count) + crate::wire::be64(total) + tail;
    assert(body.subrange(0, 8) =~= crate::wire::be64(id));
    crate::wire::lemma_u64_at(body, 0, id);
    assert(body.subrange(8, 10) =~= crate::wire::be16(count));
    crate::wire::lemma_u16_at(body, 8, count);
    assert(body.subrange(10, 18) =~= crate::wire::be64(total));
    crate::wire::lemma_u64_at(body, 10, total);
    assert(body.skip(18) =~= tail);
}

/// An offer is read as it was made, if its names differ. (Offers whose names
/// clash can be written, but are refused on reading.)
pub proof fn law_offer_round_trip(id: u64, selection: SelectionView, kind: u8)
    requires
        encoded_offer(id, selection, kind) is Ok,
        distinct_names(manifest(selection.files)),
    ensures
        crate::clipboard::kind_of_record(encoded_offer(id, selection, kind)->Ok_0) == Some(kind),
        offer_denoted(encoded_offer(id, selection, kind)->Ok_0.skip(6)) == Ok::<
            OfferView,
            ClipboardFault,
        >(
            OfferView {
                id,
                files: manifest(selection.files),
                total_bytes: selection.total_bytes as u64,
            },
        ),
{
    let files = manifest(selection.files);
    let total = selection.total_bytes as u64;
    let body = offer_body(id, files, total);
    lemma_size_sum(files);
    crate::clipboard::lemma_record_of(kind, body);
    lemma_offer_header(id, files.len() as u16, total, manifest_bytes(files));
    lemma_manifest_split(files, 0);
    assert(files.take(0) =~= Seq::<(Seq<char>, u64)>::empty());
    assert(manifest_bytes(files) =~= manifest_tail(files, 0));
    lemma_manifest_read(files, 0);
    assert(manifest_read(body.skip(18), files.len() as int, Seq::empty()) == Ok::<
        (Seq<(Seq<char>, u64)>, Seq<u8>),
        ClipboardFault,
    >((files, Seq::empty())));
}

proof fn lemma_size_sum(files: Seq<(Seq<char>, u64)>)
    ensures
        size_sum(files) >= 0,
    decreases files.len(),
{
    if files.len() > 0 {
        lemma_size_sum(files.drop_last());
    }
}

/// A direct offer is told apart from an offer of the clipboard.
pub proof fn law_direct_offers_are_distinct(id: u64, selection: SelectionView)
    requires
        encoded_offer(id, selection, DIRECT_FILE_START_KIND) is Ok,
    ensures
        crate::clipboard::kind_of_record(
            encoded_offer(id, selection, DIRECT_FILE_START_KIND)->Ok_0,
        ) == Some(DIRECT_FILE_START_KIND),
        crate::clipboard::kind_of_record(encoded_offer(id, selection, FILE_START_KIND)->Ok_0)
            == Some(FILE_START_KIND),
{
    let files = manifest(selection.files);
    let body = offer_body(id, files, selection.total_bytes as u64);
    crate::clipboard::lemma_record_of(DIRECT_FILE_START_KIND, body);
    crate::clipboard::lemma_record_of(FILE_START_KIND, body);
}

/// The regular ones among paths, with the names and times that they have, in
/// their order.
pub open spec fn regular_files(infos: Seq<(Seq<char>, Option<(u64, u128)>)>) -> Seq<LocalFileView>
    decreases infos.len(),
{
    if infos.len() == 0 {
        Seq::empty()
    } else {
        let before = regular_files(infos.drop_last());
        match infos.last().1 {
            None => before,
            Some((size, modified_nanos)) => before.push(
                LocalFileView {
                    name: crate::file_paths::offered_name(infos.last().0)->0,
                    path: infos.last().0,
                    size,
                    modified_nanos,
                },
            ),
        }
    }
}

/// A selection is all of the regular files among its paths: up to 256, with
/// different names, together up to 64 GiB. It says how many bytes they have.
pub proof fn law_selections_have_all_regular_files(
    infos: Seq<(Seq<char>, Option<(u64, u128)>)>,
)
    requires
        selected(infos, 0, Seq::empty(), 0) is Ok,
    ensures
        ({
            let selection = selected(infos, 0, Seq::empty(), 0)->Ok_0;
            &&& selection.files == regular_files(infos)
            &&& 1 <= selection.files.len() <= 256
            &&& selection.total_bytes == size_sum(manifest(selection.files))
            &&& selection.total_bytes <= 68_719_476_736
            &&& distinct_names(manifest(selection.files))
        }),
{
    assert(infos.take(0) =~= Seq::<(Seq<char>, Option<(u64, u128)>)>::empty());
    assert(regular_files(infos.take(0)) =~= Seq::<LocalFileView>::empty());
    assert(manifest(Seq::empty()) =~= Seq::<(Seq<char>, u64)>::empty());
    lemma_selected(infos, 0, Seq::empty(), 0);
}

proof fn lemma_selected(
    infos: Seq<(Seq<char>, Option<(u64, u128)>)>,
    i: int,
    files: Seq<LocalFileView>,
    total: int,
)
    requires
        0 <= i <= infos.len(),
        files == regular_files(infos.take(i)),
        total == size_sum(manifest(files)),
        total <= 68_719_476_736,
        files.len() <= 256,
        distinct_names(manifest(files)),
        selected(infos, i, files, total) is Ok,
    ensures
        ({
            let selection = selected(infos, i, files, total)->Ok_0;
            &&& selection.files == regular_files(infos)
            &&& 1 <= selection.files.len() <= 256
            &&& selection.total_bytes == size_sum(manifest(selection.files))
            &&& selection.total_bytes <= 68_719_476_736
            &&& distinct_names(manifest(selection.files))
        }),
    decreases infos.len() - i,
{
    if i == infos.len() {
        assert(infos.take(i) =~= infos);
    } else {
        assert(infos.take(i + 1).drop_last() =~= infos.take(i));
        assert(infos.take(i + 1).last() == infos[i]);
        match infos[i].1 {
            None => {
                lemma_selected(infos, i + 1, files, total);
            },
            Some((size, modified_nanos)) => {
                let name = crate::file_paths::offered_name(infos[i].0)->0;
                let file = LocalFileView { name, path: infos[i].0, size, modified_nanos };
                let more = files.push(file);
                assert(manifest(more) =~= manifest(files).push((name, size)));
                assert(manifest(more).drop_last() =~= manifest(files));
                assert forall|j: int, k: int| 0 <= j < k < manifest(more).len() implies (
                #[trigger] manifest(more)[j]).0 != (#[trigger] manifest(more)[k]).0 by {
                    assert(manifest(more)[j] == manifest(files)[j]);
                    if k == files.len() {
                        assert(files[j].name != name);
                    } else {
                        assert(manifest(more)[k] == manifest(files)[k]);
                    }
                }
                lemma_selected(infos, i + 1, more, total + size);
            },
        }
    }
}

/// A path of a regular file joins the selection exactly if the selection does not
/// get too large by it and its name is usable and new; other paths are left out.
pub proof fn law_paths_join_a_selection(
    infos: Seq<(Seq<char>, Option<(u64, u128)>)>,
    i: int,
    files: Seq<LocalFileView>,
    total: int,
)
    requires
        0 <= i < infos.len(),
    ensures
        infos[i].1 is None ==> selected(infos, i, files, total) == selected(
            infos,
            i + 1,
            files,
            total,
        ),
        infos[i].1 matches Some((size, modified_nanos)) ==> {
            let name = crate::file_paths::offered_name(infos[i].0);
            if total + size > 68_719_476_736 || files.len() == 256 {
                selected(infos, i, files, total) == Err::<SelectionView, ClipboardFault>(
                    ClipboardFault::TooLarge,
                )
            } else if name is None || (exists|j: int|
                0 <= j < files.len() && (#[trigger] files[j]).name == name->0) {
                selected(infos, i, files, total) == Err::<SelectionView, ClipboardFault>(
                    ClipboardFault::InvalidFileBundle,
                )
            } else {
                selected(infos, i, files, total) == selected(
                    infos,
                    i + 1,
                    files.push(
                        LocalFileView {
                            name: name->0,
                            path: infos[i].0,
                            size,
                            modified_nanos,
                        },
                    ),
                    total + size,
                )
            }
        },
        selected(infos, infos.len() as int, Seq::empty(), total) == Err::<
            SelectionView,
            ClipboardFault,
        >(ClipboardFault::NoRegularFiles),
{
}

/// A selection was received exactly if none of its files lies elsewhere than in
/// the download folder.
pub proof fn law_received_selections(selection: SelectionView, root: Seq<char>, i: int)
    requires
        0 <= i < selection.files.len(),
    ensures
        is_received(selection, root) ==> crate::file_paths::lies_under(
            selection.files[i].path,
            root,
        ),
        (forall|j: int|
            0 <= j < selection.files.len() ==> crate::file_paths::lies_under(
                (#[trigger] selection.files[j]).path,
                root,
            )) ==> is_received(selection, root),
{
    assert(selection.files[i] == selection.files[i]);
}

/// An offer is written as its number, how many files it has, how many bytes they
/// have together, and for each file the length of its name, its size and its name.
pub proof fn law_offers_on_the_wire(
    id: u64,
    files: Seq<(Seq<char>, u64)>,
    total: u64,
    name: Seq<char>,
    size: u64,
)
    ensures
        offer_body(id, files, total) == crate::wire::be64(id) + crate::wire::be16(
            files.len() as u16,
        ) + crate::wire::be64(total) + manifest_bytes(files),
        manifest_bytes(Seq::empty()) == Seq::<u8>::empty(),
        manifest_bytes(files.push((name, size))) == manifest_bytes(files) + crate::wire::be16(
            crate::text::utf8(name).len() as u16,
        ) + crate::wire::be64(size) + crate::text::utf8(name),
        size_sum(Seq::empty()) == 0,
        size_sum(files.push((name, size))) == size_sum(files) + size,
{
    assert(files.push((name, size)).drop_last() =~= files);
    assert(manifest_bytes(files.push((name, size))) =~= manifest_bytes(files) + crate::wire::be16(
        crate::text::utf8(name).len() as u16,
    ) + crate::wire::be64(size) + crate::text::utf8(name));
}

/// Files can be offered exactly if there are one to 256 of them, their names are
/// usable and not too long, and they have as many bytes as is said, up to 64 GiB.
pub proof fn law_which_offers_can_be_made(id: u64, selection: SelectionView)
    ensures
        ({
            let files = manifest(selection.files);
            let offerable = 1 <= files.len() <= 256 && size_sum(files) == selection.total_bytes
                && selection.total_bytes <= 68_719_476_736 && forall|i: int|
                0 <= i < files.len() ==> crate::file_paths::is_file_name((#[trigger] files[i]).0)
                    && crate::text::utf8(files[i].0).len() <= 65535;
            &&& encoded_offer(id, selection, 3) is Ok <==> offerable
            &&& encoded_offer(id, selection, 8) is Ok <==> offerable
            &&& encoded_offer(id, selection, 3) matches Ok(record) ==> record == seq![
                67u8,
                66,
                67,
                76,
                50,
                3,
            ] + offer_body(id, files, selection.total_bytes as u64)
            &&& encoded_offer(id, selection, 8) matches Ok(record) ==> record == seq![
                67u8,
                66,
                67,
                76,
                50,
                8,
            ] + offer_body(id, files, selection.total_bytes as u64)
        }),
{
    let files = manifest(selection.files);
    if manifest_fault(files, 0) is None {
        lemma_faultless(files, 0);
    }
    if size_sum(files) <= u64::MAX && forall|i: int|
        0 <= i < files.len() ==> crate::file_paths::is_file_name((#[trigger] files[i]).0)
            && crate::text::utf8(files[i].0).len() <= 65535 {
        lemma_no_fault(files, 0);
    }
    let body = offer_body(id, files, selection.total_bytes as u64);
    crate::clipboard::law_records_begin_alike(3, body, body);
    crate::clipboard::law_records_begin_alike(8, body, body);
}

proof fn lemma_faultless(files: Seq<(Seq<char>, u64)>, i: int)
    requires
        0 <= i,
        manifest_fault(files, i) is None,
    ensures
        forall|j: int|
            i <= j < files.len() ==> crate::file_paths::is_file_name((#[trigger] files[j]).0)
                && crate::text::utf8(files[j].0).len() <= 65535,
    decreases files.len() - i,
{
    if i < files.len() {
        lemma_faultless(files, i + 1);
    }
}

proof fn lemma_sum_grows(files: Seq<(Seq<char>, u64)>, i: int)
    requires
        0 <= i <= files.len(),
    ensures
        size_sum(files.take(i)) <= size_sum(files),
    decreases files.len(),
{
    if i == files.len() {
        assert(files.take(i) =~= files);
    } else {
        assert(files.drop_last().take(i) =~= files.take(i));
        lemma_sum_grows(files.drop_last(), i);
    }
}

proof fn lemma_no_fault(files: Seq<(Seq<char>, u64)>, i: int)
    requires
        0 <= i,
        size_sum(files) <= u64::MAX,
        forall|j: int|
            0 <= j < files.len() ==> crate::file_paths::is_file_name((#[trigger] files[j]).0)
                && crate::text::utf8(files[j].0).len() <= 65535,
    ensures
        manifest_fault(files, i) is None,
    decreases files.len() - i,
{
    if i < files.len() {
        lemma_sum_grows(files, i + 1);
        assert(crate::file_paths::is_file_name(files[i].0));
        lemma_no_fault(files, i + 1);
    }
}

/// An offer that is read adds up: one to 256 files with different, usable names
/// whose sizes make the total, which is not above 64 GiB.
pub proof fn law_offers_add_up(body: Seq<u8>)
    requires
        offer_denoted(body) is Ok,
    ensures
        ({
            let offer = offer_denoted(body)->Ok_0;
            &&& offer.id == crate::wire::u64_at(body, 0)
            &&& 1 <= offer.files.len() <= 256
            &&& offer.files.len() == crate::wire::u16_at(body, 8)
            &&& offer.total_bytes == crate::wire::u64_at(body, 10)
            &&& size_sum(offer.files) == offer.total_bytes
            &&& offer.total_bytes <= 68_719_476_736
            &&& distinct_names(offer.files)
            &&& forall|i: int|
                0 <= i < offer.files.len() ==> crate::file_paths::is_file_name(
                    (#[trigger] offer.files[i]).0,
                )
        }),
{
    lemma_manifest_adds_up(body.skip(18), crate::wire::u16_at(body, 8) as int, Seq::empty());
}

proof fn lemma_manifest_adds_up(rest: Seq<u8>, count: int, files: Seq<(Seq<char>, u64)>)
    requires
        0 <= count,
        distinct_names(files),
        forall|i: int|
            0 <= i < files.len() ==> crate::file_paths::is_file_name((#[trigger] files[i]).0),
        manifest_read(rest, count, files) is Ok,
    ensures
        ({
            let all = manifest_read(rest, count, files)->Ok_0.0;
            &&& all.len() == files.len() + count
            &&& distinct_names(all)
            &&& forall|i: int|
                0 <= i < all.len() ==> crate::file_paths::is_file_name((#[trigger] all[i]).0)
        }),
    decreases count,
{
    if count > 0 {
        let len = crate::wire::u16_at(rest, 0) as int;
        let size = crate::wire::u64_at(rest, 2);
        let name = vstd::utf8::decode_utf8(rest.subrange(10, 10 + len));
        let more = files.push((name, size));
        assert forall|i: int, j: int| 0 <= i < j < more.len() implies (#[trigger] more[i]).0 != (
        #[trigger] more[j]).0 by {
            assert(more[i] == files[i]);
        }
        lemma_manifest_adds_up(rest.skip(10 + len), count - 1, more);
    }
}

/// A piece of a file is written as the offer's number, the file's place in it, the
/// place of the bytes in the file, and the bytes: one to 16384.
pub proof fn law_file_chunks_on_the_wire(id: u64, index: u16, offset: u64, bytes: Seq<u8>)
    ensures
        encoded_file_chunk(id, index as int, offset, bytes) is Ok <==> 1 <= bytes.len() <= 16384,
        encoded_file_chunk(id, index as int, offset, bytes) matches Ok(record) ==> record == seq![
            67u8,
            66,
            67,
            76,
            50,
            4,
        ] + crate::wire::be64(id) + crate::wire::be16(index) + crate::wire::be64(offset) + bytes,
        encoded_file_chunk(id, 65536 + index, offset, bytes) is Err,
        is_file_chunk_body(file_chunk_body(id, index, offset, bytes)) <==> 1 <= bytes.len()
            <= 16384,
{
    assert(crate::clipboard::record_of(4, file_chunk_body(id, index, offset, bytes)) =~= seq![
        67u8,
        66,
        67,
        76,
        50,
        4,
    ] + crate::wire::be64(id) + crate::wire::be16(index) + crate::wire::be64(offset) + bytes);
}

/// What a piece of a file says is read as it was written.
pub proof fn law_file_chunks_are_read(id: u64, index: u16, offset: u64, bytes: Seq<u8>)
    ensures
        ({
            let body = file_chunk_body(id, index, offset, bytes);
            &&& crate::wire::u64_at(body, 0) == id
            &&& crate::wire::u16_at(body, 8) == index
            &&& crate::wire::u64_at(body, 10) == offset
            &&& body.skip(18) == bytes
        }),
{
    lemma_offer_header(id, index, offset, bytes);
}

/// A decision is the offer's number in a record of its kind, 6 for yes and 7 for
/// no. Records of other kinds are no decisions.
pub proof fn law_decisions_on_the_wire(id: u64, record: Seq<u8>)
    ensures
        decision_record(id, true) == seq![67u8, 66, 67, 76, 50, 6] + crate::wire::be64(id),
        decision_record(id, false) == seq![67u8, 66, 67, 76, 50, 7] + crate::wire::be64(id),
        crate::clipboard::kind_of_record(record) matches Some(kind) && kind != 6 && kind != 7
            ==> decision_denoted(record, id) == Ok::<Option<bool>, ClipboardFault>(None),
        !crate::clipboard::has_prefix(record) ==> decision_denoted(record, id) == Ok::<
            Option<bool>,
            ClipboardFault,
        >(None),
        crate::clipboard::kind_of_record(record) matches Some(kind) && (kind == 6 || kind == 7)
            && record.len() != 14 ==> decision_denoted(record, id) is Err,
{
    assert(decision_record(id, true) =~= seq![67u8, 66, 67, 76, 50, 6] + crate::wire::be64(id));
    assert(decision_record(id, false) =~= seq![67u8, 66, 67, 76, 50, 7] + crate::wire::be64(id));
}

} // verus!
