//! Several small files in one clipboard value.
use vstd::prelude::*;

use crate::clipboard::{ClipboardError, ClipboardFault, MAX_FILE_TRANSFER_BYTES};
use crate::text::{has_char, same_text, spells, text_from_utf8, to_chars, utf8_bytes};
use crate::wire::{copy_range, get_u16, get_u64, put_bytes, put_u16, put_u64};

verus! {

/// A file with its contents.
#[derive(Debug, Clone, PartialEq, Eq)]
pub struct FileEntry {
    pub name: String,
    pub bytes: Vec<u8>,
}

pub open spec fn bundle_entries(files: Seq<FileEntry>) -> Seq<(Seq<char>, Seq<u8>)> {
    files.map_values(|file: FileEntry| (file.name@, file.bytes@))
}

pub open spec fn bundle_prefix() -> Seq<u8> {
    seq![67u8, 66, 70, 76, 49]
}

/// A name that stays inside its directory.
pub open spec fn is_bundle_name(name: Seq<char>) -> bool {
    name.len() > 0 && !name.contains('/') && !name.contains('\\') && name != "."@ && name != ".."@
}

fn bundle_name_ok(name: &str) -> (ok: bool)
    ensures
        ok == is_bundle_name(name@),
{
    let chars = to_chars(name);
    chars.len() > 0 && !has_char(chars.as_slice(), '/') && !has_char(chars.as_slice(), '\\')
        && !spells(chars.as_slice(), ".") && !spells(chars.as_slice(), "..")
}

/// The bytes of one file: lengths, name, contents.
pub open spec fn bundled(name: Seq<char>, bytes: Seq<u8>) -> Seq<u8> {
    crate::wire::be16(crate::text::utf8(name).len() as u16) + crate::wire::be64(bytes.len() as u64)
        + crate::text::utf8(name) + bytes
}

/// The bytes of the files from `i` on.
pub open spec fn bundled_from(files: Seq<(Seq<char>, Seq<u8>)>, i: int) -> Seq<u8>
    decreases files.len() - i,
{
    if i < 0 || i >= files.len() {
        Seq::empty()
    } else {
        bundled(files[i].0, files[i].1) + bundled_from(files, i + 1)
    }
}

/// Bytes in the first `k` files.
pub open spec fn bundle_size(files: Seq<(Seq<char>, Seq<u8>)>, k: int) -> int
    decreases k,
{
    if k <= 0 || k > files.len() {
        0
    } else {
        bundle_size(files, k - 1) + files[k - 1].1.len()
    }
}

/// The fault of the first file from `i` on that cannot be bundled.
pub open spec fn bundle_fault(files: Seq<(Seq<char>, Seq<u8>)>, i: int) -> Option<ClipboardFault>
    decreases files.len() - i,
{
    if i < 0 || i >= files.len() {
        None
    } else if !is_bundle_name(files[i].0) || crate::text::utf8(files[i].0).len() > 65535 {
        Some(ClipboardFault::InvalidFileBundle)
    } else if bundle_size(files, i + 1) > MAX_FILE_TRANSFER_BYTES {
        Some(ClipboardFault::TooLarge)
    } else {
        bundle_fault(files, i + 1)
    }
}

pub open spec fn bundle(files: Seq<(Seq<char>, Seq<u8>)>) -> Seq<u8> {
    bundle_prefix() + crate::wire::be16(files.len() as u16) + bundled_from(files, 0)
}

pub open spec fn encoded_bundle(files: Seq<(Seq<char>, Seq<u8>)>) -> Result<
    Seq<u8>,
    ClipboardFault,
> {
    if files.len() == 0 || files.len() > 65535 {
        Err(ClipboardFault::InvalidFileBundle)
    } else if bundle_fault(files, 0) is Some {
        Err(bundle_fault(files, 0)->0)
    } else {
        Ok(bundle(files))
    }
}

pub fn encode_file_bundle(files: &[FileEntry]) -> (result: Result<Vec<u8>, ClipboardError>)
    ensures
        crate::clipboard::gives(result, encoded_bundle(bundle_entries(files@))),
{
    if files.len() == 0 || files.len() > 65535 {
        return Err(ClipboardError::InvalidFileBundle);
    }
    let ghost all = bundle_entries(files@);
    let mut output: Vec<u8> = Vec::new();
    output.push(67);
    output.push(66);
    output.push(70);
    output.push(76);
    output.push(49);
    put_u16(&mut output, files.len() as u16);
    assert(output@ =~= bundle_prefix() + crate::wire::be16(all.len() as u16));
    let mut total: u64 = 0;
    let mut i: usize = 0;
    while i < files.len()
        invariant
            i <= files.len(),
            0 < files.len() <= 65535,
            all == bundle_entries(files@),
            total == bundle_size(all, i as int),
            total <= MAX_FILE_TRANSFER_BYTES,
            output@ + bundled_from(all, i as int) == bundle(all),
            bundle_fault(all, i as int) == bundle_fault(all, 0),
        decreases files.len() - i,
    {
        assert(all[i as int] == (files@[i as int].name@, files@[i as int].bytes@));
        let name = utf8_bytes(files[i].name.as_str());
        if !bundle_name_ok(files[i].name.as_str()) || name.len() > 65535 {
            return Err(ClipboardError::InvalidFileBundle);
        }
        let len: u64 = files[i].bytes.len() as u64;
        if len > MAX_FILE_TRANSFER_BYTES - total {
            return Err(ClipboardError::TooLarge);
        }
        total = total + len;
        let ghost before = output@;
        put_u16(&mut output, name.len() as u16);
        put_u64(&mut output, len);
        put_bytes(&mut output, name.as_slice());
        put_bytes(&mut output, files[i].bytes.as_slice());
        assert(output@ + bundled_from(all, i + 1) =~= before + bundled_from(all, i as int));
        i = i + 1;
    }
    assert(output@ + bundled_from(all, i as int) =~= output@);
    Ok(output)
}

pub open spec fn bundle_has(files: Seq<(Seq<char>, Seq<u8>)>, name: Seq<char>) -> bool {
    exists|j: int| 0 <= j < files.len() && (#[trigger] files[j]).0 == name
}

/// The file at the start of some bytes, and how many bytes it takes.
pub open spec fn entry_read(rest: Seq<u8>) -> Option<(Seq<char>, Seq<u8>, int)> {
    let len = crate::wire::u16_at(rest, 0) as int;
    let size = crate::wire::u64_at(rest, 2) as int;
    let name = rest.subrange(10, 10 + len);
    if rest.len() < 10 || len == 0 || rest.len() - 10 < len || rest.len() - 10 - len < size
        || !vstd::utf8::valid_utf8(name) {
        None
    } else {
        Some(
            (
                vstd::utf8::decode_utf8(name),
                rest.subrange(10 + len, 10 + len + size),
                10 + len + size,
            ),
        )
    }
}

/// The files that `count` more entries add, and what is left behind them.
pub open spec fn bundle_read(
    rest: Seq<u8>,
    count: int,
    files: Seq<(Seq<char>, Seq<u8>)>,
) -> Result<(Seq<(Seq<char>, Seq<u8>)>, Seq<u8>), ClipboardFault>
    decreases count,
{
    if count <= 0 {
        Ok((files, rest))
    } else {
        match entry_read(rest) {
            None => Err(ClipboardFault::InvalidFileBundle),
            Some((name, bytes, len)) => {
                let next = files.push((name, bytes));
                if !is_bundle_name(name) || bundle_has(files, name) {
                    Err(ClipboardFault::InvalidFileBundle)
                } else if bundle_size(next, next.len() as int) > MAX_FILE_TRANSFER_BYTES {
                    Err(ClipboardFault::TooLarge)
                } else {
                    bundle_read(rest.skip(len), count - 1, next)
                }
            },
        }
    }
}

fn read_entry(bundle: &[u8], at: usize) -> (entry: Option<(String, Vec<u8>, usize)>)
    requires
        at <= bundle@.len(),
    ensures
        match entry {
            Some((name, bytes, end)) => end <= bundle@.len() && entry_read(
                bundle@.skip(at as int),
            ) == Some((name@, bytes@, end - at)),
            None => entry_read(bundle@.skip(at as int)) is None,
        },
{
    let ghost rest = bundle@.skip(at as int);
    if bundle.len() - at < 10 {
        return None;
    }
    let name_len: usize = get_u16(bundle, at) as usize;
    let size: u64 = get_u64(bundle, at + 2);
    proof {
        assert(rest[0] == bundle@[at as int] && rest[1] == bundle@[at + 1]);
        assert(rest[2] == bundle@[at + 2] && rest[3] == bundle@[at + 3] && rest[4] == bundle@[at
            + 4] && rest[5] == bundle@[at + 5] && rest[6] == bundle@[at + 6] && rest[7] == bundle@[
        at + 7] && rest[8] == bundle@[at + 8] && rest[9] == bundle@[at + 9]);
    }
    if name_len == 0 || bundle.len() - at - 10 < name_len || ((bundle.len() - at - 10
        - name_len) as u64) < size {
        return None;
    }
    let start: usize = at + 10 + name_len;
    let end: usize = start + size as usize;
    assert(bundle@.subrange(at + 10, start as int) =~= rest.subrange(10, 10 + name_len));
    match text_from_utf8(copy_range(bundle, at + 10, start)) {
        Some(name) => {
            let bytes = copy_range(bundle, start, end);
            assert(bytes@ =~= rest.subrange(10 + name_len, 10 + name_len + size));
            Some((name, bytes, end))
        },
        None => None,
    }
}

/// The files in a bundle.
pub open spec fn bundle_denoted(bytes: Seq<u8>) -> Result<
    Seq<(Seq<char>, Seq<u8>)>,
    ClipboardFault,
> {
    let count = crate::wire::u16_at(bytes, 5) as int;
    if bytes.len() < 7 || bytes.take(5) != bundle_prefix() || count == 0 {
        Err(ClipboardFault::InvalidFileBundle)
    } else {
        match bundle_read(bytes.skip(7), count, Seq::empty()) {
            Err(fault) => Err(fault),
            Ok((files, rest)) => if rest.len() != 0 {
                Err(ClipboardFault::InvalidFileBundle)
            } else {
                Ok(files)
            },
        }
    }
}

fn has_entry(files: &Vec<FileEntry>, name: &str) -> (taken: bool)
    ensures
        taken == bundle_has(bundle_entries(files@), name@),
{
    let mut i: usize = 0;
    while i < files.len()
        invariant
            i <= files.len(),
            forall|j: int| 0 <= j < i ==> (#[trigger] bundle_entries(files@)[j]).0 != name@,
        decreases files.len() - i,
    {
        assert(bundle_entries(files@)[i as int].0 == files@[i as int].name@);
        if same_text(files[i].name.as_str(), name) {
            assert(bundle_entries(files@)[i as int].0 == name@);
            return true;
        }
        i = i + 1;
    }
    false
}

proof fn lemma_bundle_size_push(
    files: Seq<(Seq<char>, Seq<u8>)>,
    file: (Seq<char>, Seq<u8>),
    k: int,
)
    requires
        0 <= k <= files.len(),
    ensures
        bundle_size(files.push(file), k) == bundle_size(files, k),
    decreases k,
{
    if k > 0 {
        lemma_bundle_size_push(files, file, k - 1);
    }
}

pub fn decode_file_bundle(bundle: &[u8]) -> (result: Result<Vec<FileEntry>, ClipboardError>)
    ensures
        match result {
            Ok(files) => bundle_denoted(bundle@) == Ok::<
                Seq<(Seq<char>, Seq<u8>)>,
                ClipboardFault,
            >(bundle_entries(files@)),
            Err(error) => bundle_denoted(bundle@) == Err::<
                Seq<(Seq<char>, Seq<u8>)>,
                ClipboardFault,
            >(error@),
        },
{
    if bundle.len() < 7 || bundle[0] != 67 || bundle[1] != 66 || bundle[2] != 70 || bundle[3] != 76
        || bundle[4] != 49 {
        proof {
            let t = bundle@.take(5);
            let p = bundle_prefix();
            if bundle@.len() >= 7 && t == p {
                assert(t[0] == p[0] && t[1] == p[1] && t[2] == p[2] && t[3] == p[3] && t[4]
                    == p[4]);
            }
        }
        return Err(ClipboardError::InvalidFileBundle);
    }
    assert(bundle@.take(5) =~= bundle_prefix());
    let count: usize = get_u16(bundle, 5) as usize;
    if count == 0 {
        return Err(ClipboardError::InvalidFileBundle);
    }
    let mut at: usize = 7;
    let mut files: Vec<FileEntry> = Vec::new();
    let mut total: u64 = 0;
    let mut done: usize = 0;
    assert(bundle_entries(files@) =~= Seq::<(Seq<char>, Seq<u8>)>::empty());
    while done < count
        invariant
            done <= count,
            7 <= at <= bundle.len(),
            bundle@.take(5) == bundle_prefix(),
            count == crate::wire::u16_at(bundle@, 5),
            0 < count,
            total == bundle_size(bundle_entries(files@), files@.len() as int),
            total <= MAX_FILE_TRANSFER_BYTES,
            bundle_read(bundle@.skip(at as int), count - done, bundle_entries(files@))
                == bundle_read(bundle@.skip(7), count as int, Seq::empty()),
        decreases count - done,
    {
        let (name, bytes, end) = match read_entry(bundle, at) {
            Some(entry) => entry,
            None => {
                return Err(ClipboardError::InvalidFileBundle);
            },
        };
        if !bundle_name_ok(name.as_str()) || has_entry(&files, name.as_str()) {
            return Err(ClipboardError::InvalidFileBundle);
        }
        let size: u64 = bytes.len() as u64;
        let ghost before = bundle_entries(files@);
        let ghost added = (name@, bytes@);
        proof {
            lemma_bundle_size_push(before, added, before.len() as int);
        }
        if size > MAX_FILE_TRANSFER_BYTES - total {
            return Err(ClipboardError::TooLarge);
        }
        total = total + size;
        files.push(FileEntry { name, bytes });
        assert(bundle_entries(files@) =~= before.push(added));
        assert(bundle@.skip(at as int).skip(end - at) =~= bundle@.skip(end as int));
        at = end;
        done = done + 1;
    }
    if at != bundle.len() {
        return Err(ClipboardError::InvalidFileBundle);
    }
    Ok(files)
}

/// Names that differ.
pub open spec fn distinct_entries(files: Seq<(Seq<char>, Seq<u8>)>) -> bool {
    forall|i: int, j: int|
        0 <= i < j < files.len() ==> (#[trigger] files[i]).0 != (#[trigger] files[j]).0
}

proof fn lemma_bundled(name: Seq<char>, bytes: Seq<u8>, rest: Seq<u8>)
    requires
        crate::text::utf8(name).len() <= 65535,
        bytes.len() <= u64::MAX,
    ensures
        ({
            let s = bundled(name, bytes) + rest;
            let len = crate::text::utf8(name).len() as int;
            let size = bytes.len() as int;
            &&& s.len() >= 10 + len + size
            &&& crate::wire::u16_at(s, 0) == len
            &&& crate::wire::u64_at(s, 2) == size
            &&& s.subrange(10, 10 + len) == crate::text::utf8(name)
            &&& s.subrange(10 + len, 10 + len + size) == bytes
            &&& s.skip(10 + len + size) == rest
        }),
{
    let encoded = crate::text::utf8(name);
    let s = bundled(name, bytes) + rest;
    let len = encoded.len() as int;
    let size = bytes.len() as int;
    assert(s.subrange(0, 2) =~= crate::wire::be16(encoded.len() as u16));
    crate::wire::lemma_u16_at(s, 0, encoded.len() as u16);
    assert(s.subrange(2, 10) =~= crate::wire::be64(bytes.len() as u64));
    crate::wire::lemma_u64_at(s, 2, bytes.len() as u64);
    assert(s.subrange(10, 10 + len) =~= encoded);
    assert(s.subrange(10 + len, 10 + len + size) =~= bytes);
    assert(s.skip(10 + len + size) =~= rest);
}

proof fn lemma_bundle_take(files: Seq<(Seq<char>, Seq<u8>)>, i: int, k: int)
    requires
        0 <= k <= i <= files.len(),
    ensures
        bundle_size(files.take(i), k) == bundle_size(files, k),
        bundle_size(files, k) <= bundle_size(files, i),
    decreases i + k,
{
    if k > 0 {
        lemma_bundle_take(files, i, k - 1);
    }
    if k < i {
        lemma_bundle_take(files, i - 1, k);
    }
}

proof fn lemma_bundle_read(files: Seq<(Seq<char>, Seq<u8>)>, i: int)
    requires
        0 <= i <= files.len(),
        distinct_entries(files),
        bundle_fault(files, i) is None,
    ensures
        bundle_read(bundled_from(files, i), files.len() - i, files.take(i)) == Ok::<
            (Seq<(Seq<char>, Seq<u8>)>, Seq<u8>),
            ClipboardFault,
        >((files, Seq::empty())),
    decreases files.len() - i,
{
    if i == files.len() {
        assert(files.take(i) =~= files);
    } else {
        let (name, bytes) = files[i];
        let rest = bundled_from(files, i + 1);
        lemma_bundle_take(files, i + 1, i + 1);
        lemma_bundle_take(files, i, 0);
        assert(bundle_size(files, i) >= 0) by {
            assert(bundle_size(files, 0) == 0);
        }
        assert(bytes.len() <= MAX_FILE_TRANSFER_BYTES);
        lemma_bundled(name, bytes, rest);
        crate::text::lemma_utf8_round_trip(name);
        assert(crate::text::utf8(name).len() > 0) by {
            if crate::text::utf8(name).len() == 0 {
                assert(vstd::utf8::decode_utf8(crate::text::utf8(name)) =~= Seq::<char>::empty());
            }
        }
        assert(!bundle_has(files.take(i), name)) by {
            assert forall|j: int| 0 <= j < i implies (#[trigger] files.take(i)[j]).0 != name by {
                assert(files.take(i)[j] == files[j]);
            }
        }
        assert(files.take(i).push((name, bytes)) =~= files.take(i + 1));
        lemma_bundle_read(files, i + 1);
    }
}

/// A bundle gives back the files it was made of, if their names differ.
/// (Clashing names can be bundled, but are refused on reading.)
pub proof fn law_bundle_round_trip(files: Seq<(Seq<char>, Seq<u8>)>)
    requires
        encoded_bundle(files) is Ok,
        distinct_entries(files),
    ensures
        bundle_denoted(encoded_bundle(files)->Ok_0) == Ok::<
            Seq<(Seq<char>, Seq<u8>)>,
            ClipboardFault,
        >(files),
{
    let bytes = bundle(files);
    assert(bytes.take(5) =~= bundle_prefix());
    assert(bytes.subrange(5, 7) =~= crate::wire::be16(files.len() as u16));
    crate::wire::lemma_u16_at(bytes, 5, files.len() as u16);
    assert(bytes.skip(7) =~= bundled_from(files, 0));
    assert(files.take(0) =~= Seq::<(Seq<char>, Seq<u8>)>::empty());
    lemma_bundle_read(files, 0);
}

/// A file that was read takes the bytes that it is bundled to.
proof fn lemma_entry_bundled(rest: Seq<u8>)
    requires
        entry_read(rest) is Some,
    ensures
        ({
            let (name, bytes, len) = entry_read(rest)->0;
            &&& crate::text::utf8(name).len() <= 65535
            &&& 0 <= len <= rest.len()
            &&& rest == bundled(name, bytes) + rest.skip(len)
        }),
{
    let (name, bytes, end) = entry_read(rest)->0;
    let len = crate::wire::u16_at(rest, 0) as int;
    let size = crate::wire::u64_at(rest, 2) as int;
    let encoded = rest.subrange(10, 10 + len);
    vstd::utf8::decode_utf8_encode_utf8(encoded);
    crate::wire::lemma_u16_at(rest, 0, len as u16);
    crate::wire::lemma_u64_at(rest, 2, size as u64);
    assert(rest =~= rest.subrange(0, 2) + rest.subrange(2, 10) + encoded + bytes + rest.skip(end));
    assert(rest =~= bundled(name, bytes) + rest.skip(end));
}

/// What was read continues the files that were there before.
proof fn lemma_read_extends(rest: Seq<u8>, count: int, files: Seq<(Seq<char>, Seq<u8>)>)
    requires
        0 <= count,
        bundle_read(rest, count, files) is Ok,
    ensures
        bundle_read(rest, count, files)->Ok_0.0.len() == files.len() + count,
        bundle_read(rest, count, files)->Ok_0.0.take(files.len() as int) == files,
    decreases count,
{
    let at = files.len() as int;
    if count == 0 {
        assert(files.take(at) =~= files);
    } else {
        let (name, bytes, len) = entry_read(rest)->0;
        let next = files.push((name, bytes));
        lemma_read_extends(rest.skip(len), count - 1, next);
        let found = bundle_read(rest, count, files)->Ok_0.0;
        assert(found.take(at) =~= found.take(at + 1).take(at));
        assert(next.take(at) =~= files);
    }
}

/// What was read are the bytes of the files that were added, none of which is
/// refused when they are bundled.
#[verifier::spinoff_prover]
#[verifier::rlimit(40)]
proof fn lemma_read_bundled(rest: Seq<u8>, count: int, files: Seq<(Seq<char>, Seq<u8>)>)
    requires
        0 <= count,
        bundle_read(rest, count, files) is Ok,
    ensures
        ({
            let (found, left) = bundle_read(rest, count, files)->Ok_0;
            &&& rest == bundled_from(found, files.len() as int) + left
            &&& bundle_fault(found, files.len() as int) is None
        }),
    decreases count,
{
    let at = files.len() as int;
    let (found, left) = bundle_read(rest, count, files)->Ok_0;
    lemma_read_extends(rest, count, files);
    if count == 0 {
        assert(bundled_from(found, at) =~= Seq::<u8>::empty());
        assert(bundled_from(found, at) + rest =~= rest);
    } else {
        let (name, bytes, len) = entry_read(rest)->0;
        let next = files.push((name, bytes));
        let tail = rest.skip(len);
        lemma_entry_bundled(rest);
        assert(bundle_read(rest, count, files) == bundle_read(tail, count - 1, next));
        lemma_read_extends(tail, count - 1, next);
        lemma_read_bundled(tail, count - 1, next);
        assert(found[at] == (name, bytes)) by {
            assert(found.take(at + 1)[at] == next[at]);
        }
        assert(bundle_size(found, at + 1) == bundle_size(next, at + 1)) by {
            lemma_bundle_take(found, at + 1, at + 1);
        }
        assert(bundled_from(found, at) == bundled(name, bytes) + bundled_from(found, at + 1));
        assert(bundled(name, bytes) + (bundled_from(found, at + 1) + left) =~= bundled_from(
            found,
            at,
        ) + left);
    }
}

/// Encoding what was decoded gives the same bytes back: a bundle has one form.
pub proof fn law_bundle_has_one_form(bytes: Seq<u8>)
    requires
        bundle_denoted(bytes) is Ok,
    ensures
        encoded_bundle(bundle_denoted(bytes)->Ok_0) == Ok::<Seq<u8>, ClipboardFault>(bytes),
{
    let count = crate::wire::u16_at(bytes, 5) as int;
    let files = bundle_denoted(bytes)->Ok_0;
    lemma_read_extends(bytes.skip(7), count, Seq::empty());
    lemma_read_bundled(bytes.skip(7), count, Seq::empty());
    crate::wire::lemma_u16_at(bytes, 5, count as u16);
    assert(bytes =~= bytes.take(5) + bytes.subrange(5, 7) + bytes.skip(7));
    assert(bytes.skip(7) =~= bundled_from(files, 0));
}

/// No name in a bundle that was read leads out of its directory.
pub proof fn law_bundle_names_are_safe(
    rest: Seq<u8>,
    count: int,
    files: Seq<(Seq<char>, Seq<u8>)>,
)
    requires
        bundle_read(rest, count, files) is Ok,
        forall|i: int| 0 <= i < files.len() ==> is_bundle_name((#[trigger] files[i]).0),
        distinct_entries(files),
    ensures
        ({
            let found = bundle_read(rest, count, files)->Ok_0.0;
            &&& forall|i: int| 0 <= i < found.len() ==> is_bundle_name((#[trigger] found[i]).0)
            &&& distinct_entries(found)
        }),
    decreases count,
{
    if count > 0 {
        let (name, bytes, len) = entry_read(rest)->0;
        let next = files.push((name, bytes));
        assert forall|i: int, j: int| 0 <= i < j < next.len() implies (#[trigger] next[i]).0 != (
        #[trigger] next[j]).0 by {
            assert(next[i] == files[i]);
            if j < files.len() {
                assert(next[j] == files[j]);
            }
        }
        law_bundle_names_are_safe(rest.skip(len), count - 1, next);
    }
}

/// A bundle is five bytes that begin every one, the number of its files, and for
/// each file the lengths of its name and its contents, the name and the contents.
pub proof fn law_bundles_on_the_wire(
    files: Seq<(Seq<char>, Seq<u8>)>,
    name: Seq<char>,
    bytes: Seq<u8>,
    i: int,
)
    requires
        0 <= i < files.len(),
    ensures
        bundle(files) == seq![67u8, 66, 70, 76, 49] + crate::wire::be16(files.len() as u16)
            + bundled_from(files, 0),
        bundled_from(files, i) == bundled(files[i].0, files[i].1) + bundled_from(files, i + 1),
        bundled_from(files, files.len() as int) == Seq::<u8>::empty(),
        bundled(name, bytes) == crate::wire::be16(crate::text::utf8(name).len() as u16)
            + crate::wire::be64(bytes.len() as u64) + crate::text::utf8(name) + bytes,
{
}

/// Files can be bundled exactly if there are some, not too many for the count to
/// say, with names that stay in their directory and are not too long, and
/// together of at most 64 GiB.
pub proof fn law_which_files_can_be_bundled(files: Seq<(Seq<char>, Seq<u8>)>)
    ensures
        encoded_bundle(files) is Ok <==> 1 <= files.len() <= 65535 && bundle_size(
            files,
            files.len() as int,
        ) <= 68_719_476_736 && forall|i: int|
            0 <= i < files.len() ==> is_bundle_name((#[trigger] files[i]).0) && crate::text::utf8(
                files[i].0,
            ).len() <= 65535,
        encoded_bundle(files) matches Ok(bytes) ==> bytes == bundle(files),
{
    let n = files.len() as int;
    if bundle_fault(files, 0) is None {
        lemma_bundle_faultless(files, 0);
    }
    if bundle_size(files, n) <= 68_719_476_736 && forall|i: int|
        0 <= i < files.len() ==> is_bundle_name((#[trigger] files[i]).0) && crate::text::utf8(
            files[i].0,
        ).len() <= 65535 {
        lemma_bundle_no_fault(files, 0);
    }
}

proof fn lemma_bundle_faultless(files: Seq<(Seq<char>, Seq<u8>)>, i: int)
    requires
        0 <= i,
        bundle_fault(files, i) is None,
    ensures
        forall|j: int|
            i <= j < files.len() ==> is_bundle_name((#[trigger] files[j]).0) && crate::text::utf8(
                files[j].0,
            ).len() <= 65535,
        i < files.len() ==> bundle_size(files, files.len() as int) <= 68_719_476_736,
    decreases files.len() - i,
{
    if i < files.len() {
        lemma_bundle_faultless(files, i + 1);
    }
}

proof fn lemma_bundle_no_fault(files: Seq<(Seq<char>, Seq<u8>)>, i: int)
    requires
        0 <= i,
        bundle_size(files, files.len() as int) <= 68_719_476_736,
        forall|j: int|
            0 <= j < files.len() ==> is_bundle_name((#[trigger] files[j]).0) && crate::text::utf8(
                files[j].0,
            ).len() <= 65535,
    ensures
        bundle_fault(files, i) is None,
    decreases files.len() - i,
{
    if i < files.len() {
        lemma_bundle_take(files, files.len() as int, i + 1);
        assert(is_bundle_name(files[i].0));
        lemma_bundle_no_fault(files, i + 1);
    }
}

/// The size of a bundle is that of the contents of its files.
pub proof fn law_sizes_of_bundles(files: Seq<(Seq<char>, Seq<u8>)>, name: Seq<char>, bytes: Seq<u8>)
    ensures
        bundle_size(files, 0) == 0,
        bundle_size(files.push((name, bytes)), (files.len() + 1) as int) == bundle_size(
            files,
            files.len() as int,
        ) + bytes.len(),
{
    lemma_bundle_size_push(files, (name, bytes), files.len() as int);
}

/// A name stays in its directory exactly if it is not empty, not the directory
/// itself or the one above, and holds no slash of either kind.
pub proof fn law_names_that_stay(name: Seq<char>)
    ensures
        is_bundle_name(name) <==> name.len() > 0 && name != seq!['.'] && name != seq!['.', '.']
            && forall|i: int| 0 <= i < name.len() ==> #[trigger] name[i] != '/' && name[i] != '\\',
{
    reveal_strlit(".");
    reveal_strlit("..");
    assert("."@ =~= seq!['.']);
    assert(".."@ =~= seq!['.', '.']);
    if forall|i: int| 0 <= i < name.len() ==> #[trigger] name[i] != '/' && name[i] != '\\' {
        if name.contains('/') {
            let i = choose|i: int| 0 <= i < name.len() && name[i] == '/';
            assert(name[i] != '/');
        }
        if name.contains('\\') {
            let i = choose|i: int| 0 <= i < name.len() && name[i] == '\\';
            assert(name[i] != '/');
        }
    }
}

} // verus!
