//! File names, paths and file URIs as the clipboard exchanges them.
use vstd::prelude::*;

use crate::clipboard::{ClipboardError, ClipboardFault};
use crate::text::{
    char_range, has_char, push_decimal, same_chars, same_text, spells, split_at_each, split_lines,
    text_from_utf8, to_chars, to_text, trim_chars,
};
use crate::wire::copy_range;

verus! {

// Names.

/// A name that stays inside its directory on every system.
pub open spec fn is_file_name(name: Seq<char>) -> bool {
    &&& name.len() > 0
    &&& name != "."@
    &&& name != ".."@
    &&& !name.contains('/')
    &&& !name.contains('\\')
    &&& !name.contains('\0')
}

pub fn validate_file_name(name: &str) -> (result: Result<(), ClipboardError>)
    ensures
        crate::clipboard::reports(
            result,
            if is_file_name(name@) {
                None
            } else {
                Some(ClipboardFault::InvalidFileBundle)
            },
        ),
{
    let chars = to_chars(name);
    if chars.len() == 0 || spells(chars.as_slice(), ".") || spells(chars.as_slice(), "..")
        || has_char(chars.as_slice(), '/') || has_char(chars.as_slice(), '\\') || has_char(
        chars.as_slice(),
        '\0',
    ) {
        Err(ClipboardError::InvalidFileBundle)
    } else {
        Ok(())
    }
}

/// The named steps of the first pieces of a path: what stands between slashes,
/// without empty pieces and pieces that stay in place.
pub open spec fn steps(pieces: Seq<Seq<char>>) -> Seq<Seq<char>>
    decreases pieces.len(),
{
    if pieces.len() == 0 {
        Seq::empty()
    } else if pieces.last().len() == 0 || pieces.last() == "."@ {
        steps(pieces.drop_last())
    } else {
        steps(pieces.drop_last()).push(pieces.last())
    }
}

/// The components of a path: a leading slash or dot counts as one of its own.
pub open spec fn components(path: Seq<char>) -> Seq<Seq<char>> {
    let pieces = crate::text::split(path, '/');
    let front = if path.len() > 0 && path[0] == '/' {
        seq!["/"@]
    } else if pieces[0] == "."@ {
        seq!["."@]
    } else {
        Seq::empty()
    };
    front + steps(pieces)
}

/// The last step of a path, unless it leads upwards.
pub open spec fn last_name(path: Seq<char>) -> Option<Seq<char>> {
    let found = steps(crate::text::split(path, '/'));
    if found.len() == 0 || found.last() == ".."@ {
        None
    } else {
        Some(found.last())
    }
}

fn steps_of(pieces: &Vec<Vec<char>>) -> (out: Vec<Vec<char>>)
    ensures
        crate::text::texts(out@) == steps(crate::text::texts(pieces@)),
{
    let ghost all = crate::text::texts(pieces@);
    let mut out: Vec<Vec<char>> = Vec::new();
    let mut i: usize = 0;
    assert(all.take(0) =~= Seq::<Seq<char>>::empty());
    assert(crate::text::texts(out@) =~= steps(all.take(0)));
    while i < pieces.len()
        invariant
            i <= pieces.len(),
            all == crate::text::texts(pieces@),
            crate::text::texts(out@) == steps(all.take(i as int)),
        decreases pieces.len() - i,
    {
        assert(all[i as int] == pieces@[i as int]@);
        assert(all.take(i + 1).drop_last() =~= all.take(i as int));
        let ghost before = crate::text::texts(out@);
        if pieces[i].len() > 0 && !spells(pieces[i].as_slice(), ".") {
            let piece = char_range(pieces[i].as_slice(), 0, pieces[i].len());
            let ghost added = piece@;
            assert(added =~= all[i as int]);
            out.push(piece);
            assert(crate::text::texts(out@) =~= before.push(added));
        }
        i = i + 1;
    }
    assert(all.take(i as int) =~= all);
    out
}

fn components_of(path: &str) -> (out: Vec<Vec<char>>)
    ensures
        crate::text::texts(out@) == components(path@),
{
    let chars = to_chars(path);
    let pieces = split_at_each(chars.as_slice(), '/');
    let ghost all = crate::text::texts(pieces@);
    let mut out: Vec<Vec<char>> = Vec::new();
    assert(all.len() > 0);
    assert(all[0] == pieces@[0]@);
    if chars.len() > 0 && chars[0] == '/' {
        out.push(to_chars("/"));
        assert(crate::text::texts(out@) =~= seq!["/"@]);
    } else if spells(pieces[0].as_slice(), ".") {
        out.push(to_chars("."));
        assert(crate::text::texts(out@) =~= seq!["."@]);
    } else {
        assert(crate::text::texts(out@) =~= Seq::<Seq<char>>::empty());
    }
    let ghost front = crate::text::texts(out@);
    let rest = steps_of(&pieces);
    let ghost more = crate::text::texts(rest@);
    let mut i: usize = 0;
    assert(front + more.take(0) =~= front);
    while i < rest.len()
        invariant
            i <= rest.len(),
            more == crate::text::texts(rest@),
            crate::text::texts(out@) == front + more.take(i as int),
        decreases rest.len() - i,
    {
        let piece = char_range(rest[i].as_slice(), 0, rest[i].len());
        let ghost added = piece@;
        let ghost before = crate::text::texts(out@);
        assert(added =~= more[i as int]);
        out.push(piece);
        assert(crate::text::texts(out@) =~= before.push(added));
        i = i + 1;
        assert(before.push(added) =~= front + more.take(i as int));
    }
    assert(more.take(i as int) =~= more);
    out
}

/// Whether a path lies under a directory, or is that directory.
pub open spec fn lies_under(path: Seq<char>, root: Seq<char>) -> bool {
    components(root).len() <= components(path).len() && components(path).take(
        components(root).len() as int,
    ) == components(root)
}

pub fn path_lies_under(path: &str, root: &str) -> (under: bool)
    ensures
        under == lies_under(path@, root@),
{
    let a = components_of(path);
    let b = components_of(root);
    let ghost x = crate::text::texts(a@);
    let ghost y = crate::text::texts(b@);
    if b.len() > a.len() {
        return false;
    }
    let mut i: usize = 0;
    while i < b.len()
        invariant
            i <= b.len() <= a.len(),
            x == crate::text::texts(a@),
            y == crate::text::texts(b@),
            x == components(path@),
            y == components(root@),
            forall|j: int| 0 <= j < i ==> x[j] == y[j],
        decreases b.len() - i,
    {
        assert(x[i as int] == a@[i as int]@ && y[i as int] == b@[i as int]@);
        if !same_chars(a[i].as_slice(), b[i].as_slice()) {
            assert(x.take(y.len() as int)[i as int] == x[i as int]);
            return false;
        }
        i = i + 1;
    }
    assert(x.take(y.len() as int) =~= y);
    true
}

/// The name under which a file is offered.
pub open spec fn offered_name(path: Seq<char>) -> Option<Seq<char>> {
    match last_name(path) {
        Some(name) if is_file_name(name) => Some(name),
        _ => None,
    }
}

pub fn safe_file_name(path: &str) -> (result: Result<String, ClipboardError>)
    ensures
        match result {
            Ok(name) => offered_name(path@) == Some(name@),
            Err(error) => offered_name(path@) is None && error@
                == ClipboardFault::InvalidFileBundle,
        },
{
    let pieces = split_at_each(to_chars(path).as_slice(), '/');
    let found = steps_of(&pieces);
    let ghost names = crate::text::texts(found@);
    if found.len() == 0 {
        return Err(ClipboardError::InvalidFileBundle);
    }
    let last: usize = found.len() - 1;
    assert(names[last as int] == found@[last as int]@);
    if spells(found[last].as_slice(), "..") {
        return Err(ClipboardError::InvalidFileBundle);
    }
    let name = to_text(found[last].as_slice());
    match validate_file_name(name.as_str()) {
        Ok(_) => Ok(name),
        Err(error) => Err(error),
    }
}

/// A path with one more component.
pub open spec fn path_joined(root: Seq<char>, name: Seq<char>) -> Seq<char> {
    if root.len() == 0 || root.last() == '/' {
        root + name
    } else {
        root.push('/') + name
    }
}

pub fn join_path(root: &str, name: &str) -> (path: String)
    ensures
        path@ == path_joined(root@, name@),
{
    let chars = to_chars(root);
    let mut path = root.to_owned();
    if chars.len() > 0 && chars[chars.len() - 1] != '/' {
        path.push('/');
    }
    path.push_str(name);
    path
}

// Names that do not clash.

/// Index of the last dot, or -1.
pub open spec fn last_dot(name: Seq<char>) -> int
    decreases name.len(),
{
    if name.len() == 0 {
        -1
    } else if name.last() == '.' {
        name.len() - 1
    } else {
        last_dot(name.drop_last())
    }
}

/// Where the extension begins: at the last dot, unless there is none or it
/// begins the name.
pub open spec fn extension_start(name: Seq<char>) -> int {
    if last_dot(name) > 0 {
        last_dot(name)
    } else {
        name.len() as int
    }
}

/// The names tried for a file: its own, then numbered ones from 2 on.
pub open spec fn candidate(name: Seq<char>, attempt: int) -> Seq<char> {
    let at = extension_start(name);
    if attempt == 0 {
        name
    } else {
        name.take(at) + " ("@ + crate::text::decimal((attempt + 1) as nat) + ")"@ + name.skip(at)
    }
}

/// Number of names that are tried.
pub const MAX_CANDIDATES: u32 = 9_999;

/// Whether a list holds a text.
pub open spec fn holds_text(list: Seq<String>, text: Seq<char>) -> bool {
    exists|i: int| 0 <= i < list.len() && (#[trigger] list[i])@ == text
}

fn list_has(list: &[String], text: &str) -> (found: bool)
    ensures
        found == holds_text(list@, text@),
{
    let mut i: usize = 0;
    while i < list.len()
        invariant
            i <= list.len(),
            forall|j: int| 0 <= j < i ==> (#[trigger] list@[j])@ != text@,
        decreases list.len() - i,
    {
        if same_text(list[i].as_str(), text) {
            assert(list@[i as int]@ == text@);
            return true;
        }
        i = i + 1;
    }
    false
}

proof fn lemma_last_dot(name: Seq<char>)
    ensures
        -1 <= last_dot(name) < name.len(),
    decreases name.len(),
{
    if name.len() > 0 {
        lemma_last_dot(name.drop_last());
    }
}

fn candidate_name(name: &str, attempt: u32) -> (text: String)
    requires
        attempt < MAX_CANDIDATES,
    ensures
        text@ == candidate(name@, attempt as int),
{
    if attempt == 0 {
        return name.to_owned();
    }
    let chars = to_chars(name);
    let mut end: usize = chars.len();
    assert(chars@.take(end as int) =~= chars@);
    while end > 0 && chars[end - 1] != '.'
        invariant
            end <= chars.len(),
            last_dot(chars@.take(end as int)) == last_dot(chars@),
        decreases end,
    {
        assert(chars@.take(end as int).drop_last() =~= chars@.take(end - 1));
        end = end - 1;
    }
    proof {
        lemma_last_dot(chars@);
    }
    let at: usize = if end > 1 {
        end - 1
    } else {
        chars.len()
    };
    let mut text = to_text(char_range(chars.as_slice(), 0, at).as_slice());
    text.push_str(" (");
    push_decimal(&mut text, attempt as u64 + 1);
    text.push_str(")");
    let extension = to_text(char_range(chars.as_slice(), at, chars.len()).as_slice());
    text.push_str(extension.as_str());
    assert(chars@.subrange(0, at as int) =~= name@.take(at as int));
    assert(chars@.subrange(at as int, chars@.len() as int) =~= name@.skip(at as int));
    assert(text@ =~= candidate(name@, attempt as int));
    text
}

/// The first candidate that is not occupied.
pub open spec fn first_free(name: Seq<char>, occupied: Seq<String>, attempt: int) -> Option<
    Seq<char>,
>
    decreases MAX_CANDIDATES - attempt,
{
    if attempt < 0 || attempt >= MAX_CANDIDATES {
        None
    } else if !holds_text(occupied, candidate(name, attempt)) {
        Some(candidate(name, attempt))
    } else {
        first_free(name, occupied, attempt + 1)
    }
}

/// Chooses a name in a directory that does not clash with the occupied ones.
pub fn unique_destination_path(name: &str, occupied: &[String]) -> (result: Result<
    String,
    ClipboardError,
>)
    ensures
        match result {
            Ok(chosen) => is_file_name(name@) && first_free(name@, occupied@, 0) == Some(chosen@)
                && !holds_text(occupied@, chosen@),
            Err(error) => if is_file_name(name@) {
                first_free(name@, occupied@, 0) is None && error@ == ClipboardFault::Command(
                    "could not choose a non-conflicting file name"@,
                )
            } else {
                error@ == ClipboardFault::InvalidFileBundle
            },
        },
{
    match validate_file_name(name) {
        Ok(_) => {},
        Err(error) => {
            return Err(error);
        },
    }
    let mut attempt: u32 = 0;
    while attempt < MAX_CANDIDATES
        invariant
            attempt <= MAX_CANDIDATES,
            is_file_name(name@),
            first_free(name@, occupied@, attempt as int) == first_free(name@, occupied@, 0),
        decreases MAX_CANDIDATES - attempt,
    {
        let chosen = candidate_name(name, attempt);
        if !list_has(occupied, chosen.as_str()) {
            return Ok(chosen);
        }
        attempt = attempt + 1;
    }
    Err(ClipboardError::Command("could not choose a non-conflicting file name".to_owned()))
}

/// Every candidate of a safe name is a safe name.
pub proof fn law_candidates_are_safe(name: Seq<char>, attempt: int)
    requires
        is_file_name(name),
        0 <= attempt < MAX_CANDIDATES,
    ensures
        is_file_name(candidate(name, attempt)),
{
    if attempt > 0 {
        let at = extension_start(name);
        lemma_last_dot(name);
        let digits = crate::text::decimal((attempt + 1) as nat);
        let text = candidate(name, attempt);
        crate::text::lemma_decimal((attempt + 1) as nat);
        reveal_strlit(" (");
        reveal_strlit(")");
        reveal_strlit(".");
        reveal_strlit("..");
        assert(" ("@.len() == 2 && ")"@.len() == 1 && "."@.len() == 1 && ".."@.len() == 2);
        assert forall|i: int| 0 <= i < text.len() implies text[i] != '/' && text[i] != '\\'
            && text[i] != '\0' by {
            let n = digits.len() as int;
            if i < at {
                assert(text[i] == name[i]);
                assert(name.contains(name[i]));
            } else if i < at + 2 {
                assert(text[i] == " ("@[i - at]);
            } else if i < at + 2 + n {
                assert(text[i] == digits[i - at - 2]);
                assert(crate::text::is_digit(digits[i - at - 2]));
            } else if i == at + 2 + n {
                assert(text[i] == ')');
            } else {
                assert(text[i] == name[i - 3 - n]);
                assert(name.contains(name[i - 3 - n]));
            }
        }
    }
}

// Percent encoding.

/// Bytes that stand for themselves in a file URI.
pub open spec fn is_unreserved(byte: u8) -> bool {
    65 <= byte <= 90 || 97 <= byte <= 122 || 48 <= byte <= 57 || byte == 47 || byte == 45 || byte
        == 95 || byte == 46 || byte == 126
}

/// An upper-case hexadecimal digit.
pub open spec fn hex_upper(v: nat) -> u8 {
    if v < 10 {
        (48 + v) as u8
    } else {
        (55 + v) as u8
    }
}

pub open spec fn encoded_byte(byte: u8) -> Seq<u8> {
    if is_unreserved(byte) {
        seq![byte]
    } else {
        seq![37u8, hex_upper((byte / 16) as nat), hex_upper((byte % 16) as nat)]
    }
}

/// Bytes with the reserved ones written as `%XX`.
pub open spec fn percent_encoded(bytes: Seq<u8>) -> Seq<u8>
    decreases bytes.len(),
{
    if bytes.len() == 0 {
        Seq::empty()
    } else {
        encoded_byte(bytes[0]) + percent_encoded(bytes.skip(1))
    }
}

/// ASCII bytes as text.
pub open spec fn ascii_text(bytes: Seq<u8>) -> Seq<char> {
    bytes.map_values(|byte: u8| byte as char)
}

pub open spec fn is_hex_byte(byte: u8) -> bool {
    48 <= byte <= 57 || 97 <= byte <= 102 || 65 <= byte <= 70
}

pub open spec fn hex_byte_value(byte: u8) -> nat {
    if byte <= 57 {
        (byte - 48) as nat
    } else if byte >= 97 {
        (byte - 87) as nat
    } else {
        (byte - 55) as nat
    }
}

/// A byte before what follows, if anything does.
pub open spec fn prepended(front: Seq<u8>, rest: Option<Seq<u8>>) -> Option<Seq<u8>> {
    match rest {
        Some(tail) => Some(front + tail),
        None => None,
    }
}

/// The bytes that percent-encoded bytes stand for.
pub open spec fn percent_decoded(source: Seq<u8>) -> Option<Seq<u8>>
    decreases source.len(),
{
    if source.len() == 0 {
        Some(Seq::empty())
    } else if source[0] != 37 {
        prepended(seq![source[0]], percent_decoded(source.skip(1)))
    } else if source.len() < 3 || !is_hex_byte(source[1]) || !is_hex_byte(source[2]) {
        None
    } else {
        prepended(
            seq![(hex_byte_value(source[1]) * 16 + hex_byte_value(source[2])) as u8],
            percent_decoded(source.skip(3)),
        )
    }
}

/// The text that percent-encoded text stands for.
pub open spec fn text_decoded(value: Seq<char>) -> Option<Seq<char>> {
    match percent_decoded(crate::text::utf8(value)) {
        Some(bytes) if vstd::utf8::valid_utf8(bytes) => Some(vstd::utf8::decode_utf8(bytes)),
        _ => None,
    }
}

fn nibble(byte: u8) -> (value: Option<u8>)
    ensures
        match value {
            Some(v) => is_hex_byte(byte) && v == hex_byte_value(byte) && v < 16,
            None => !is_hex_byte(byte),
        },
{
    if 48 <= byte && byte <= 57 {
        Some(byte - 48)
    } else if 97 <= byte && byte <= 102 {
        Some(byte - 87)
    } else if 65 <= byte && byte <= 70 {
        Some(byte - 55)
    } else {
        None
    }
}

pub fn percent_decode(value: &str) -> (result: Result<String, ClipboardError>)
    ensures
        match result {
            Ok(text) => text_decoded(value@) == Some(text@),
            Err(error) => text_decoded(value@) is None && error@
                == ClipboardFault::InvalidFileBundle,
        },
{
    let source = value.as_bytes();
    let mut bytes: Vec<u8> = Vec::new();
    let mut index: usize = 0;
    assert(source@.skip(0) =~= source@);
    assert(prepended(bytes@, percent_decoded(source@)) == percent_decoded(source@)) by {
        if let Some(tail) = percent_decoded(source@) {
            assert(bytes@ + tail =~= tail);
        }
    }
    while index < source.len()
        invariant
            index <= source.len(),
            source@ == crate::text::utf8(value@),
            prepended(bytes@, percent_decoded(source@.skip(index as int))) == percent_decoded(
                source@,
            ),
        decreases source.len() - index,
    {
        let ghost rest = source@.skip(index as int);
        let ghost before = bytes@;
        if source[index] == 37 {
            if source.len() - index < 3 {
                return Err(ClipboardError::InvalidFileBundle);
            }
            assert(rest[1] == source@[index + 1] && rest[2] == source@[index + 2]);
            let high: u8 = match nibble(source[index + 1]) {
                Some(v) => v,
                None => {
                    return Err(ClipboardError::InvalidFileBundle);
                },
            };
            let low: u8 = match nibble(source[index + 2]) {
                Some(v) => v,
                None => {
                    return Err(ClipboardError::InvalidFileBundle);
                },
            };
            bytes.push(high * 16 + low);
            proof {
                assert(rest.skip(3) =~= source@.skip(index + 3));
                let unit = seq![(high * 16 + low) as u8];
                assert(bytes@ =~= before + unit);
                if let Some(tail) = percent_decoded(rest.skip(3)) {
                    assert(before + unit + tail =~= before + (unit + tail));
                }
            }
            index = index + 3;
        } else {
            bytes.push(source[index]);
            proof {
                assert(rest.skip(1) =~= source@.skip(index + 1));
                let unit = seq![rest[0]];
                assert(bytes@ =~= before + unit);
                if let Some(tail) = percent_decoded(rest.skip(1)) {
                    assert(before + unit + tail =~= before + (unit + tail));
                }
            }
            index = index + 1;
        }
    }
    proof {
        assert(source@.skip(index as int) =~= Seq::<u8>::empty());
        assert(bytes@ + Seq::<u8>::empty() =~= bytes@);
    }
    match text_from_utf8(bytes) {
        Some(text) => Ok(text),
        None => Err(ClipboardError::InvalidFileBundle),
    }
}

fn upper_digit(v: u8) -> (digit: char)
    requires
        v < 16,
    ensures
        digit == hex_upper(v as nat) as char,
{
    if v < 10 {
        (48 + v) as char
    } else {
        (55 + v) as char
    }
}

pub fn percent_encode_path(path: &str) -> (encoded: String)
    ensures
        encoded@ == ascii_text(percent_encoded(crate::text::utf8(path@))),
{
    let bytes = path.as_bytes();
    let mut encoded = String::new();
    let mut i: usize = 0;
    assert(bytes@.skip(0) =~= bytes@);
    assert(encoded@ + ascii_text(percent_encoded(bytes@)) =~= ascii_text(percent_encoded(bytes@)));
    while i < bytes.len()
        invariant
            i <= bytes.len(),
            bytes@ == crate::text::utf8(path@),
            encoded@ + ascii_text(percent_encoded(bytes@.skip(i as int))) == ascii_text(
                percent_encoded(bytes@),
            ),
        decreases bytes.len() - i,
    {
        let byte: u8 = bytes[i];
        let ghost before = encoded@;
        let ghost rest = bytes@.skip(i as int);
        if (65 <= byte && byte <= 90) || (97 <= byte && byte <= 122) || (48 <= byte && byte <= 57)
            || byte == 47 || byte == 45 || byte == 95 || byte == 46 || byte == 126 {
            encoded.push(byte as char);
        } else {
            encoded.push('%');
            encoded.push(upper_digit(byte / 16));
            encoded.push(upper_digit(byte % 16));
        }
        proof {
            assert(rest.skip(1) =~= bytes@.skip(i + 1));
            assert(encoded@ =~= before + ascii_text(encoded_byte(byte)));
            assert(ascii_text(encoded_byte(byte) + percent_encoded(rest.skip(1))) =~= ascii_text(
                encoded_byte(byte),
            ) + ascii_text(percent_encoded(rest.skip(1))));
            assert(encoded@ + ascii_text(percent_encoded(rest.skip(1))) =~= before + ascii_text(
                percent_encoded(rest),
            ));
        }
        i = i + 1;
    }
    proof {
        assert(bytes@.skip(i as int) =~= Seq::<u8>::empty());
        assert(encoded@ + ascii_text(percent_encoded(Seq::<u8>::empty())) =~= encoded@);
    }
    encoded
}

proof fn lemma_percent_round_trip(bytes: Seq<u8>)
    ensures
        percent_decoded(percent_encoded(bytes)) == Some(bytes),
        forall|i: int|
            0 <= i < percent_encoded(bytes).len() ==> #[trigger] percent_encoded(bytes)[i] < 128,
    decreases bytes.len(),
{
    if bytes.len() == 0 {
        assert(bytes =~= Seq::<u8>::empty());
    } else {
        let byte = bytes[0];
        let rest = percent_encoded(bytes.skip(1));
        let all = percent_encoded(bytes);
        lemma_percent_round_trip(bytes.skip(1));
        assert(seq![byte] + bytes.skip(1) =~= bytes);
        if is_unreserved(byte) {
            assert(all.skip(1) =~= rest);
            assert(all[0] == byte);
        } else {
            assert(all.skip(3) =~= rest);
            assert(all[0] == 37);
            assert(all[1] == hex_upper((byte / 16) as nat));
            assert(all[2] == hex_upper((byte % 16) as nat));
        }
    }
}

proof fn lemma_ascii_bytes(bytes: Seq<u8>)
    requires
        forall|i: int| 0 <= i < bytes.len() ==> #[trigger] bytes[i] < 128,
    ensures
        crate::text::utf8(ascii_text(bytes)) == bytes,
{
    let text = ascii_text(bytes);
    assert(vstd::utf8::is_ascii_chars(text)) by {
        assert forall|i: int| 0 <= i < text.len() implies '\0' <= #[trigger] text[i] <= '\u{7f}' by {
            assert(bytes[i] < 128);
        }
    }
    vstd::utf8::is_ascii_chars_encode_utf8(text);
    assert(crate::text::utf8(text) =~= bytes);
}

/// Decoding an encoded path gives the path back.
pub proof fn law_percent_round_trip(path: Seq<char>)
    ensures
        text_decoded(ascii_text(percent_encoded(crate::text::utf8(path)))) == Some(path),
{
    let bytes = crate::text::utf8(path);
    lemma_percent_round_trip(bytes);
    lemma_ascii_bytes(percent_encoded(bytes));
    crate::text::lemma_utf8_round_trip(path);
}

// File URIs.

pub open spec fn starts_with(s: Seq<char>, prefix: Seq<char>) -> bool {
    s.len() >= prefix.len() && s.take(prefix.len() as int) == prefix
}

fn strip_prefix(chars: &[char], prefix: &str) -> (rest: Option<Vec<char>>)
    ensures
        match rest {
            Some(rest) => starts_with(chars@, prefix@) && rest@ == chars@.skip(
                prefix@.len() as int,
            ),
            None => !starts_with(chars@, prefix@),
        },
{
    let wanted = to_chars(prefix);
    if chars.len() < wanted.len() {
        return None;
    }
    let front = char_range(chars, 0, wanted.len());
    assert(front@ =~= chars@.take(wanted@.len() as int));
    if !same_chars(front.as_slice(), wanted.as_slice()) {
        return None;
    }
    let rest = char_range(chars, wanted.len(), chars.len());
    assert(rest@ =~= chars@.skip(wanted@.len() as int));
    Some(rest)
}

/// The encoded path in a URI of a local file.
pub open spec fn local_part(uri: Seq<char>) -> Option<Seq<char>> {
    let rest = uri.skip("file://"@.len() as int);
    if !starts_with(uri, "file://"@) {
        None
    } else if rest.len() > 0 && rest[0] == '/' {
        Some(rest)
    } else if starts_with(rest, "localhost/"@) {
        Some(seq!['/'] + rest.skip("localhost/"@.len() as int))
    } else {
        None
    }
}

/// The path of a local file URI.
pub open spec fn uri_path(uri: Seq<char>) -> Result<Seq<char>, ClipboardFault> {
    match local_part(uri) {
        None => Err(ClipboardFault::NoRegularFiles),
        Some(part) => match text_decoded(part) {
            Some(path) if path.len() > 0 && path[0] == '/' && !path.contains('\0') => Ok(path),
            _ => Err(ClipboardFault::InvalidFileBundle),
        },
    }
}

pub fn file_uri_to_path(uri: &str) -> (result: Result<String, ClipboardError>)
    ensures
        match result {
            Ok(path) => uri_path(uri@) == Ok::<Seq<char>, ClipboardFault>(path@),
            Err(error) => uri_path(uri@) == Err::<Seq<char>, ClipboardFault>(error@),
        },
{
    let chars = to_chars(uri);
    let rest = match strip_prefix(chars.as_slice(), "file://") {
        Some(rest) => rest,
        None => {
            return Err(ClipboardError::NoRegularFiles);
        },
    };
    let mut part = String::new();
    if rest.len() > 0 && rest[0] == '/' {
        part = to_text(rest.as_slice());
    } else {
        match strip_prefix(rest.as_slice(), "localhost/") {
            Some(tail) => {
                part.push('/');
                part.push_str(to_text(tail.as_slice()).as_str());
                assert(part@ =~= seq!['/'] + tail@);
            },
            None => {
                return Err(ClipboardError::NoRegularFiles);
            },
        }
    }
    let path = match percent_decode(part.as_str()) {
        Ok(path) => path,
        Err(error) => {
            return Err(error);
        },
    };
    let decoded = to_chars(path.as_str());
    if decoded.len() == 0 || decoded[0] != '/' || has_char(decoded.as_slice(), '\0') {
        return Err(ClipboardError::InvalidFileBundle);
    }
    Ok(path)
}

/// The URI of a local file.
pub open spec fn file_uri(path: Seq<char>) -> Seq<char> {
    "file://"@ + ascii_text(percent_encoded(crate::text::utf8(path)))
}

/// The URI of an absolute path leads back to the path.
pub proof fn law_file_uri_round_trip(path: Seq<char>)
    requires
        path.len() > 0,
        path[0] == '/',
        !path.contains('\0'),
    ensures
        uri_path(file_uri(path)) == Ok::<Seq<char>, ClipboardFault>(path),
{
    let bytes = crate::text::utf8(path);
    let encoded = percent_encoded(bytes);
    let rest = ascii_text(encoded);
    let uri = file_uri(path);
    assert(uri.take("file://"@.len() as int) =~= "file://"@);
    assert(uri.skip("file://"@.len() as int) =~= rest);
    vstd::utf8::encode_utf8_first_scalar(path);
    lemma_first_byte(path);
    assert(encoded[0] == 47);
    law_percent_round_trip(path);
}

/// A text that begins with a slash begins with the byte for it.
proof fn lemma_first_byte(path: Seq<char>)
    requires
        path.len() > 0,
        path[0] == '/',
    ensures
        crate::text::utf8(path).len() > 0,
        crate::text::utf8(path)[0] == 47,
        percent_encoded(crate::text::utf8(path)).len() > 0,
        percent_encoded(crate::text::utf8(path))[0] == 47,
{
    let bytes = crate::text::utf8(path);
    assert(vstd::utf8::encode_utf8(path) == vstd::utf8::encode_scalar('/' as u32)
        + vstd::utf8::encode_utf8(path.drop_first()));
    assert(vstd::utf8::encode_scalar('/' as u32) =~= seq![47u8]) by {
        assert((47u32 & 0x7F) as u8 == 47u8) by (bit_vector);
    }
    assert(bytes[0] == 47);
    assert(encoded_byte(47) =~= seq![47u8]);
}

/// The paths in the first lines of a URI list: blank lines and comments are
/// skipped, and one that is not a local file spoils the list.
pub open spec fn listed_paths(lines: Seq<Seq<char>>) -> Result<Seq<Seq<char>>, ClipboardFault>
    decreases lines.len(),
{
    if lines.len() == 0 {
        Ok(Seq::empty())
    } else {
        let line = crate::text::trimmed(lines.last());
        match listed_paths(lines.drop_last()) {
            Err(fault) => Err(fault),
            Ok(before) => if line.len() == 0 || line[0] == '#' {
                Ok(before)
            } else {
                match uri_path(line) {
                    Ok(path) => Ok(before.push(path)),
                    Err(fault) => Err(fault),
                }
            },
        }
    }
}

pub open spec fn uri_list_paths(bytes: Seq<u8>) -> Result<Seq<Seq<char>>, ClipboardFault> {
    if vstd::utf8::valid_utf8(bytes) {
        listed_paths(crate::text::lines(vstd::utf8::decode_utf8(bytes)))
    } else {
        Err(ClipboardFault::InvalidFileBundle)
    }
}

/// The contents of a list of texts.
pub open spec fn strings(list: Seq<String>) -> Seq<Seq<char>> {
    list.map_values(|text: String| text@)
}

/// A fault in an earlier line is the fault of the list.
proof fn lemma_listed_fault(lines: Seq<Seq<char>>, k: int)
    requires
        0 <= k <= lines.len(),
        listed_paths(lines.take(k)) is Err,
    ensures
        listed_paths(lines) == listed_paths(lines.take(k)),
    decreases lines.len(),
{
    if k == lines.len() {
        assert(lines.take(k) =~= lines);
    } else {
        assert(lines.drop_last().take(k) =~= lines.take(k));
        lemma_listed_fault(lines.drop_last(), k);
    }
}

/// The local paths in a URI list.
pub fn paths_from_uri_list(uri_list: &[u8]) -> (result: Result<Vec<String>, ClipboardError>)
    ensures
        match result {
            Ok(paths) => uri_list_paths(uri_list@) == Ok::<Seq<Seq<char>>, ClipboardFault>(
                strings(paths@),
            ),
            Err(error) => uri_list_paths(uri_list@) == Err::<Seq<Seq<char>>, ClipboardFault>(
                error@,
            ),
        },
{
    assert(uri_list@.subrange(0, uri_list@.len() as int) =~= uri_list@);
    let text = match text_from_utf8(copy_range(uri_list, 0, uri_list.len())) {
        Some(text) => text,
        None => {
            return Err(ClipboardError::InvalidFileBundle);
        },
    };
    let all = split_lines(to_chars(text.as_str()).as_slice());
    let ghost lines = crate::text::texts(all@);
    let mut paths: Vec<String> = Vec::new();
    let mut i: usize = 0;
    assert(lines.take(0) =~= Seq::<Seq<char>>::empty());
    assert(strings(paths@) =~= Seq::<Seq<char>>::empty());
    while i < all.len()
        invariant
            i <= all.len(),
            lines == crate::text::texts(all@),
            uri_list_paths(uri_list@) == listed_paths(lines),
            listed_paths(lines.take(i as int)) == Ok::<Seq<Seq<char>>, ClipboardFault>(
                strings(paths@),
            ),
        decreases all.len() - i,
    {
        assert(lines[i as int] == all@[i as int]@);
        assert(lines.take(i + 1).drop_last() =~= lines.take(i as int));
        let line = trim_chars(all[i].as_slice());
        if line.len() > 0 && line[0] != '#' {
            let ghost before = strings(paths@);
            match file_uri_to_path(to_text(line.as_slice()).as_str()) {
                Ok(path) => {
                    let ghost added = path@;
                    paths.push(path);
                    assert(strings(paths@) =~= before.push(added));
                },
                Err(error) => {
                    proof {
                        lemma_listed_fault(lines, i + 1);
                    }
                    return Err(error);
                },
            }
        }
        i = i + 1;
    }
    assert(lines.take(i as int) =~= lines);
    Ok(paths)
}

/// The URI list of paths: one URI on each line.
pub open spec fn uri_list_text(paths: Seq<Seq<char>>) -> Seq<char>
    decreases paths.len(),
{
    if paths.len() == 0 {
        Seq::empty()
    } else {
        uri_list_text(paths.drop_last()) + file_uri(paths.last()) + seq!['\n']
    }
}

pub fn uri_list(paths: &[String]) -> (text: String)
    ensures
        text@ == uri_list_text(strings(paths@)),
{
    let ghost all = strings(paths@);
    let mut text = String::new();
    let mut i: usize = 0;
    assert(all.take(0) =~= Seq::<Seq<char>>::empty());
    while i < paths.len()
        invariant
            i <= paths.len(),
            all == strings(paths@),
            text@ == uri_list_text(all.take(i as int)),
        decreases paths.len() - i,
    {
        let ghost before = text@;
        text.push_str("file://");
        text.push_str(percent_encode_path(paths[i].as_str()).as_str());
        text.push('\n');
        assert(all[i as int] == paths@[i as int]@);
        assert(all.take(i + 1).drop_last() =~= all.take(i as int));
        assert(text@ =~= before + file_uri(all[i as int]) + seq!['\n']);
        i = i + 1;
    }
    assert(all.take(i as int) =~= all);
    text
}

/// A name can be used exactly if it is not empty, not the directory itself or
/// the one above it, and holds no slash of either kind and no NUL.
pub proof fn law_usable_names(name: Seq<char>)
    ensures
        is_file_name(name) <==> name.len() > 0 && name != seq!['.'] && name != seq!['.', '.']
            && forall|i: int|
            0 <= i < name.len() ==> #[trigger] name[i] != '/' && name[i] != '\\' && name[i] != '\0',
{
    reveal_strlit(".");
    reveal_strlit("..");
    assert("."@ =~= seq!['.']);
    assert(".."@ =~= seq!['.', '.']);
    if forall|i: int|
        0 <= i < name.len() ==> #[trigger] name[i] != '/' && name[i] != '\\' && name[i] != '\0' {
        if name.contains('/') {
            let i = choose|i: int| 0 <= i < name.len() && name[i] == '/';
            assert(name[i] != '/');
        }
        if name.contains('\\') {
            let i = choose|i: int| 0 <= i < name.len() && name[i] == '\\';
            assert(name[i] != '/');
        }
        if name.contains('\0') {
            let i = choose|i: int| 0 <= i < name.len() && name[i] == '\0';
            assert(name[i] != '/');
        }
    }
}

/// Each piece of a path is a step, but for empty ones and single dots.
pub proof fn law_steps_are_pieces(a: Seq<Seq<char>>, b: Seq<Seq<char>>, piece: Seq<char>)
    ensures
        steps(a + b) == steps(a) + steps(b),
        steps(seq![piece]) == if piece.len() == 0 || piece == seq!['.'] {
            Seq::empty()
        } else {
            seq![piece]
        },
    decreases b.len(),
{
    reveal_strlit(".");
    assert("."@ =~= seq!['.']);
    assert(seq![piece].drop_last() =~= Seq::<Seq<char>>::empty());
    assert(steps(Seq::empty()) =~= Seq::<Seq<char>>::empty());
    assert(Seq::<Seq<char>>::empty().push(piece) =~= seq![piece]);
    if b.len() == 0 {
        assert(a + b =~= a);
        assert(steps(a) + steps(b) =~= steps(a));
    } else {
        assert((a + b).drop_last() =~= a + b.drop_last());
        assert((a + b).last() == b.last());
        law_steps_are_pieces(a, b.drop_last(), piece);
        assert(steps(a + b) =~= steps(a) + steps(b));
    }
}

proof fn lemma_split_last(s: Seq<char>, piece: Seq<char>, sep: char)
    requires
        !piece.contains(sep),
    ensures
        crate::text::split(s + seq![sep] + piece, sep) == crate::text::split(s, sep).push(piece),
        crate::text::split(s, sep).len() > 0,
    decreases s.len(),
{
    let all = s + seq![sep] + piece;
    let at = crate::text::find(s, sep);
    crate::text::lemma_find(s, sep);
    crate::text::lemma_find(piece, sep);
    if at < s.len() {
        assert forall|j: int| 0 <= j < at implies all[j] != sep by {
            assert(all[j] == s[j]);
        }
        crate::text::lemma_find_at(all, sep, at);
        let rest = s.skip(at + 1);
        lemma_split_last(rest, piece, sep);
        assert(all.take(at) =~= s.take(at));
        assert(all.skip(at + 1) =~= rest + seq![sep] + piece);
        assert(crate::text::split(all, sep) =~= crate::text::split(s, sep).push(piece));
    } else {
        assert forall|j: int| 0 <= j < s.len() implies all[j] != sep by {
            assert(all[j] == s[j]);
        }
        crate::text::lemma_find_at(all, sep, s.len() as int);
        assert(all.take(s.len() as int) =~= s);
        assert(all.skip(s.len() as int + 1) =~= piece);
        assert(crate::text::split(piece, sep) =~= seq![piece]);
        assert(crate::text::split(all, sep) =~= crate::text::split(s, sep).push(piece));
    }
}

/// A usable name joined to a directory is one component more than the directory,
/// lies under it, and is the name under which the file is offered.
pub proof fn law_joined_names_lie_under(root: Seq<char>, name: Seq<char>)
    requires
        root.len() > 0,
        root.last() != '/',
        is_file_name(name),
    ensures
        path_joined(root, name) == root + seq!['/'] + name,
        components(path_joined(root, name)) == components(root).push(name),
        lies_under(path_joined(root, name), root),
        lies_under(root, root),
        !lies_under(root, path_joined(root, name)),
        last_name(path_joined(root, name)) == Some(name),
        offered_name(path_joined(root, name)) == Some(name),
{
    let path = path_joined(root, name);
    assert(path =~= root + seq!['/'] + name);
    lemma_split_last(root, name, '/');
    let pieces = crate::text::split(root, '/');
    law_usable_names(name);
    law_steps_are_pieces(pieces, seq![name], name);
    assert(pieces.push(name) =~= pieces + seq![name]);
    assert(pieces.push(name)[0] == pieces[0]);
    assert(path[0] == root[0]);
    assert(steps(pieces) + seq![name] =~= steps(pieces).push(name));
    assert(components(path) =~= components(root).push(name));
    let n = components(root).len() as int;
    assert(components(path).take(n) =~= components(root));
    assert(components(root).take(n) =~= components(root));
    reveal_strlit("..");
    assert(".."@ =~= seq!['.', '.']);
}

/// A path lies under a directory exactly if it goes through all of the
/// directory's components first.
pub proof fn law_lying_under(path: Seq<char>, root: Seq<char>)
    ensures
        lies_under(path, root) <==> components(root).len() <= components(path).len() && forall|
            i: int,
        |
            0 <= i < components(root).len() ==> components(path)[i] == #[trigger] components(
                root,
            )[i],
{
    let a = components(path);
    let b = components(root);
    if b.len() <= a.len() {
        let t = a.take(b.len() as int);
        if t == b {
            assert forall|i: int| 0 <= i < b.len() implies a[i] == #[trigger] b[i] by {
                assert(t[i] == b[i]);
            }
        } else if forall|i: int| 0 <= i < b.len() ==> a[i] == #[trigger] b[i] {
            assert(t =~= b);
        }
    }
}

/// The components of a path are its steps, behind a slash if it is absolute and
/// behind a dot if it begins with one.
pub proof fn law_components_of_paths(path: Seq<char>)
    ensures
        ({
            let pieces = crate::text::split(path, '/');
            &&& path.len() > 0 && path[0] == '/' ==> components(path) == seq![seq!['/']] + steps(
                pieces,
            )
            &&& !(path.len() > 0 && path[0] == '/') && pieces[0] == seq!['.'] ==> components(path)
                == seq![seq!['.']] + steps(pieces)
            &&& !(path.len() > 0 && path[0] == '/') && pieces[0] != seq!['.'] ==> components(path)
                == steps(pieces)
        }),
{
    reveal_strlit(".");
    reveal_strlit("/");
    assert("."@ =~= seq!['.']);
    assert("/"@ =~= seq!['/']);
    let pieces = crate::text::split(path, '/');
    assert(seq!["/"@] =~= seq![seq!['/']]);
    assert(seq!["."@] =~= seq![seq!['.']]);
    assert(Seq::<Seq<char>>::empty() + steps(pieces) =~= steps(pieces));
}

proof fn lemma_dot_of(stem: Seq<char>, extension: Seq<char>)
    requires
        !extension.contains('.'),
    ensures
        last_dot(stem + seq!['.'] + extension) == stem.len(),
        last_dot(extension) == -1,
    decreases extension.len(),
{
    let name = stem + seq!['.'] + extension;
    if extension.len() > 0 {
        let front = extension.drop_last();
        assert(extension.contains(extension.last()));
        assert(!front.contains('.')) by {
            if front.contains('.') {
                let i = choose|i: int| 0 <= i < front.len() && front[i] == '.';
                assert(extension[i] == '.');
            }
        }
        lemma_dot_of(stem, front);
        assert(name.last() == extension.last());
        assert(name.drop_last() =~= stem + seq!['.'] + front);
    } else {
        assert(name.last() == '.');
    }
}

/// The first name tried is the file's own. Later ones have a number from 2 on in
/// brackets, in front of the extension if there is one.
pub proof fn law_numbered_names(stem: Seq<char>, extension: Seq<char>, attempt: int)
    requires
        1 <= attempt,
        stem.len() > 0,
        !extension.contains('.'),
    ensures
        ({
            let number = seq![' ', '('] + crate::text::decimal((attempt + 1) as nat) + seq![')'];
            let name = stem + seq!['.'] + extension;
            &&& candidate(name, 0) == name
            &&& candidate(name, attempt) == stem + number + seq!['.'] + extension
            &&& candidate(extension, attempt) == extension + number
            &&& candidate(seq!['.'] + extension, attempt) == seq!['.'] + extension + number
        }),
{
    let number = seq![' ', '('] + crate::text::decimal((attempt + 1) as nat) + seq![')'];
    let name = stem + seq!['.'] + extension;
    lemma_dot_of(stem, extension);
    lemma_dot_of(Seq::empty(), extension);
    reveal_strlit(" (");
    reveal_strlit(")");
    assert(" ("@ =~= seq![' ', '(']);
    assert(")"@ =~= seq![')']);
    assert(name.take(stem.len() as int) =~= stem);
    assert(name.skip(stem.len() as int) =~= seq!['.'] + extension);
    assert(candidate(name, attempt) =~= stem + number + seq!['.'] + extension);
    assert(extension.take(extension.len() as int) =~= extension);
    assert(extension.skip(extension.len() as int) =~= Seq::<char>::empty());
    assert(candidate(extension, attempt) =~= extension + number);
    let hidden = seq!['.'] + extension;
    assert(Seq::<char>::empty() + seq!['.'] + extension =~= hidden);
    assert(hidden.take(hidden.len() as int) =~= hidden);
    assert(hidden.skip(hidden.len() as int) =~= Seq::<char>::empty());
    assert(candidate(hidden, attempt) =~= hidden + number);
}

/// The name that is chosen is the first one tried that nothing has; only if all
/// 9999 of them are taken there is none.
pub proof fn law_the_first_free_name_is_chosen(
    name: Seq<char>,
    occupied: Seq<String>,
    attempt: int,
)
    requires
        0 <= attempt <= 9999,
        attempt < 9999 ==> !holds_text(occupied, candidate(name, attempt)),
        forall|i: int| 0 <= i < attempt ==> holds_text(occupied, #[trigger] candidate(name, i)),
    ensures
        first_free(name, occupied, 0) == if attempt < 9999 {
            Some(candidate(name, attempt))
        } else {
            None
        },
{
    lemma_first_free(name, occupied, 0, attempt);
}

proof fn lemma_first_free(name: Seq<char>, occupied: Seq<String>, from: int, attempt: int)
    requires
        0 <= from <= attempt <= 9999,
        attempt < 9999 ==> !holds_text(occupied, candidate(name, attempt)),
        forall|i: int| from <= i < attempt ==> holds_text(occupied, #[trigger] candidate(name, i)),
    ensures
        first_free(name, occupied, from) == if attempt < 9999 {
            Some(candidate(name, attempt))
        } else {
            None
        },
    decreases attempt - from,
{
    if from < attempt {
        assert(holds_text(occupied, candidate(name, from)));
        lemma_first_free(name, occupied, from + 1, attempt);
    }
}

/// A list holds a text exactly if one of its texts is that text.
pub proof fn law_lists_hold_texts(list: Seq<String>, text: Seq<char>)
    ensures
        holds_text(list, text) <==> strings(list).contains(text),
{
    if holds_text(list, text) {
        let i = choose|i: int| 0 <= i < list.len() && (#[trigger] list[i])@ == text;
        assert(strings(list)[i] == text);
    }
    if strings(list).contains(text) {
        let i = choose|i: int| 0 <= i < strings(list).len() && strings(list)[i] == text;
        assert(list[i]@ == text);
    }
}

/// In a URI ASCII letters, digits, slashes, dashes, underscores, dots and tildes
/// stand for themselves. Every other byte is a percent sign and two capital
/// hexadecimal digits.
pub proof fn law_escaped_bytes(byte: u8, rest: Seq<u8>)
    ensures
        ({
            let kept = 'a' as u32 <= byte <= 'z' as u32 || 'A' as u32 <= byte <= 'Z' as u32 || '0'
                as u32 <= byte <= '9' as u32 || byte == '/' as u32 || byte == '-' as u32 || byte
                == '_' as u32 || byte == '.' as u32 || byte == '~' as u32;
            &&& is_unreserved(byte) <==> kept
            &&& kept ==> encoded_byte(byte) == seq![byte]
            &&& !kept ==> encoded_byte(byte).len() == 3 && encoded_byte(byte)[0] == '%' as u32 && 16
                * hex_byte_value(encoded_byte(byte)[1]) + hex_byte_value(encoded_byte(byte)[2])
                == byte
            &&& percent_encoded(seq![byte] + rest) == encoded_byte(byte) + percent_encoded(rest)
            &&& percent_encoded(Seq::empty()) == Seq::<u8>::empty()
        }),
{
    assert((seq![byte] + rest).skip(1) =~= rest);
    assert(percent_encoded(Seq::empty()) =~= Seq::<u8>::empty());
}

/// A percent sign and two hexadecimal digits of either case stand for the byte
/// with that value; without the digits the text is refused. Every other byte
/// stands for itself.
pub proof fn law_escapes_are_decoded(high: u8, low: u8, byte: u8, rest: Seq<u8>)
    requires
        byte != 37,
    ensures
        is_hex_byte(high) && is_hex_byte(low) ==> percent_decoded(seq![37u8, high, low] + rest)
            == match percent_decoded(rest) {
            Some(tail) => Some(
                seq![(16 * hex_byte_value(high) + hex_byte_value(low)) as u8] + tail,
            ),
            None => None,
        },
        !is_hex_byte(high) || !is_hex_byte(low) ==> percent_decoded(
            seq![37u8, high, low] + rest,
        ) is None,
        percent_decoded(seq![37u8, high]) is None,
        percent_decoded(seq![37u8]) is None,
        percent_decoded(seq![byte] + rest) == match percent_decoded(rest) {
            Some(tail) => Some(seq![byte] + tail),
            None => None,
        },
        percent_decoded(Seq::empty()) == Some(Seq::<u8>::empty()),
        is_hex_byte(high) <==> crate::text::is_hex_digit(high as char),
        is_hex_byte(high) ==> hex_byte_value(high) == crate::text::hex_value(high as char),
{
    let s = seq![37u8, high, low] + rest;
    assert(s.skip(3) =~= rest);
    assert(s[0] == 37 && s[1] == high && s[2] == low);
    assert((seq![byte] + rest).skip(1) =~= rest);
}

/// A local file is named with or without the host's own name; another host's
/// file, or another kind of URI, is none.
pub proof fn law_local_files(part: Seq<char>)
    ensures
        uri_path("file:///"@ + part) == uri_path("file://localhost/"@ + part),
        local_part("file:///"@ + part) == Some(seq!['/'] + part),
        local_part("file://localhost/"@ + part) == Some(seq!['/'] + part),
        !starts_with(part, "file://"@) ==> uri_path(part) == Err::<Seq<char>, ClipboardFault>(
            ClipboardFault::NoRegularFiles,
        ),
        part.len() > 0 && part[0] != '/' && !starts_with(part, "localhost/"@) ==> uri_path(
            "file://"@ + part,
        ) == Err::<Seq<char>, ClipboardFault>(ClipboardFault::NoRegularFiles),
{
    reveal_strlit("file://");
    reveal_strlit("file:///");
    reveal_strlit("localhost/");
    reveal_strlit("file://localhost/");
    let a = "file:///"@ + part;
    let b = "file://localhost/"@ + part;
    let c = "file://"@ + part;
    assert(a.take(7) =~= "file://"@);
    assert(a.skip(7) =~= seq!['/'] + part);
    assert(b.take(7) =~= "file://"@);
    let rest = b.skip(7);
    assert(rest =~= "localhost/"@ + part);
    assert(rest.take(10) =~= "localhost/"@);
    assert(rest.skip(10) =~= part);
    assert(c.take(7) =~= "file://"@);
    assert(c.skip(7) =~= part);
}

/// A path is taken from a URI exactly if it is absolute and holds no NUL.
pub proof fn law_paths_of_uris(uri: Seq<char>)
    ensures
        uri_path(uri) matches Ok(path) ==> path.len() > 0 && path[0] == '/' && !path.contains('\0')
            && (local_part(uri) matches Some(part) && text_decoded(part) == Some(path)),
        local_part(uri) matches Some(part) && (text_decoded(part) matches Some(path) && path.len()
            > 0 && path[0] == '/' && !path.contains('\0')) ==> uri_path(uri) is Ok,
{
}

proof fn lemma_visible(bytes: Seq<u8>)
    ensures
        forall|i: int|
            0 <= i < percent_encoded(bytes).len() ==> 33 <= #[trigger] percent_encoded(bytes)[i]
                <= 126,
    decreases bytes.len(),
{
    if bytes.len() > 0 {
        lemma_visible(bytes.skip(1));
        let front = encoded_byte(bytes[0]);
        let rest = percent_encoded(bytes.skip(1));
        assert forall|i: int| 0 <= i < percent_encoded(bytes).len() implies 33
            <= #[trigger] percent_encoded(bytes)[i] <= 126 by {
            if i >= front.len() {
                assert(percent_encoded(bytes)[i] == rest[i - front.len()]);
            } else {
                assert(percent_encoded(bytes)[i] == front[i]);
            }
        }
    }
}

proof fn lemma_uri_line(path: Seq<char>)
    requires
        path.len() > 0,
        path[0] == '/',
        !path.contains('\0'),
    ensures
        crate::text::is_line(file_uri(path)),
        crate::text::trimmed(file_uri(path)) == file_uri(path),
        file_uri(path).len() > 0,
        file_uri(path)[0] == 'f',
{
    let bytes = crate::text::utf8(path);
    let rest = ascii_text(percent_encoded(bytes));
    let uri = file_uri(path);
    lemma_visible(bytes);
    reveal_strlit("file://");
    assert forall|i: int| 0 <= i < uri.len() implies '!' <= #[trigger] uri[i] <= '~' by {
        if i >= 7 {
            assert(uri[i] == rest[i - 7]);
            assert(33 <= percent_encoded(bytes)[i - 7] <= 126);
        } else {
            assert(uri[i] == "file://"@[i]);
        }
    }
    crate::text::law_white_space(uri[0]);
    crate::text::law_white_space(uri.last());
    assert('!' <= uri[uri.len() - 1]);
    assert('!' <= uri[0]);
    crate::text::lemma_trimmed_is_stable(uri);
}

proof fn lemma_uri_lines(paths: Seq<Seq<char>>)
    requires
        forall|i: int|
            0 <= i < paths.len() ==> (#[trigger] paths[i]).len() > 0 && paths[i][0] == '/'
                && !paths[i].contains('\0'),
    ensures
        ({
            let uris = paths.map_values(|path: Seq<char>| file_uri(path));
            &&& uri_list_text(paths) == crate::text::unlines(uris)
            &&& listed_paths(uris) == Ok::<Seq<Seq<char>>, ClipboardFault>(paths)
            &&& forall|i: int| 0 <= i < uris.len() ==> crate::text::is_line(#[trigger] uris[i])
        }),
    decreases paths.len(),
{
    let uris = paths.map_values(|path: Seq<char>| file_uri(path));
    if paths.len() > 0 {
        let front = paths.drop_last();
        assert forall|i: int| 0 <= i < front.len() implies (#[trigger] front[i]).len() > 0
            && front[i][0] == '/' && !front[i].contains('\0') by {
            assert(front[i] == paths[i]);
        }
        lemma_uri_lines(front);
        assert(uris.drop_last() =~= front.map_values(|path: Seq<char>| file_uri(path)));
        let last = paths[paths.len() - 1];
        lemma_uri_line(last);
        law_file_uri_round_trip(last);
        assert(uris.last() == file_uri(last));
        assert(front.push(last) =~= paths);
        assert forall|i: int| 0 <= i < uris.len() implies crate::text::is_line(
            #[trigger] uris[i],
        ) by {
            if i < front.len() {
                assert(uris[i] == uris.drop_last()[i]);
            }
        }
    } else {
        assert(uri_list_text(paths) =~= crate::text::unlines(uris));
        assert(paths =~= Seq::<Seq<char>>::empty());
    }
}

/// The list that is written for absolute paths is read as these paths, in their
/// order.
pub proof fn law_uri_lists_round_trip(paths: Seq<Seq<char>>)
    requires
        forall|i: int|
            0 <= i < paths.len() ==> (#[trigger] paths[i]).len() > 0 && paths[i][0] == '/'
                && !paths[i].contains('\0'),
    ensures
        uri_list_paths(crate::text::utf8(uri_list_text(paths))) == Ok::<
            Seq<Seq<char>>,
            ClipboardFault,
        >(paths),
{
    let uris = paths.map_values(|path: Seq<char>| file_uri(path));
    lemma_uri_lines(paths);
    crate::text::lemma_utf8_round_trip(uri_list_text(paths));
    crate::text::lemma_lines_of_unlines(uris);
}

/// A line more adds its path. Lines that are empty or begin with a number sign
/// add none, and a line that is no local file spoils the list.
pub proof fn law_lists_are_read_line_by_line(lines: Seq<Seq<char>>, line: Seq<char>)
    ensures
        ({
            let text = crate::text::trimmed(line);
            match listed_paths(lines) {
                Err(fault) => listed_paths(lines.push(line)) == Err::<
                    Seq<Seq<char>>,
                    ClipboardFault,
                >(fault),
                Ok(before) => if text.len() == 0 || text[0] == '#' {
                    listed_paths(lines.push(line)) == Ok::<Seq<Seq<char>>, ClipboardFault>(before)
                } else {
                    match uri_path(text) {
                        Ok(path) => listed_paths(lines.push(line)) == Ok::<
                            Seq<Seq<char>>,
                            ClipboardFault,
                        >(before.push(path)),
                        Err(fault) => listed_paths(lines.push(line)) == Err::<
                            Seq<Seq<char>>,
                            ClipboardFault,
                        >(fault),
                    }
                },
            }
        }),
        listed_paths(Seq::empty()) == Ok::<Seq<Seq<char>>, ClipboardFault>(Seq::empty()),
{
    assert(lines.push(line).drop_last() =~= lines);
}

/// A name is joined to a path with just one slash between them, and to an empty
/// path with none.
pub proof fn law_one_slash_joins_names(root: Seq<char>, name: Seq<char>)
    ensures
        path_joined(Seq::empty(), name) == name,
        path_joined(root.push('/'), name) == root + seq!['/'] + name,
        root.len() > 0 && root.last() != '/' ==> path_joined(root, name) == root + seq!['/'] + name,
{
    assert(Seq::<char>::empty() + name =~= name);
    assert(root.push('/') =~= root + seq!['/']);
}

} // verus!
