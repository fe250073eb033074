//! Text as sequences of characters: lines, fields, trimming and numbers.
use vstd::prelude::*;

verus! {

broadcast use vstd::string::group_string_axioms;

// Standard library strings.

/// `String::push`: puts one character behind the text.
pub assume_specification[ String::push ](s: &mut String, c: char)
    ensures
        final(s)@ == old(s)@.push(c),
;

/// `String::push_str`: puts another text behind the text.
pub assume_specification[ String::push_str ](s: &mut String, other: &str)
    ensures
        final(s)@ == old(s)@ + other@,
;

/// `String::from_utf8`: the text that the bytes encode, if they are valid UTF-8.
#[verifier::external_body]
pub(crate) fn text_from_utf8(bytes: Vec<u8>) -> (text: Option<String>)
    ensures
        text is Some <==> vstd::utf8::valid_utf8(bytes@),
        text matches Some(t) ==> t@ == vstd::utf8::decode_utf8(bytes@),
{
    String::from_utf8(bytes).ok()
}

/// The text that `String::from_utf8_lossy` makes of bytes.
pub uninterp spec fn lossy_text(bytes: Seq<u8>) -> Seq<char>;

/// `String::from_utf8_lossy`: valid UTF-8 is decoded as it is. What is put in
/// the place of bytes that are not is left to the name of the result.
#[verifier::external_body]
pub(crate) fn text_from_utf8_lossy(bytes: &[u8]) -> (text: String)
    ensures
        text@ == lossy_text(bytes@),
        vstd::utf8::valid_utf8(bytes@) ==> text@ == vstd::utf8::decode_utf8(bytes@),
{
    String::from_utf8_lossy(bytes).into_owned()
}

/// The text that the `Debug` format of `str` makes of a text.
pub uninterp spec fn quoted_text(text: Seq<char>) -> Seq<char>;

/// The `Debug` format of `str`: the text in quotes, with some of its characters
/// escaped. Which ones goes by Unicode's tables, so the result is named.
#[verifier::external_body]
pub(crate) fn quote(text: &str) -> (quoted: String)
    ensures
        quoted@ == quoted_text(text@),
{
    format!("{:?}", text)
}

/// The UTF-8 bytes of a text.
pub open spec fn utf8(s: Seq<char>) -> Seq<u8> {
    vstd::utf8::encode_utf8(s)
}

/// Copies the UTF-8 bytes of a text.
pub fn utf8_bytes(s: &str) -> (bytes: Vec<u8>)
    ensures
        bytes@ == utf8(s@),
{
    let bytes = s.as_bytes();
    crate::wire::copy_range(bytes, 0, bytes.len())
}

/// Number of UTF-8 bytes of a text.
pub fn utf8_len(s: &str) -> (len: usize)
    ensures
        len == utf8(s@).len(),
{
    s.as_bytes().len()
}

/// Bytes that encode a text decode to it and to nothing else.
pub proof fn lemma_utf8_round_trip(s: Seq<char>)
    ensures
        vstd::utf8::valid_utf8(utf8(s)),
        vstd::utf8::decode_utf8(utf8(s)) == s,
{
    vstd::utf8::encode_utf8_valid_utf8(s);
    vstd::utf8::encode_utf8_decode_utf8(s);
}

/// The characters of a text.
pub fn to_chars(s: &str) -> (chars: Vec<char>)
    ensures
        chars@ == s@,
{
    let mut chars: Vec<char> = Vec::new();
    for c in it: s.chars()
        invariant
            it.seq() == s@,
            chars@ == s@.take(it.index()),
    {
        chars.push(c);
        assert(chars@ =~= s@.take(it.index() + 1));
    }
    assert(s@.take(s@.len() as int) =~= s@);
    chars
}

/// The text made of the given characters.
pub fn to_text(chars: &[char]) -> (text: String)
    ensures
        text@ == chars@,
{
    let mut text = String::new();
    let mut i: usize = 0;
    while i < chars.len()
        invariant
            i <= chars.len(),
            text@ == chars@.take(i as int),
        decreases chars.len() - i,
    {
        text.push(chars[i]);
        i = i + 1;
        assert(text@ =~= chars@.take(i as int));
    }
    assert(chars@.take(i as int) =~= chars@);
    text
}

/// Copies a range of characters.
pub fn char_range(chars: &[char], from: usize, to: usize) -> (out: Vec<char>)
    requires
        from <= to <= chars.len(),
    ensures
        out@ == chars@.subrange(from as int, to as int),
{
    let mut out: Vec<char> = Vec::new();
    let mut i: usize = from;
    while i < to
        invariant
            from <= i <= to <= chars.len(),
            out@ == chars@.subrange(from as int, i as int),
        decreases to - i,
    {
        out.push(chars[i]);
        i = i + 1;
        assert(out@ =~= chars@.subrange(from as int, i as int));
    }
    out
}

/// Whether two character strings are equal.
pub fn same_chars(a: &[char], b: &[char]) -> (same: bool)
    ensures
        same == (a@ == b@),
{
    if a.len() != b.len() {
        return false;
    }
    let mut i: usize = 0;
    while i < a.len()
        invariant
            i <= a.len(),
            a.len() == b.len(),
            forall|j: int| 0 <= j < i ==> a@[j] == b@[j],
        decreases a.len() - i,
    {
        if a[i] != b[i] {
            return false;
        }
        i = i + 1;
    }
    assert(a@ =~= b@);
    true
}

/// Whether the characters spell a text.
pub fn spells(chars: &[char], text: &str) -> (same: bool)
    ensures
        same == (chars@ == text@),
{
    same_chars(chars, to_chars(text).as_slice())
}

/// Whether two texts are equal.
pub fn same_text(a: &str, b: &str) -> (same: bool)
    ensures
        same == (a@ == b@),
{
    same_chars(to_chars(a).as_slice(), to_chars(b).as_slice())
}

/// Whether a character occurs in a text.
pub fn has_char(chars: &[char], c: char) -> (found: bool)
    ensures
        found == chars@.contains(c),
{
    let mut i: usize = 0;
    while i < chars.len()
        invariant
            i <= chars.len(),
            forall|j: int| 0 <= j < i ==> chars@[j] != c,
        decreases chars.len() - i,
    {
        if chars[i] == c {
            assert(chars@[i as int] == c);
            return true;
        }
        i = i + 1;
    }
    false
}

// Searching and splitting.

/// Index of the first `c`, or the length where there is none.
pub open spec fn find(s: Seq<char>, c: char) -> int
    decreases s.len(),
{
    if s.len() == 0 || s[0] == c {
        0
    } else {
        1 + find(s.skip(1), c)
    }
}

pub proof fn lemma_find(s: Seq<char>, c: char)
    ensures
        0 <= find(s, c) <= s.len(),
        find(s, c) < s.len() ==> s[find(s, c)] == c,
        forall|j: int| 0 <= j < find(s, c) ==> s[j] != c,
        find(s, c) < s.len() <==> s.contains(c),
    decreases s.len(),
{
    if s.len() > 0 && s[0] != c {
        lemma_find(s.skip(1), c);
        assert forall|j: int| 0 <= j < find(s, c) implies s[j] != c by {
            if j > 0 {
                assert(s.skip(1)[j - 1] == s[j]);
            }
        }
        if s.contains(c) {
            let k = choose|k: int| 0 <= k < s.len() && s[k] == c;
            assert(s.skip(1)[k - 1] == c);
        }
    }
}

/// The first match is where everything before it differs.
pub proof fn lemma_find_at(s: Seq<char>, c: char, at: int)
    requires
        0 <= at <= s.len(),
        forall|j: int| 0 <= j < at ==> s[j] != c,
        at < s.len() ==> s[at] == c,
    ensures
        find(s, c) == at,
{
    lemma_find(s, c);
}

/// Index of the first `c`, or the length.
pub fn find_char(chars: &[char], c: char) -> (at: usize)
    ensures
        at == find(chars@, c),
        at <= chars.len(),
{
    let mut i: usize = 0;
    while i < chars.len() && chars[i] != c
        invariant
            i <= chars.len(),
            forall|j: int| 0 <= j < i ==> chars@[j] != c,
        decreases chars.len() - i,
    {
        i = i + 1;
    }
    proof {
        lemma_find_at(chars@, c, i as int);
    }
    i
}

/// The pieces between separators; a text without separator is one piece.
pub open spec fn split(s: Seq<char>, sep: char) -> Seq<Seq<char>>
    decreases s.len(),
    via split_decreases
{
    let at = find(s, sep);
    if at < s.len() {
        seq![s.take(at)] + split(s.skip(at + 1), sep)
    } else {
        seq![s]
    }
}

#[via_fn]
proof fn split_decreases(s: Seq<char>, sep: char) {
    lemma_find(s, sep);
}

/// The contents of a list of texts.
pub open spec fn texts(v: Seq<Vec<char>>) -> Seq<Seq<char>> {
    v.map_values(|t: Vec<char>| t@)
}

/// Splits at every separator.
pub fn split_at_each(chars: &[char], sep: char) -> (pieces: Vec<Vec<char>>)
    ensures
        texts(pieces@) == split(chars@, sep),
{
    let mut pieces: Vec<Vec<char>> = Vec::new();
    let mut start: usize = 0;
    let mut i: usize = 0;
    assert(chars@.skip(0) =~= chars@);
    assert(texts(pieces@) + split(chars@, sep) =~= split(chars@, sep));
    while i < chars.len()
        invariant
            start <= i <= chars.len(),
            forall|j: int| start <= j < i ==> chars@[j] != sep,
            texts(pieces@) + split(chars@.skip(start as int), sep) == split(chars@, sep),
        decreases chars.len() - i,
    {
        if chars[i] == sep {
            let ghost rest = chars@.skip(start as int);
            let ghost before = texts(pieces@);
            let piece = char_range(chars, start, i);
            proof {
                lemma_find_at(rest, sep, i - start);
                assert(rest.take(i - start) =~= piece@);
                assert(rest.skip(i - start + 1) =~= chars@.skip(i + 1));
            }
            pieces.push(piece);
            start = i + 1;
            assert(texts(pieces@) =~= before.push(piece@));
            assert(texts(pieces@) + split(chars@.skip(start as int), sep) =~= before + (seq![piece@]
                + split(chars@.skip(start as int), sep)));
        }
        i = i + 1;
    }
    let ghost rest = chars@.skip(start as int);
    let ghost before = texts(pieces@);
    let piece = char_range(chars, start, chars.len());
    proof {
        lemma_find_at(rest, sep, rest.len() as int);
        assert(piece@ =~= rest);
    }
    pieces.push(piece);
    assert(texts(pieces@) =~= before + seq![piece@]);
    pieces
}

/// A line without the carriage return that may precede its line feed.
pub open spec fn strip_cr(line: Seq<char>) -> Seq<char> {
    if line.len() > 0 && line.last() == '\r' {
        line.drop_last()
    } else {
        line
    }
}

/// The lines of a text: each ends at a line feed, and what follows the last
/// line feed is a line only where it is not empty.
pub open spec fn lines(s: Seq<char>) -> Seq<Seq<char>>
    decreases s.len(),
    via lines_decreases
{
    let at = find(s, '\n');
    if s.len() == 0 {
        Seq::empty()
    } else if at < s.len() {
        seq![strip_cr(s.take(at))] + lines(s.skip(at + 1))
    } else {
        seq![s]
    }
}

#[via_fn]
proof fn lines_decreases(s: Seq<char>) {
    lemma_find(s, '\n');
}

/// A terminated line comes first, the rest of the text after it.
pub proof fn lemma_first_line(line: Seq<char>, rest: Seq<char>)
    requires
        !line.contains('\n'),
        line.len() > 0 ==> line.last() != '\r',
    ensures
        lines(line + seq!['\n'] + rest) == seq![line] + lines(rest),
{
    let s = line + seq!['\n'] + rest;
    assert forall|j: int| 0 <= j < line.len() implies s[j] != '\n' by {
        assert(s[j] == line[j]);
    }
    lemma_find_at(s, '\n', line.len() as int);
    assert(s.take(line.len() as int) =~= line);
    assert(s.skip(line.len() as int + 1) =~= rest);
}

/// Splits a text into its lines.
pub fn split_lines(chars: &[char]) -> (out: Vec<Vec<char>>)
    ensures
        texts(out@) == lines(chars@),
{
    let mut out: Vec<Vec<char>> = Vec::new();
    let mut start: usize = 0;
    let mut i: usize = 0;
    assert(chars@.skip(0) =~= chars@);
    assert(texts(out@) + lines(chars@) =~= lines(chars@));
    while i < chars.len()
        invariant
            start <= i <= chars.len(),
            forall|j: int| start <= j < i ==> chars@[j] != '\n',
            texts(out@) + lines(chars@.skip(start as int)) == lines(chars@),
        decreases chars.len() - i,
    {
        if chars[i] == '\n' {
            let ghost rest = chars@.skip(start as int);
            let ghost before = texts(out@);
            let mut end: usize = i;
            if start < i && chars[i - 1] == '\r' {
                end = i - 1;
            }
            let line = char_range(chars, start, end);
            proof {
                lemma_find_at(rest, '\n', i - start);
                assert(rest.take(i - start) =~= chars@.subrange(start as int, i as int));
                assert(line@ =~= strip_cr(rest.take(i - start)));
                assert(rest.skip(i - start + 1) =~= chars@.skip(i + 1));
            }
            out.push(line);
            start = i + 1;
            assert(texts(out@) =~= before.push(line@));
            assert(texts(out@) + lines(chars@.skip(start as int)) =~= before + (seq![line@] + lines(
                chars@.skip(start as int),
            )));
        }
        i = i + 1;
    }
    let ghost rest = chars@.skip(start as int);
    if start < chars.len() {
        let ghost before = texts(out@);
        let line = char_range(chars, start, chars.len());
        proof {
            lemma_find_at(rest, '\n', rest.len() as int);
            assert(line@ =~= rest);
        }
        out.push(line);
        assert(texts(out@) =~= before + seq![line@]);
    } else {
        assert(lines(rest) =~= Seq::<Seq<char>>::empty());
        assert(texts(out@) + lines(rest) =~= texts(out@));
    }
    out
}

pub open spec fn entry(key: Seq<char>, value: Seq<char>) -> Seq<char> {
    key + seq!['='] + value
}

/// A line that stands on its own: without line feed or trailing carriage return.
pub open spec fn is_line(s: Seq<char>) -> bool {
    !s.contains('\n') && (s.len() > 0 ==> s.last() != '\r')
}

/// Lines, each with its line feed.
pub open spec fn unlines(lines: Seq<Seq<char>>) -> Seq<char>
    decreases lines.len(),
{
    if lines.len() == 0 {
        Seq::empty()
    } else {
        unlines(lines.drop_last()) + lines.last() + seq!['\n']
    }
}

pub proof fn lemma_unlines_push(lines: Seq<Seq<char>>, line: Seq<char>)
    ensures
        unlines(lines.push(line)) == unlines(lines) + line + seq!['\n'],
{
    assert(lines.push(line).drop_last() =~= lines);
}

pub proof fn lemma_unlines_front(lines: Seq<Seq<char>>)
    requires
        lines.len() > 0,
    ensures
        unlines(lines) == lines[0] + seq!['\n'] + unlines(lines.skip(1)),
    decreases lines.len(),
{
    if lines.len() == 1 {
        assert(lines.drop_last() =~= Seq::<Seq<char>>::empty());
        assert(lines.skip(1) =~= Seq::<Seq<char>>::empty());
        assert(unlines(lines.drop_last()) =~= Seq::<char>::empty());
        assert(unlines(lines) =~= lines[0] + seq!['\n'] + unlines(lines.skip(1)));
    } else {
        let front = lines.drop_last();
        lemma_unlines_front(front);
        assert(front.skip(1) =~= lines.skip(1).drop_last());
        assert(unlines(lines) =~= lines[0] + seq!['\n'] + unlines(lines.skip(1)));
    }
}

/// Splitting joined lines gives the lines back.
pub proof fn lemma_lines_of_unlines(all: Seq<Seq<char>>)
    requires
        forall|i: int| 0 <= i < all.len() ==> is_line(#[trigger] all[i]),
    ensures
        lines(unlines(all)) == all,
    decreases all.len(),
{
    if all.len() == 0 {
        assert(lines(unlines(all)) =~= all);
    } else {
        lemma_unlines_front(all);
        assert(is_line(all[0]));
        assert forall|i: int| 0 <= i < all.skip(1).len() implies is_line(
            #[trigger] all.skip(1)[i],
        ) by {
            assert(all.skip(1)[i] == all[i + 1]);
        }
        lemma_lines_of_unlines(all.skip(1));
        lemma_first_line(all[0], unlines(all.skip(1)));
        assert(seq![all[0]] + all.skip(1) =~= all);
    }
}

// Trimming.

/// The characters that Unicode counts as white space.
pub open spec fn is_white(c: char) -> bool {
    let n = c as u32;
    ||| 0x9 <= n <= 0xd
    ||| n == 0x20
    ||| n == 0x85
    ||| n == 0xa0
    ||| n == 0x1680
    ||| 0x2000 <= n <= 0x200a
    ||| n == 0x2028
    ||| n == 0x2029
    ||| n == 0x202f
    ||| n == 0x205f
    ||| n == 0x3000
}

pub fn char_is_white(c: char) -> (white: bool)
    ensures
        white == is_white(c),
{
    let n: u32 = c as u32;
    (0x9 <= n && n <= 0xd) || n == 0x20 || n == 0x85 || n == 0xa0 || n == 0x1680 || (0x2000 <= n
        && n <= 0x200a) || n == 0x2028 || n == 0x2029 || n == 0x202f || n == 0x205f || n == 0x3000
}

/// A text without its leading white space.
pub open spec fn trim_start(s: Seq<char>) -> Seq<char>
    decreases s.len(),
{
    if s.len() > 0 && is_white(s[0]) {
        trim_start(s.skip(1))
    } else {
        s
    }
}

/// A text without its trailing white space.
pub open spec fn trim_end(s: Seq<char>) -> Seq<char>
    decreases s.len(),
{
    if s.len() > 0 && is_white(s.last()) {
        trim_end(s.drop_last())
    } else {
        s
    }
}

/// A text without white space at its ends.
pub open spec fn trimmed(s: Seq<char>) -> Seq<char> {
    trim_end(trim_start(s))
}

pub fn trim_chars(chars: &[char]) -> (out: Vec<char>)
    ensures
        out@ == trimmed(chars@),
{
    let mut from: usize = 0;
    assert(chars@.skip(0) =~= chars@);
    while from < chars.len() && char_is_white(chars[from])
        invariant
            from <= chars.len(),
            trim_start(chars@.skip(from as int)) == trim_start(chars@),
        decreases chars.len() - from,
    {
        assert(chars@.skip(from as int).skip(1) =~= chars@.skip(from + 1));
        from = from + 1;
    }
    let ghost core = chars@.skip(from as int);
    assert(core == trim_start(chars@));
    let mut to: usize = chars.len();
    assert(chars@.subrange(from as int, to as int) =~= core);
    while from < to && char_is_white(chars[to - 1])
        invariant
            from <= to <= chars.len(),
            trim_end(chars@.subrange(from as int, to as int)) == trim_end(core),
        decreases to - from,
    {
        assert(chars@.subrange(from as int, to as int).drop_last() =~= chars@.subrange(
            from as int,
            to - 1,
        ));
        to = to - 1;
    }
    char_range(chars, from, to)
}

/// A text that neither begins nor ends with white space is left as it is.
pub proof fn lemma_trimmed_is_stable(s: Seq<char>)
    requires
        s.len() > 0 ==> !is_white(s[0]) && !is_white(s.last()),
    ensures
        trimmed(s) == s,
{
}

/// Only printable ASCII characters.
pub open spec fn plain(s: Seq<char>) -> bool {
    forall|i: int| 0 <= i < s.len() ==> is_plain_char(#[trigger] s[i])
}

pub open spec fn is_plain_char(c: char) -> bool {
    ' ' <= c <= '~'
}

pub proof fn lemma_plain_concat(a: Seq<char>, b: Seq<char>)
    requires
        plain(a),
        plain(b),
    ensures
        plain(a + b),
{
    assert forall|i: int| 0 <= i < (a + b).len() implies is_plain_char(#[trigger] (a + b)[i]) by {
        if i < a.len() {
            assert((a + b)[i] == a[i]);
        } else {
            assert((a + b)[i] == b[i - a.len()]);
        }
    }
}

/// Plain text has no line breaks, and its only white space is the space.
pub proof fn lemma_plain(s: Seq<char>)
    requires
        plain(s),
    ensures
        !s.contains('\n'),
        !s.contains('\r'),
        !s.contains('\t'),
        forall|i: int| 0 <= i < s.len() && #[trigger] is_white(s[i]) ==> s[i] == ' ',
{
}

// Numbers.

pub open spec fn is_digit(c: char) -> bool {
    '0' <= c <= '9'
}

pub open spec fn digit_char(d: nat) -> char {
    (48 + d) as char
}

pub open spec fn digit_value(c: char) -> nat {
    (c as u32 - 48) as nat
}

/// Decimal digits of a number, without leading zeros.
pub open spec fn decimal(n: nat) -> Seq<char>
    decreases n,
{
    if n < 10 {
        seq![digit_char(n)]
    } else {
        decimal(n / 10).push(digit_char(n % 10))
    }
}

pub open spec fn all_digits(s: Seq<char>) -> bool {
    forall|i: int| 0 <= i < s.len() ==> #[trigger] is_digit(s[i])
}

/// The number that a string of digits denotes.
pub open spec fn number(s: Seq<char>) -> nat
    decreases s.len(),
{
    if s.len() == 0 {
        0
    } else {
        number(s.drop_last()) * 10 + digit_value(s.last())
    }
}

/// What an unsigned integer type with the given maximum reads: digits, with an
/// optional plus sign before them.
pub open spec fn unsigned(s: Seq<char>, max: nat) -> Option<nat> {
    let body = if s.len() > 0 && s[0] == '+' {
        s.skip(1)
    } else {
        s
    };
    if body.len() > 0 && all_digits(body) && number(body) <= max {
        Some(number(body))
    } else {
        None
    }
}

/// A longer string of digits denotes no smaller number.
pub proof fn lemma_number_monotone(s: Seq<char>, i: int)
    requires
        0 <= i <= s.len(),
        all_digits(s.take(i)),
    ensures
        number(s.take(i)) <= number(s),
    decreases s.len(),
{
    if i == s.len() {
        assert(s.take(i) =~= s);
    } else {
        assert(s.drop_last().take(i) =~= s.take(i));
        lemma_number_monotone(s.drop_last(), i);
    }
}

/// Reading the digits of a number gives the number.
pub proof fn lemma_decimal(n: nat)
    ensures
        decimal(n).len() > 0,
        all_digits(decimal(n)),
        number(decimal(n)) == n,
        decimal(n)[0] == '0' ==> n == 0,
        n == 0 ==> decimal(n) == seq!['0'],
    decreases n,
{
    if n < 10 {
        assert(decimal(n).drop_last() =~= Seq::<char>::empty());
        assert(number(decimal(n).drop_last()) == 0);
    } else {
        lemma_decimal(n / 10);
        let d = decimal(n);
        assert(d.drop_last() =~= decimal(n / 10));
        assert forall|i: int| 0 <= i < d.len() implies #[trigger] is_digit(d[i]) by {
            if i < d.len() - 1 {
                assert(d[i] == decimal(n / 10)[i]);
                assert(is_digit(decimal(n / 10)[i]));
            }
        }
        assert(d[0] == decimal(n / 10)[0]);
    }
}

/// Reading the digits of a number in range succeeds.
pub proof fn lemma_unsigned_decimal(n: nat, max: nat)
    requires
        n <= max,
    ensures
        unsigned(decimal(n), max) == Some(n),
{
    lemma_decimal(n);
    assert(is_digit(decimal(n)[0]));
}

/// Appends the decimal digits of a number.
pub fn push_decimal(out: &mut String, n: u64)
    ensures
        final(out)@ == old(out)@ + decimal(n as nat),
    decreases n,
{
    if n >= 10 {
        push_decimal(out, n / 10);
    }
    let digit: u8 = 48 + (n % 10) as u8;
    out.push(digit as char);
    assert(out@ =~= old(out)@ + decimal(n as nat));
}

/// The decimal digits of a number.
pub fn decimal_text(n: u64) -> (text: String)
    ensures
        text@ == decimal(n as nat),
{
    let mut text = String::new();
    push_decimal(&mut text, n);
    assert(text@ =~= decimal(n as nat));
    text
}

pub fn char_is_digit(c: char) -> (digit: bool)
    ensures
        digit == is_digit(c),
{
    let n: u32 = c as u32;
    48 <= n && n <= 57
}

/// Reads an unsigned integer that must not exceed `max`.
pub fn parse_unsigned(chars: &[char], max: u64) -> (value: Option<u64>)
    requires
        max < 0x1000_0000_0000_0000,
    ensures
        match value {
            Some(v) => unsigned(chars@, max as nat) == Some(v as nat),
            None => unsigned(chars@, max as nat) is None,
        },
{
    let mut i: usize = 0;
    if chars.len() > 0 && chars[0] == '+' {
        i = 1;
    }
    let ghost body = chars@.skip(i as int);
    let start: usize = i;
    if i == chars.len() {
        return None;
    }
    assert(start == 0 ==> body =~= chars@);
    let mut acc: u64 = 0;
    assert(body.take(0) =~= Seq::<char>::empty());
    while i < chars.len()
        invariant
            start <= i <= chars.len(),
            body == chars@.skip(start as int),
            all_digits(body.take(i - start)),
            acc == number(body.take(i - start)),
            acc <= max,
            max < 0x1000_0000_0000_0000,
            unsigned(chars@, max as nat) == (if body.len() > 0 && all_digits(body) && number(body)
                <= max {
                Some(number(body))
            } else {
                None
            }),
        decreases chars.len() - i,
    {
        let c: char = chars[i];
        assert(body[i - start] == c);
        if !char_is_digit(c) {
            assert(!is_digit(body[i - start]));
            return None;
        }
        let ghost next = body.take(i - start + 1);
        assert(next.drop_last() =~= body.take(i - start));
        assert(next.last() == c);
        assert forall|j: int| 0 <= j < next.len() implies #[trigger] is_digit(next[j]) by {
            if j < i - start {
                assert(is_digit(body.take(i - start)[j]));
            }
        }
        acc = acc * 10 + (c as u32 - 48) as u64;
        i = i + 1;
        if acc > max {
            proof {
                lemma_number_monotone(body, i - start);
            }
            return None;
        }
    }
    assert(body.take(i - start) =~= body);
    Some(acc)
}

/// `true` and `false` as text.
pub open spec fn bool_text(b: bool) -> Seq<char> {
    if b {
        "true"@
    } else {
        "false"@
    }
}

pub fn bool_str(b: bool) -> (text: &'static str)
    ensures
        text@ == bool_text(b),
{
    if b {
        "true"
    } else {
        "false"
    }
}

/// Reads a truth value.
pub fn parse_truth(chars: &[char]) -> (value: Option<bool>)
    ensures
        value == if chars@ == "true"@ {
            Some(true)
        } else if chars@ == "false"@ {
            Some(false)
        } else {
            None
        },
{
    if spells(chars, "true") {
        Some(true)
    } else if spells(chars, "false") {
        Some(false)
    } else {
        None
    }
}

pub proof fn lemma_bool_texts_differ()
    ensures
        "true"@ != "false"@,
        "true"@.len() == 4,
        "false"@.len() == 5,
{
    reveal_strlit("true");
    reveal_strlit("false");
    assert("true"@.len() == 4 && "false"@.len() == 5);
}

// Numerals to another base.

/// Digits of a number to a base of at most sixteen, without leading zeros.
pub open spec fn numeral(n: nat, radix: nat) -> Seq<char>
    decreases n,
{
    if radix < 2 || n < radix {
        seq![hex_digit(n)]
    } else {
        proof {
            assert(n / radix < n) by (nonlinear_arith)
                requires
                    n >= radix,
                    radix >= 2,
            ;
        }
        numeral(n / radix, radix).push(hex_digit(n % radix))
    }
}

pub open spec fn is_digit_of(c: char, radix: nat) -> bool {
    is_hex_digit(c) && hex_value(c) < radix
}

/// The number that digits to a base denote.
pub open spec fn numeral_value(s: Seq<char>, radix: nat) -> nat
    decreases s.len(),
{
    if s.len() == 0 {
        0
    } else {
        numeral_value(s.drop_last(), radix) * radix + hex_value(s.last())
    }
}

pub proof fn lemma_numeral(n: nat, radix: nat)
    requires
        2 <= radix <= 16,
    ensures
        numeral(n, radix).len() > 0,
        forall|i: int|
            0 <= i < numeral(n, radix).len() ==> #[trigger] is_digit_of(
                numeral(n, radix)[i],
                radix,
            ),
        numeral_value(numeral(n, radix), radix) == n,
        numeral(n, radix)[0] == '0' ==> n == 0,
        n < radix ==> numeral(n, radix).len() == 1,
    decreases n,
{
    let s = numeral(n, radix);
    if n < radix {
        assert(s.drop_last() =~= Seq::<char>::empty());
        assert(numeral_value(s.drop_last(), radix) == 0);
        assert(0 * radix == 0);
    } else {
        assert(n / radix < n && n % radix < radix && (n / radix) * radix + n % radix == n) by {
            vstd::arithmetic::div_mod::lemma_fundamental_div_mod(n as int, radix as int);
            vstd::arithmetic::div_mod::lemma_div_decreases(n as int, radix as int);
            vstd::arithmetic::div_mod::lemma_mod_bound(n as int, radix as int);
            vstd::arithmetic::mul::lemma_mul_is_commutative((n / radix) as int, radix as int);
        }
        lemma_numeral(n / radix, radix);
        assert(s.drop_last() =~= numeral(n / radix, radix));
        assert forall|i: int| 0 <= i < s.len() implies #[trigger] is_digit_of(s[i], radix) by {
            if i < s.len() - 1 {
                assert(is_digit_of(numeral(n / radix, radix)[i], radix));
            }
        }
        assert(s[0] == numeral(n / radix, radix)[0]);
        if s[0] == '0' {
            assert(n / radix == 0);
            assert(n < radix) by (nonlinear_arith)
                requires
                    n / radix == 0,
                    radix > 0,
            ;
        }
    }
}

/// A numeral has at most as many digits as the power of the base above it.
pub proof fn lemma_numeral_len(n: nat, radix: nat, bound: nat, digits: nat)
    requires
        2 <= radix <= 16,
        1 <= digits,
        n < bound,
        bound == vstd::arithmetic::power::pow(radix as int, digits),
    ensures
        numeral(n, radix).len() <= digits,
    decreases digits,
{
    vstd::arithmetic::power::lemma_pow1(radix as int);
    if n >= radix {
        assert(digits > 1);
        let smaller = vstd::arithmetic::power::pow(radix as int, (digits - 1) as nat);
        vstd::arithmetic::power::lemma_pow_positive(radix as int, (digits - 1) as nat);
        reveal(vstd::arithmetic::power::pow);
        assert(bound == radix * smaller);
        assert(n / radix < smaller) by (nonlinear_arith)
            requires
                n < radix * smaller,
                radix >= 2,
                smaller > 0,
        ;
        lemma_numeral_len(n / radix, radix, smaller as nat, (digits - 1) as nat);
    } else {
        lemma_numeral(n, radix);
    }
}

/// Decimal digits are the numeral to base ten.
pub proof fn lemma_decimal_is_numeral(n: nat)
    ensures
        decimal(n) == numeral(n, 10),
    decreases n,
{
    if n >= 10 {
        lemma_decimal_is_numeral(n / 10);
    }
}

/// Numerals are plain text that ends in a digit.
pub proof fn lemma_numeral_plain(n: nat, radix: nat)
    requires
        2 <= radix <= 16,
    ensures
        plain(numeral(n, radix)),
        numeral(n, radix).len() > 0,
        is_hex_digit(numeral(n, radix).last()),
{
    lemma_numeral(n, radix);
    assert forall|i: int| 0 <= i < numeral(n, radix).len() implies is_plain_char(
        #[trigger] numeral(n, radix)[i],
    ) by {
        assert(is_digit_of(numeral(n, radix)[i], radix));
    }
    assert(is_digit_of(numeral(n, radix)[numeral(n, radix).len() - 1], radix));
}

/// Appends the digits of a number to a base.
pub fn push_numeral(out: &mut String, n: u64, radix: u64)
    requires
        2 <= radix <= 16,
    ensures
        final(out)@ == old(out)@ + numeral(n as nat, radix as nat),
    decreases n,
{
    if n >= radix {
        assert(n / radix < n) by (nonlinear_arith)
            requires
                n >= radix,
                radix >= 2,
        ;
        push_numeral(out, n / radix, radix);
    }
    assert(0 <= n % radix < radix) by (nonlinear_arith)
        requires
            radix >= 2,
    ;
    let digit: u8 = (n % radix) as u8;
    if digit < 10 {
        out.push((48 + digit) as char);
    } else {
        out.push((87 + digit) as char);
    }
    assert(n < radix ==> n % radix == n) by (nonlinear_arith)
        requires
            radix >= 2,
    ;
    assert(out@ =~= old(out)@ + numeral(n as nat, radix as nat));
}

/// Value of a hexadecimal digit.
pub fn char_hex_value(c: char) -> (v: u8)
    requires
        is_hex_digit(c),
    ensures
        v == hex_value(c),
        v < 16,
{
    let n: u32 = c as u32;
    if n <= 57 {
        (n - 48) as u8
    } else if n >= 97 {
        (n - 87) as u8
    } else {
        (n - 55) as u8
    }
}

// ASCII letters.

pub open spec fn lower(c: char) -> char {
    if 'A' <= c <= 'Z' {
        (c as u32 + 32) as char
    } else {
        c
    }
}

pub open spec fn lower_all(s: Seq<char>) -> Seq<char> {
    s.map_values(|c: char| lower(c))
}

pub fn lower_char(c: char) -> (l: char)
    ensures
        l == lower(c),
{
    let n: u32 = c as u32;
    if 65 <= n && n <= 90 {
        (n as u8 + 32) as char
    } else {
        c
    }
}

/// Whether two texts are equal but for the case of ASCII letters.
pub open spec fn same_ignoring_case(a: Seq<char>, b: Seq<char>) -> bool {
    lower_all(a) == lower_all(b)
}

pub fn eq_ignoring_case(a: &str, b: &str) -> (same: bool)
    ensures
        same == same_ignoring_case(a@, b@),
{
    let x = to_chars(a);
    let y = to_chars(b);
    assert(lower_all(a@).len() == a@.len() && lower_all(b@).len() == b@.len());
    if x.len() != y.len() {
        return false;
    }
    let mut i: usize = 0;
    while i < x.len()
        invariant
            i <= x.len(),
            x.len() == y.len(),
            x@ == a@,
            y@ == b@,
            forall|j: int| 0 <= j < i ==> lower(x@[j]) == lower(y@[j]),
        decreases x.len() - i,
    {
        if lower_char(x[i]) != lower_char(y[i]) {
            assert(lower_all(a@)[i as int] != lower_all(b@)[i as int]);
            return false;
        }
        i = i + 1;
    }
    assert(lower_all(a@) =~= lower_all(b@));
    true
}

pub open spec fn is_hex_digit(c: char) -> bool {
    '0' <= c <= '9' || 'a' <= c <= 'f' || 'A' <= c <= 'F'
}

/// Value of a hexadecimal digit.
pub open spec fn hex_value(c: char) -> nat {
    if '0' <= c <= '9' {
        (c as u32 - 48) as nat
    } else if 'a' <= c <= 'f' {
        (c as u32 - 87) as nat
    } else {
        (c as u32 - 55) as nat
    }
}

/// The lower-case hexadecimal digit of a value below sixteen.
pub open spec fn hex_digit(v: nat) -> char {
    if v < 10 {
        (48 + v) as char
    } else {
        (87 + v) as char
    }
}

pub fn char_is_hex_digit(c: char) -> (hex: bool)
    ensures
        hex == is_hex_digit(c),
{
    let n: u32 = c as u32;
    (48 <= n && n <= 57) || (97 <= n && n <= 102) || (65 <= n && n <= 70)
}

/// Bytes as lower-case hexadecimal, two digits for each.
pub open spec fn hex_text(bytes: Seq<u8>) -> Seq<char> {
    Seq::new(
        2 * bytes.len(),
        |i: int|
            if i % 2 == 0 {
                hex_digit((bytes[i / 2] / 16) as nat)
            } else {
                hex_digit((bytes[i / 2] % 16) as nat)
            },
    )
}

pub open spec fn is_hex_text(s: Seq<char>) -> bool {
    s.len() % 2 == 0 && forall|i: int| 0 <= i < s.len() ==> #[trigger] is_hex_digit(s[i])
}

/// The bytes that hexadecimal text denotes.
pub open spec fn hex_bytes(s: Seq<char>) -> Seq<u8> {
    Seq::new(s.len() / 2, |i: int| (hex_value(s[2 * i]) * 16 + hex_value(s[2 * i + 1])) as u8)
}

/// `hex::encode`: two lower-case digits for each byte, high half first.
#[verifier::external_body]
pub(crate) fn hex_encode(bytes: &[u8]) -> (text: String)
    ensures
        text@ == hex_text(bytes@),
{
    hex::encode(bytes)
}

/// `hex::decode`: succeeds exactly on an even number of hexadecimal digits of
/// either case, and gives the byte of each pair.
#[verifier::external_body]
pub(crate) fn hex_decode(text: &str) -> (bytes: Option<Vec<u8>>)
    ensures
        bytes is Some <==> is_hex_text(text@),
        bytes matches Some(b) ==> b@ == hex_bytes(text@),
{
    hex::decode(text).ok()
}

/// Decoding encoded bytes gives them back.
pub proof fn law_hex_round_trip(bytes: Seq<u8>)
    ensures
        is_hex_text(hex_text(bytes)),
        hex_bytes(hex_text(bytes)) == bytes,
{
    let s = hex_text(bytes);
    assert forall|i: int| 0 <= i < s.len() implies #[trigger] is_hex_digit(s[i]) by {}
    assert forall|i: int| 0 <= i < bytes.len() implies hex_bytes(s)[i] == bytes[i] by {
        assert((2 * i) % 2 == 0 && (2 * i) / 2 == i);
        assert((2 * i + 1) % 2 == 1 && (2 * i + 1) / 2 == i);
    }
    assert(hex_bytes(s) =~= bytes);
}

proof fn lemma_trim_start(s: Seq<char>) -> (from: int)
    ensures
        0 <= from <= s.len(),
        trim_start(s) == s.skip(from),
        forall|i: int| 0 <= i < from ==> is_white(#[trigger] s[i]),
        from < s.len() ==> !is_white(s[from]),
    decreases s.len(),
{
    if s.len() > 0 && is_white(s[0]) {
        let rest = s.skip(1);
        let from = lemma_trim_start(rest);
        assert(rest.skip(from) =~= s.skip(from + 1));
        assert forall|i: int| 0 <= i < from + 1 implies is_white(#[trigger] s[i]) by {
            if i > 0 {
                assert(rest[i - 1] == s[i]);
            }
        }
        from + 1
    } else {
        assert(s.skip(0) =~= s);
        0
    }
}

proof fn lemma_trim_end(s: Seq<char>) -> (to: int)
    ensures
        0 <= to <= s.len(),
        trim_end(s) == s.take(to),
        forall|i: int| to <= i < s.len() ==> is_white(#[trigger] s[i]),
        0 < to ==> !is_white(s[to - 1]),
    decreases s.len(),
{
    if s.len() > 0 && is_white(s.last()) {
        let rest = s.drop_last();
        let to = lemma_trim_end(rest);
        assert(rest.take(to) =~= s.take(to));
        assert forall|i: int| to <= i < s.len() implies is_white(#[trigger] s[i]) by {
            if i < rest.len() {
                assert(rest[i] == s[i]);
            }
        }
        to
    } else {
        assert(s.take(s.len() as int) =~= s);
        s.len() as int
    }
}

/// Trimming takes all white space from both ends of a text and nothing else.
pub proof fn law_trimming_takes_white_space_off(s: Seq<char>) -> (ends: (int, int))
    ensures
        0 <= ends.0 <= ends.1 <= s.len(),
        trimmed(s) == s.subrange(ends.0, ends.1),
        forall|i: int| 0 <= i < ends.0 || ends.1 <= i < s.len() ==> is_white(#[trigger] s[i]),
        trimmed(s).len() > 0 ==> !is_white(trimmed(s)[0]) && !is_white(trimmed(s).last()),
{
    let from = lemma_trim_start(s);
    let core = s.skip(from);
    let to = lemma_trim_end(core);
    assert(core.take(to) =~= s.subrange(from, from + to));
    assert forall|i: int| 0 <= i < from || from + to <= i < s.len() implies is_white(
        #[trigger] s[i],
    ) by {
        if i >= from {
            assert(core[i - from] == s[i]);
        }
    }
    if to > 0 {
        assert(core[0] == s[from]);
        assert(core[to - 1] == s.subrange(from, from + to).last());
    }
    (from, from + to)
}

/// White space is what Unicode says: the tab, the line feed and those up to the
/// carriage return, the space, the next-line and no-break characters, and nine
/// kinds of spaces and separators above them. Nothing that is seen is.
pub proof fn law_white_space(c: char)
    ensures
        ({
            let n = c as u32;
            is_white(c) <==> n == 9 || n == 10 || n == 11 || n == 12 || n == 13 || n == 32 || n
                == 133 || n == 160 || n == 5760 || 8192 <= n < 8203 || n == 8232 || n == 8233 || n
                == 8239 || n == 8287 || n == 12288
        }),
        '!' <= c <= '~' ==> !is_white(c),
{
}

/// The pieces of a text, with the separator put back between them, are the text,
/// and none of them holds the separator.
pub proof fn law_splitting_loses_nothing(s: Seq<char>, sep: char)
    ensures
        split(s, sep).len() >= 1,
        forall|i: int|
            0 <= i < split(s, sep).len() ==> !(#[trigger] split(s, sep)[i]).contains(sep),
        rejoined(split(s, sep), sep) == s,
    decreases s.len(),
{
    let at = find(s, sep);
    lemma_find(s, sep);
    if at < s.len() {
        let head = s.take(at);
        let rest = s.skip(at + 1);
        law_splitting_loses_nothing(rest, sep);
        let pieces = split(s, sep);
        assert(pieces.skip(1) =~= split(rest, sep));
        assert forall|i: int| 0 <= i < pieces.len() implies !(#[trigger] pieces[i]).contains(
            sep,
        ) by {
            if i > 0 {
                assert(pieces[i] == split(rest, sep)[i - 1]);
            } else if head.contains(sep) {
                let j = choose|j: int| 0 <= j < head.len() && head[j] == sep;
                assert(s[j] == sep);
            }
        }
        assert(rejoined(pieces, sep) =~= s);
    } else {
        assert(split(s, sep) =~= seq![s]);
    }
}

/// Texts with a character between each and the next.
pub open spec fn rejoined(pieces: Seq<Seq<char>>, sep: char) -> Seq<char>
    decreases pieces.len(),
{
    if pieces.len() == 0 {
        Seq::empty()
    } else if pieces.len() == 1 {
        pieces[0]
    } else {
        pieces[0] + seq![sep] + rejoined(pieces.skip(1), sep)
    }
}

/// A text is read line by line: a line ends at a line feed, with or without a
/// carriage return in front of it, and the last one may end with the text.
pub proof fn law_texts_are_read_line_by_line(line: Seq<char>, rest: Seq<char>)
    requires
        !line.contains('\n'),
        line.len() > 0 ==> line.last() != '\r',
    ensures
        lines(Seq::empty()) == Seq::<Seq<char>>::empty(),
        line.len() > 0 ==> lines(line) == seq![line],
        lines(line.push('\n') + rest) == seq![line] + lines(rest),
        lines(line.push('\r').push('\n') + rest) == seq![line] + lines(rest),
{
    lemma_find_at(line, '\n', line.len() as int);
    lemma_first_line(line, rest);
    assert(line.push('\n') + rest =~= line + seq!['\n'] + rest);
    let s = line.push('\r').push('\n') + rest;
    let head = line.push('\r');
    assert forall|j: int| 0 <= j < head.len() implies s[j] != '\n' by {
        if j < line.len() {
            assert(s[j] == line[j]);
        }
    }
    lemma_find_at(s, '\n', head.len() as int);
    assert(s.take(head.len() as int) =~= head);
    assert(head.drop_last() =~= line);
    assert(s.skip(head.len() as int + 1) =~= rest);
    assert(lines(Seq::empty()) =~= Seq::<Seq<char>>::empty());
}

/// Lines are written with a line feed behind each, in their order.
pub proof fn law_lines_are_written_in_order(all: Seq<Seq<char>>, line: Seq<char>)
    ensures
        unlines(Seq::empty()) == Seq::<char>::empty(),
        unlines(all.push(line)) == unlines(all) + line.push('\n'),
        entry(line, line) == line.push('=') + line,
{
    lemma_unlines_push(all, line);
    assert(line + seq!['\n'] =~= line.push('\n'));
    assert(unlines(all.push(line)) =~= unlines(all) + line.push('\n'));
    assert(unlines(Seq::empty()) =~= Seq::<char>::empty());
}

/// A digit more makes a number ten times as large and adds the digit. Decimal
/// text is the shortest text of digits for its number.
pub proof fn law_decimal_digits(s: Seq<char>, c: char, n: nat)
    requires
        '0' <= c <= '9',
    ensures
        number(Seq::empty()) == 0,
        number(s.push(c)) == 10 * number(s) + (c as u32 - '0' as u32),
        number(decimal(n)) == n,
        decimal(n).len() > 0,
        decimal(n)[0] == '0' ==> decimal(n).len() == 1,
        forall|i: int| 0 <= i < decimal(n).len() ==> '0' <= #[trigger] decimal(n)[i] <= '9',
{
    assert(s.push(c).drop_last() =~= s);
    lemma_decimal(n);
    assert forall|i: int| 0 <= i < decimal(n).len() implies '0' <= #[trigger] decimal(n)[i]
        <= '9' by {
        assert(is_digit(decimal(n)[i]));
    }
    if decimal(n)[0] == '0' {
        assert(n == 0);
    }
}

/// What is read as a number of at most a given size: one or more digits, with or
/// without a plus sign in front. Nothing else is.
pub proof fn law_unsigned_numbers(s: Seq<char>, max: nat)
    ensures
        s.len() > 0 && (forall|i: int| 0 <= i < s.len() ==> '0' <= #[trigger] s[i] <= '9') ==> {
            &&& unsigned(s, max) == if number(s) <= max {
                Some(number(s))
            } else {
                None
            }
            &&& unsigned(seq!['+'] + s, max) == unsigned(s, max)
        },
        unsigned(s, max) matches Some(n) ==> n <= max && s.len() > 0 && (s[0] == '+' || '0' <= s[0]
            <= '9') && (s[0] == '+' ==> s.len() > 1) && (forall|i: int|
            0 < i < s.len() ==> '0' <= #[trigger] s[i] <= '9'),
        unsigned(Seq::empty(), max) is None,
{
    if s.len() > 0 && (forall|i: int| 0 <= i < s.len() ==> '0' <= #[trigger] s[i] <= '9') {
        assert forall|i: int| 0 <= i < s.len() implies #[trigger] is_digit(s[i]) by {}
        assert('0' <= s[0]);
        assert((seq!['+'] + s).skip(1) =~= s);
    }
    if unsigned(s, max) is Some {
        let body = if s[0] == '+' {
            s.skip(1)
        } else {
            s
        };
        assert forall|i: int| 0 < i < s.len() implies '0' <= #[trigger] s[i] <= '9' by {
            if s[0] == '+' {
                assert(is_digit(body[i - 1]));
            } else {
                assert(is_digit(body[i]));
            }
        }
        if s[0] != '+' {
            assert(is_digit(body[0]));
        }
    }
}

/// Only the case of ASCII letters is ignored: two texts are alike exactly if
/// they have the same length and their characters are the same or an upper-case
/// letter and its lower-case form.
pub proof fn law_case_is_ignored(a: Seq<char>, b: Seq<char>)
    ensures
        same_ignoring_case(a, b) <==> a.len() == b.len() && forall|i: int|
            0 <= i < a.len() ==> #[trigger] a[i] == b[i] || ('A' <= a[i] <= 'Z' && b[i] as u32
                == a[i] as u32 + 32) || ('A' <= b[i] <= 'Z' && a[i] as u32 == b[i] as u32 + 32),
{
    let la = lower_all(a);
    let lb = lower_all(b);
    if la == lb {
        assert(la.len() == a.len() && lb.len() == b.len());
        assert forall|i: int| 0 <= i < a.len() implies #[trigger] a[i] == b[i] || ('A' <= a[i]
            <= 'Z' && b[i] as u32 == a[i] as u32 + 32) || ('A' <= b[i] <= 'Z' && a[i] as u32
            == b[i] as u32 + 32) by {
            assert(la[i] == lower(a[i]));
            assert(lb[i] == lower(b[i]));
        }
    } else if a.len() == b.len() && forall|i: int|
        0 <= i < a.len() ==> #[trigger] a[i] == b[i] || ('A' <= a[i] <= 'Z' && b[i] as u32
            == a[i] as u32 + 32) || ('A' <= b[i] <= 'Z' && a[i] as u32 == b[i] as u32 + 32) {
        assert forall|i: int| 0 <= i < a.len() implies la[i] == lb[i] by {
            assert(a[i] == a[i]);
            assert(la[i] == lower(a[i]));
            assert(lb[i] == lower(b[i]));
        }
        assert(la =~= lb);
    }
}

/// Hexadecimal digits count up to fifteen, with letters of either case from ten
/// on.
pub proof fn law_hex_digits(c: char, v: nat)
    requires
        v < 16,
    ensures
        is_hex_digit(c) <==> '0' <= c <= '9' || 'a' <= c <= 'f' || 'A' <= c <= 'F',
        '0' <= c <= '9' ==> hex_value(c) == c as u32 - '0' as u32,
        'a' <= c <= 'f' ==> hex_value(c) == c as u32 - 'a' as u32 + 10,
        'A' <= c <= 'F' ==> hex_value(c) == c as u32 - 'A' as u32 + 10,
        hex_value(hex_digit(v)) == v,
        '0' <= hex_digit(v) <= '9' || 'a' <= hex_digit(v) <= 'f',
{
}

/// Each byte is written as the digit of its sixteens and the digit of its ones.
pub proof fn law_bytes_are_two_hex_digits(bytes: Seq<u8>, i: int)
    requires
        0 <= i < bytes.len(),
    ensures
        hex_text(bytes).len() == 2 * bytes.len(),
        16 * hex_value(hex_text(bytes)[2 * i]) + hex_value(hex_text(bytes)[2 * i + 1]) == bytes[i],
        !('A' <= hex_text(bytes)[2 * i] <= 'F'),
        !('A' <= hex_text(bytes)[2 * i + 1] <= 'F'),
{
    assert((2 * i) % 2 == 0 && (2 * i) / 2 == i);
    assert((2 * i + 1) % 2 == 1 && (2 * i + 1) / 2 == i);
}

/// A text of hexadecimal digits denotes the byte of each two of them.
pub proof fn law_hex_text_denotes_bytes(s: Seq<char>, i: int)
    requires
        is_hex_text(s),
        0 <= i < s.len() / 2,
    ensures
        hex_bytes(s).len() * 2 == s.len(),
        hex_bytes(s)[i] == 16 * hex_value(s[2 * i]) + hex_value(s[2 * i + 1]),
{
    assert(is_hex_digit(s[2 * i]) && is_hex_digit(s[2 * i + 1]));
}

/// Numerals to a base count as decimal ones do to base ten.
pub proof fn law_numerals(s: Seq<char>, c: char, n: nat, radix: nat)
    requires
        2 <= radix <= 16,
    ensures
        numeral_value(Seq::empty(), radix) == 0,
        numeral_value(s.push(c), radix) == numeral_value(s, radix) * radix + hex_value(c),
        numeral_value(numeral(n, radix), radix) == n,
        numeral(n, radix)[0] == '0' ==> n == 0,
        decimal(n) == numeral(n, 10),
{
    assert(s.push(c).drop_last() =~= s);
    lemma_numeral(n, radix);
    lemma_decimal_is_numeral(n);
}

/// Truth values are written as the words for them.
pub proof fn law_truth_values_are_words(b: bool)
    ensures
        bool_text(b) == (if b {
            seq!['t', 'r', 'u', 'e']
        } else {
            seq!['f', 'a', 'l', 's', 'e']
        }),
{
    reveal_strlit("true");
    reveal_strlit("false");
    assert(bool_text(b) =~= (if b {
        seq!['t', 'r', 'u', 'e']
    } else {
        seq!['f', 'a', 'l', 's', 'e']
    }));
}

} // verus!
