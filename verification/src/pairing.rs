//! Short-lived, code-authenticated first-time pairing.
//!
//! A five-character pairing code authenticates one temporary connection only.
//! That connection transfers a newly generated 256-bit long-term key, which is
//! then stored by each side in its private configuration file.
use vstd::prelude::*;

use crate::config::{placement_from, RelativePlacement};
use crate::endpoint::{Endpoint, IpAddress};
use crate::random::random_u32;
use crate::text::{
    bool_str, char_range, decimal_text, find_char, has_char, hex_decode, hex_encode, parse_truth,
    parse_unsigned, push_decimal, same_text, spells, split_lines, text_from_utf8, to_chars,
    to_text, utf8_bytes,
};
use crate::transport::TransportError;
use crate::wire::{copy_range, to_array32};

verus! {

broadcast use vstd::array::group_array_axioms;

pub const CODE_SYMBOLS: usize = 5;

pub const MAX_MESSAGE_BYTES: usize = 1024;

#[derive(Debug, PartialEq)]
pub enum PairingError {
    InvalidCode,
    InvalidMessage(&'static str),
    MessageTooLarge,
    UnspecifiedAddress,
    InvalidPort,
    Transport(TransportError),
}

/// A pairing error with its text.
pub enum PairingFault {
    InvalidCode,
    InvalidMessage(Seq<char>),
    MessageTooLarge,
    UnspecifiedAddress,
    InvalidPort,
    Transport(TransportError),
}

impl View for PairingError {
    type V = PairingFault;

    open spec fn view(&self) -> PairingFault {
        match self {
            PairingError::InvalidCode => PairingFault::InvalidCode,
            PairingError::InvalidMessage(text) => PairingFault::InvalidMessage(text@),
            PairingError::MessageTooLarge => PairingFault::MessageTooLarge,
            PairingError::UnspecifiedAddress => PairingFault::UnspecifiedAddress,
            PairingError::InvalidPort => PairingFault::InvalidPort,
            PairingError::Transport(error) => PairingFault::Transport(*error),
        }
    }
}

/// An endpoint advertised by the local peer during initial setup.
#[derive(Debug, Clone, PartialEq, Eq)]
pub struct PairRequest {
    pub host_name: String,
    pub host_service_port: u16,
    pub placement: RelativePlacement,
    pub persistent_permissions: bool,
}

pub struct RequestView {
    pub host_name: Seq<char>,
    pub host_service_port: u16,
    pub placement: RelativePlacement,
    pub persistent_permissions: bool,
}

impl View for PairRequest {
    type V = RequestView;

    open spec fn view(&self) -> RequestView {
        RequestView {
            host_name: self.host_name@,
            host_service_port: self.host_service_port,
            placement: self.placement,
            persistent_permissions: self.persistent_permissions,
        }
    }
}

impl PairRequest {
    /// The requesting machine as `name:port`.
    pub fn label(&self) -> (text: String)
        ensures
            text@ == self.host_name@ + seq![':'] + crate::text::decimal(
                self.host_service_port as nat,
            ),
    {
        let mut text = self.host_name.clone();
        text.push(':');
        push_decimal(&mut text, self.host_service_port as u64);
        assert(text@ =~= self.host_name@ + seq![':'] + crate::text::decimal(
            self.host_service_port as nat,
        ));
        text
    }
}

/// The long-term key and the names and ports that come with it.
#[derive(Clone, PartialEq, Eq)]
pub struct PairGrant {
    pub peer_id: String,
    pub psk: [u8; 32],
    pub client_name: String,
    pub client_service_port: u16,
    pub placement: RelativePlacement,
    pub persistent_permissions: bool,
}

pub struct GrantView {
    pub peer_id: Seq<char>,
    pub psk: Seq<u8>,
    pub client_name: Seq<char>,
    pub client_service_port: u16,
    pub placement: RelativePlacement,
    pub persistent_permissions: bool,
}

impl View for PairGrant {
    type V = GrantView;

    open spec fn view(&self) -> GrantView {
        GrantView {
            peer_id: self.peer_id@,
            psk: self.psk@,
            client_name: self.client_name@,
            client_service_port: self.client_service_port,
            placement: self.placement,
            persistent_permissions: self.persistent_permissions,
        }
    }
}

// The code.

/// Letters and digits that are not easily mistaken for one another.
pub open spec fn alphabet() -> Seq<char> {
    "ABCDEFGHJKLMNPQRSTUVWXYZ23456789"@
}

pub open spec fn upper(c: char) -> char {
    if 'a' <= c <= 'z' {
        (c as u32 - 32) as char
    } else {
        c
    }
}

pub open spec fn upper_all(s: Seq<char>) -> Seq<char> {
    s.map_values(|c: char| upper(c))
}

/// A text without grouping characters.
pub open spec fn stripped(s: Seq<char>) -> Seq<char>
    decreases s.len(),
{
    if s.len() == 0 {
        Seq::empty()
    } else if s.last() == '-' || s.last() == ' ' {
        stripped(s.drop_last())
    } else {
        stripped(s.drop_last()).push(s.last())
    }
}

/// Five symbols of the alphabet.
pub open spec fn is_code(s: Seq<char>) -> bool {
    s.len() == CODE_SYMBOLS && forall|i: int|
        0 <= i < s.len() ==> alphabet().contains(#[trigger] s[i])
}

/// The code that a human entry stands for: any case, any grouping.
pub open spec fn normalized(text: Seq<char>) -> Option<Seq<char>> {
    let code = upper_all(stripped(text));
    if is_code(code) {
        Some(code)
    } else {
        None
    }
}

/// Five symbols for the lowest twenty-five bits, highest first.
pub open spec fn code_of_bits(value: u32) -> Seq<char> {
    seq![
        alphabet()[(value / 0x10_0000 % 32) as int],
        alphabet()[(value / 0x8000 % 32) as int],
        alphabet()[(value / 0x400 % 32) as int],
        alphabet()[(value / 0x20 % 32) as int],
        alphabet()[(value % 32) as int],
    ]
}

proof fn lemma_alphabet()
    ensures
        alphabet().len() == 32,
        forall|i: int|
            0 <= i < 32 ==> ('A' <= #[trigger] alphabet()[i] <= 'Z' || '2' <= alphabet()[i] <= '9'),
{
    reveal_strlit("ABCDEFGHJKLMNPQRSTUVWXYZ23456789");
}

pub fn base32_symbol(value: u8) -> (symbol: char)
    requires
        value < 32,
    ensures
        symbol == alphabet()[value as int],
{
    let symbols = to_chars("ABCDEFGHJKLMNPQRSTUVWXYZ23456789");
    proof {
        lemma_alphabet();
    }
    symbols[value as usize]
}

/// Position of a symbol in the alphabet, whatever its case.
pub fn base32_value(symbol: char) -> (result: Result<u8, PairingError>)
    ensures
        match result {
            Ok(value) => value < 32 && alphabet()[value as int] == upper(symbol),
            Err(error) => error@ == PairingFault::InvalidCode && !alphabet().contains(
                upper(symbol),
            ),
        },
{
    let symbols = to_chars("ABCDEFGHJKLMNPQRSTUVWXYZ23456789");
    proof {
        lemma_alphabet();
    }
    let n: u32 = symbol as u32;
    let wanted: char = if 97 <= n && n <= 122 {
        (n - 32) as u8 as char
    } else {
        symbol
    };
    let mut i: usize = 0;
    while i < symbols.len()
        invariant
            i <= symbols.len(),
            symbols@ == alphabet(),
            symbols.len() == 32,
            wanted == upper(symbol),
            forall|j: int| 0 <= j < i ==> symbols@[j] != wanted,
        decreases symbols.len() - i,
    {
        if symbols[i] == wanted {
            return Ok(i as u8);
        }
        i = i + 1;
    }
    Err(PairingError::InvalidCode)
}

/// The code for given random bits.
pub fn code_from_bits(value: u32) -> (code: String)
    ensures
        code@ == code_of_bits(value),
        is_code(code@),
        normalized(code@) == Some(code@),
{
    let mut code = String::new();
    code.push(base32_symbol((value / 0x10_0000 % 32) as u8));
    code.push(base32_symbol((value / 0x8000 % 32) as u8));
    code.push(base32_symbol((value / 0x400 % 32) as u8));
    code.push(base32_symbol((value / 0x20 % 32) as u8));
    code.push(base32_symbol((value % 32) as u8));
    proof {
        assert(code@ =~= code_of_bits(value));
        law_generated_codes_are_normal(value);
    }
    code
}

/// A fresh pairing code.
pub fn generate_code() -> (code: String)
    ensures
        is_code(code@),
        normalized(code@) == Some(code@),
{
    code_from_bits(random_u32())
}

/// Normalize a human-entered five-character code before giving it to the key
/// exchange.
pub fn normalize_code(text: &str) -> (result: Result<String, PairingError>)
    ensures
        match result {
            Ok(code) => normalized(text@) == Some(code@),
            Err(error) => normalized(text@) is None && error@ == PairingFault::InvalidCode,
        },
{
    let chars = to_chars(text);
    let mut code: Vec<char> = Vec::new();
    let mut i: usize = 0;
    assert(chars@.take(0) =~= Seq::<char>::empty());
    assert(upper_all(stripped(chars@.take(0))) =~= Seq::<char>::empty());
    while i < chars.len()
        invariant
            i <= chars.len(),
            chars@ == text@,
            code@ == upper_all(stripped(chars@.take(i as int))),
            forall|j: int| 0 <= j < code@.len() ==> alphabet().contains(#[trigger] code@[j]),
        decreases chars.len() - i,
    {
        let c: char = chars[i];
        let ghost next = chars@.take(i + 1);
        assert(next.drop_last() =~= chars@.take(i as int));
        assert(next.last() == c);
        if c != '-' && c != ' ' {
            match base32_value(c) {
                Ok(value) => {
                    let ghost before = code@;
                    code.push(base32_symbol(value));
                    proof {
                        lemma_alphabet();
                        assert(alphabet()[value as int] == upper(c));
                        assert(code@ =~= upper_all(stripped(next)));
                        assert forall|j: int| 0 <= j < code@.len() implies alphabet().contains(
                            #[trigger] code@[j],
                        ) by {
                            if j < before.len() {
                                assert(code@[j] == before[j]);
                            }
                        }
                    }
                },
                Err(error) => {
                    proof {
                        lemma_stripped_symbol(text@, i as int);
                    }
                    return Err(error);
                },
            }
        } else {
            assert(upper_all(stripped(next)) =~= code@);
        }
        i = i + 1;
    }
    assert(chars@.take(i as int) =~= text@);
    if code.len() != CODE_SYMBOLS {
        return Err(PairingError::InvalidCode);
    }
    Ok(to_text(code.as_slice()))
}

/// What is not a grouping character stays in the code.
proof fn lemma_stripped_symbol(s: Seq<char>, i: int)
    requires
        0 <= i < s.len(),
        s[i] != '-',
        s[i] != ' ',
    ensures
        stripped(s).contains(s[i]),
        upper_all(stripped(s)).contains(upper(s[i])),
    decreases s.len(),
{
    let front = s.drop_last();
    if i < front.len() {
        lemma_stripped_symbol(front, i);
        assert(front[i] == s[i]);
        let j = choose|j: int| 0 <= j < stripped(front).len() && stripped(front)[j] == s[i];
        assert(stripped(s)[j] == s[i]);
        assert(upper_all(stripped(s))[j] == upper(s[i]));
    } else {
        let j = stripped(s).len() - 1;
        assert(stripped(s)[j] == s[i]);
        assert(upper_all(stripped(s))[j] == upper(s[i]));
    }
}

proof fn lemma_stripped_concat(a: Seq<char>, b: Seq<char>)
    ensures
        stripped(a + b) == stripped(a) + stripped(b),
    decreases b.len(),
{
    if b.len() == 0 {
        assert(a + b =~= a);
        assert(stripped(a) + stripped(b) =~= stripped(a));
    } else {
        assert((a + b).drop_last() =~= a + b.drop_last());
        assert((a + b).last() == b.last());
        lemma_stripped_concat(a, b.drop_last());
        assert(stripped(a + b) =~= stripped(a) + stripped(b));
    }
}

/// Symbols are not stripped.
proof fn lemma_code_is_stripped(s: Seq<char>)
    requires
        forall|i: int| 0 <= i < s.len() ==> alphabet().contains(#[trigger] s[i]),
    ensures
        stripped(s) == s,
        upper_all(s) == s,
    decreases s.len(),
{
    lemma_alphabet();
    assert forall|i: int| 0 <= i < s.len() implies upper(#[trigger] s[i]) == s[i] && s[i] != '-'
        && s[i] != ' ' by {
        let k = choose|k: int| 0 <= k < 32 && alphabet()[k] == s[i];
        assert(alphabet()[k] == s[i]);
    }
    assert(upper_all(s) =~= s);
    if s.len() > 0 {
        assert(s.last() == s[s.len() - 1]);
        assert forall|i: int| 0 <= i < s.drop_last().len() implies alphabet().contains(
            #[trigger] s.drop_last()[i],
        ) by {
            assert(s.drop_last()[i] == s[i]);
        }
        lemma_code_is_stripped(s.drop_last());
        assert(stripped(s) =~= s);
    }
}

/// Normalizing a normalized code changes nothing.
pub proof fn law_normalizing_is_idempotent(text: Seq<char>)
    requires
        normalized(text) is Some,
    ensures
        normalized(normalized(text)->0) == normalized(text),
{
    lemma_code_is_stripped(normalized(text)->0);
}

/// Case and grouping do not matter: dashes and spaces may stand anywhere, and
/// every letter may be entered in either case.
pub proof fn law_case_and_grouping_do_not_matter(a: Seq<char>, b: Seq<char>)
    ensures
        normalized(a + seq!['-'] + b) == normalized(a + b),
        normalized(a + seq![' '] + b) == normalized(a + b),
        normalized(crate::text::lower_all(a)) == normalized(a),
        normalized(upper_all(a)) == normalized(a),
{
    lemma_stripped_concat(a, b);
    lemma_stripped_concat(a + seq!['-'], b);
    lemma_stripped_concat(a + seq![' '], b);
    lemma_stripped_concat(a, seq!['-']);
    lemma_stripped_concat(a, seq![' ']);
    assert(seq!['-'].drop_last() =~= Seq::<char>::empty());
    assert(seq![' '].drop_last() =~= Seq::<char>::empty());
    assert(stripped(Seq::<char>::empty()) =~= Seq::<char>::empty());
    assert(stripped(seq!['-']) =~= Seq::<char>::empty());
    assert(stripped(seq![' ']) =~= Seq::<char>::empty());
    assert(stripped(a) + Seq::<char>::empty() =~= stripped(a));
    lemma_case(a);
}

proof fn lemma_upper_push(s: Seq<char>, c: char)
    ensures
        upper_all(s.push(c)) == upper_all(s).push(upper(c)),
{
    assert(upper_all(s.push(c)) =~= upper_all(s).push(upper(c)));
}

proof fn lemma_case(a: Seq<char>)
    ensures
        upper_all(stripped(crate::text::lower_all(a))) == upper_all(stripped(a)),
        upper_all(stripped(upper_all(a))) == upper_all(stripped(a)),
    decreases a.len(),
{
    let l = crate::text::lower_all(a);
    let u = upper_all(a);
    if a.len() == 0 {
        assert(l =~= a);
        assert(u =~= a);
    } else {
        lemma_case(a.drop_last());
        assert(l.drop_last() =~= crate::text::lower_all(a.drop_last()));
        assert(u.drop_last() =~= upper_all(a.drop_last()));
        let c = a.last();
        assert(l.last() == crate::text::lower(c));
        assert(u.last() == upper(c));
        assert(upper(crate::text::lower(c)) == upper(c));
        assert(upper(upper(c)) == upper(c));
        lemma_upper_push(stripped(l.drop_last()), l.last());
        lemma_upper_push(stripped(u.drop_last()), u.last());
        lemma_upper_push(stripped(a.drop_last()), c);
    }
}

proof fn lemma_alphabet_distinct(i: int, j: int)
    requires
        0 <= i < 32,
        0 <= j < 32,
        alphabet()[i] == alphabet()[j],
    ensures
        i == j,
{
    reveal_strlit("ABCDEFGHJKLMNPQRSTUVWXYZ23456789");
}

proof fn lemma_bits(a: u32, b: u32)
    requires
        a / 0x10_0000 % 32 == b / 0x10_0000 % 32,
        a / 0x8000 % 32 == b / 0x8000 % 32,
        a / 0x400 % 32 == b / 0x400 % 32,
        a / 0x20 % 32 == b / 0x20 % 32,
        a % 32 == b % 32,
    ensures
        a % 0x200_0000 == b % 0x200_0000,
{
    assert(a % 0x200_0000 == b % 0x200_0000) by (bit_vector)
        requires
            a / 0x10_0000 % 32 == b / 0x10_0000 % 32,
            a / 0x8000 % 32 == b / 0x8000 % 32,
            a / 0x400 % 32 == b / 0x400 % 32,
            a / 0x20 % 32 == b / 0x20 % 32,
            a % 32 == b % 32,
    ;
}

/// A generated code is its own normal form.
pub proof fn law_generated_codes_are_normal(value: u32)
    ensures
        is_code(code_of_bits(value)),
        normalized(code_of_bits(value)) == Some(code_of_bits(value)),
{
    lemma_alphabet();
    let code = code_of_bits(value);
    assert forall|i: int| 0 <= i < code.len() implies alphabet().contains(#[trigger] code[i]) by {
        assert(alphabet().contains(alphabet()[(value / 0x10_0000 % 32) as int]));
        assert(alphabet().contains(alphabet()[(value / 0x8000 % 32) as int]));
        assert(alphabet().contains(alphabet()[(value / 0x400 % 32) as int]));
        assert(alphabet().contains(alphabet()[(value / 0x20 % 32) as int]));
        assert(alphabet().contains(alphabet()[(value % 32) as int]));
    }
    lemma_code_is_stripped(code);
}

/// Codes are equal only where the twenty-five bits behind them are.
pub proof fn law_codes_are_distinguished_by_bits(a: u32, b: u32)
    requires
        code_of_bits(a) == code_of_bits(b),
    ensures
        a % 0x200_0000 == b % 0x200_0000,
{
    let code = code_of_bits(a);
    let other = code_of_bits(b);
    assert(code[0] == other[0] && code[1] == other[1] && code[2] == other[2] && code[3] == other[3]
        && code[4] == other[4]);
    lemma_alphabet_distinct((a / 0x10_0000 % 32) as int, (b / 0x10_0000 % 32) as int);
    lemma_alphabet_distinct((a / 0x8000 % 32) as int, (b / 0x8000 % 32) as int);
    lemma_alphabet_distinct((a / 0x400 % 32) as int, (b / 0x400 % 32) as int);
    lemma_alphabet_distinct((a / 0x20 % 32) as int, (b / 0x20 % 32) as int);
    lemma_alphabet_distinct((a % 32) as int, (b % 32) as int);
    lemma_bits(a, b);
}

// Messages.

/// Named values in order.
pub open spec fn pairs(fields: Seq<(String, String)>) -> Seq<(Seq<char>, Seq<char>)> {
    fields.map_values(|field: (String, String)| (field.0@, field.1@))
}

pub open spec fn has_separator(value: Seq<char>) -> bool {
    value.contains('\n') || value.contains('\r') || value.contains('=')
}

pub open spec fn header() -> Seq<char> {
    "CachyBridgePair/1"@
}

/// A version line, then one `key=value` line for each field.
pub open spec fn message_lines(fields: Seq<(Seq<char>, Seq<char>)>) -> Seq<Seq<char>> {
    seq![header()] + fields.map_values(
        |field: (Seq<char>, Seq<char>)| crate::text::entry(field.0, field.1),
    )
}

/// The bytes of a message, unless a value holds a separator or the message is
/// too large.
pub open spec fn encoded(fields: Seq<(Seq<char>, Seq<char>)>) -> Result<Seq<u8>, PairingFault> {
    let bytes = crate::text::utf8(crate::text::unlines(message_lines(fields)));
    if exists|i: int| 0 <= i < fields.len() && has_separator((#[trigger] fields[i]).1) {
        Err(PairingFault::InvalidMessage("field contains a separator"@))
    } else if bytes.len() > MAX_MESSAGE_BYTES {
        Err(PairingFault::MessageTooLarge)
    } else {
        Ok(bytes)
    }
}

/// What a function that gives bytes returns.
pub open spec fn gives_bytes(
    result: Result<Vec<u8>, PairingError>,
    spec: Result<Seq<u8>, PairingFault>,
) -> bool {
    match result {
        Ok(bytes) => spec == Ok::<Seq<u8>, PairingFault>(bytes@),
        Err(error) => spec == Err::<Seq<u8>, PairingFault>(error@),
    }
}

pub fn encode_fields(fields: &[(String, String)]) -> (result: Result<Vec<u8>, PairingError>)
    ensures
        gives_bytes(result, encoded(pairs(fields@))),
{
    let mut message = "CachyBridgePair/1".to_owned();
    message.push('\n');
    let ghost all = pairs(fields@);
    let ghost lines = message_lines(all);
    let mut i: usize = 0;
    proof {
        let none = Seq::<Seq<char>>::empty();
        crate::text::lemma_unlines_push(none, header());
        assert(lines.take(1) =~= none.push(header()));
        assert(message@ =~= crate::text::unlines(lines.take(1)));
    }
    while i < fields.len()
        invariant
            i <= fields.len(),
            all == pairs(fields@),
            lines == message_lines(all),
            message@ == crate::text::unlines(lines.take(1 + i)),
            forall|j: int| 0 <= j < i ==> !has_separator((#[trigger] all[j]).1),
        decreases fields.len() - i,
    {
        let value = to_chars(fields[i].1.as_str());
        assert(all[i as int] == (fields@[i as int].0@, fields@[i as int].1@));
        if has_char(value.as_slice(), '\n') || has_char(value.as_slice(), '\r') || has_char(
            value.as_slice(),
            '=',
        ) {
            assert(has_separator(all[i as int].1));
            return Err(PairingError::InvalidMessage("field contains a separator"));
        }
        let ghost before = message@;
        message.push_str(fields[i].0.as_str());
        message.push('=');
        message.push_str(fields[i].1.as_str());
        message.push('\n');
        proof {
            let line = crate::text::entry(all[i as int].0, all[i as int].1);
            crate::text::lemma_unlines_push(lines.take(1 + i), line);
            assert(lines.take(2 + i) =~= lines.take(1 + i).push(line));
            assert(message@ =~= before + line + seq!['\n']);
        }
        i = i + 1;
    }
    assert(lines.take(1 + i) =~= lines);
    let bytes = utf8_bytes(message.as_str());
    if bytes.len() > MAX_MESSAGE_BYTES {
        return Err(PairingError::MessageTooLarge);
    }
    Ok(bytes)
}

/// Index of the first field with a key, or the number of fields.
pub open spec fn field_index(fields: Seq<(Seq<char>, Seq<char>)>, key: Seq<char>, i: int) -> int
    decreases fields.len() - i,
{
    if i < 0 || i >= fields.len() || fields[i].0 == key {
        i
    } else {
        field_index(fields, key, i + 1)
    }
}

/// The value of a key.
pub open spec fn field_value(fields: Seq<(Seq<char>, Seq<char>)>, key: Seq<char>) -> Option<
    Seq<char>,
> {
    let i = field_index(fields, key, 0);
    if i < fields.len() {
        Some(fields[i].1)
    } else {
        None
    }
}

/// The fields that the lines from `i` on add.
pub open spec fn fields_read(
    lines: Seq<Seq<char>>,
    i: int,
    fields: Seq<(Seq<char>, Seq<char>)>,
) -> Result<Seq<(Seq<char>, Seq<char>)>, PairingFault>
    decreases lines.len() - i,
{
    if i < 0 || i >= lines.len() {
        Ok(fields)
    } else {
        let line = lines[i];
        let at = crate::text::find(line, '=');
        let key = line.take(at);
        let value = line.skip(at + 1);
        if at >= line.len() {
            Err(PairingFault::InvalidMessage("missing separator"@))
        } else if key.len() == 0 || value.len() == 0 || field_value(fields, key) is Some {
            Err(PairingFault::InvalidMessage("invalid or duplicate field"@))
        } else {
            fields_read(lines, i + 1, fields.push((key, value)))
        }
    }
}

/// The fields of a message.
pub open spec fn fields_denoted(bytes: Seq<u8>) -> Result<
    Seq<(Seq<char>, Seq<char>)>,
    PairingFault,
> {
    let lines = crate::text::lines(vstd::utf8::decode_utf8(bytes));
    if !vstd::utf8::valid_utf8(bytes) {
        Err(PairingFault::InvalidMessage("not UTF-8"@))
    } else if lines.len() == 0 || lines[0] != header() {
        Err(PairingFault::InvalidMessage("unsupported version"@))
    } else {
        fields_read(lines, 1, Seq::empty())
    }
}

fn find_field(fields: &[(String, String)], key: &str) -> (index: usize)
    ensures
        index == field_index(pairs(fields@), key@, 0),
        index <= fields.len(),
{
    let mut i: usize = 0;
    while i < fields.len()
        invariant
            i <= fields.len(),
            field_index(pairs(fields@), key@, 0) == field_index(pairs(fields@), key@, i as int),
        decreases fields.len() - i,
    {
        assert(pairs(fields@)[i as int].0 == fields@[i as int].0@);
        if same_text(fields[i].0.as_str(), key) {
            return i;
        }
        i = i + 1;
    }
    i
}

pub fn decode_fields(bytes: &[u8]) -> (result: Result<Vec<(String, String)>, PairingError>)
    ensures
        match result {
            Ok(fields) => fields_denoted(bytes@) == Ok::<
                Seq<(Seq<char>, Seq<char>)>,
                PairingFault,
            >(pairs(fields@)),
            Err(error) => fields_denoted(bytes@) == Err::<
                Seq<(Seq<char>, Seq<char>)>,
                PairingFault,
            >(error@),
        },
{
    let text = match text_from_utf8(copy_range(bytes, 0, bytes.len())) {
        Some(text) => text,
        None => {
            assert(bytes@.subrange(0, bytes@.len() as int) =~= bytes@);
            return Err(PairingError::InvalidMessage("not UTF-8"));
        },
    };
    assert(bytes@.subrange(0, bytes@.len() as int) =~= bytes@);
    let all = split_lines(to_chars(text.as_str()).as_slice());
    let ghost lines = crate::text::texts(all@);
    if all.len() == 0 || !spells(all[0].as_slice(), "CachyBridgePair/1") {
        assert(all.len() > 0 ==> lines[0] == all@[0]@);
        return Err(PairingError::InvalidMessage("unsupported version"));
    }
    assert(lines[0] == all@[0]@);
    let mut fields: Vec<(String, String)> = Vec::new();
    assert(pairs(fields@) =~= Seq::<(Seq<char>, Seq<char>)>::empty());
    let mut i: usize = 1;
    while i < all.len()
        invariant
            1 <= i <= all.len(),
            lines == crate::text::texts(all@),
            fields_denoted(bytes@) == fields_read(lines, i as int, pairs(fields@)),
        decreases all.len() - i,
    {
        let line = all[i].as_slice();
        assert(lines[i as int] == line@);
        let at: usize = find_char(line, '=');
        if at >= line.len() {
            return Err(PairingError::InvalidMessage("missing separator"));
        }
        let key = to_text(char_range(line, 0, at).as_slice());
        let value = to_text(char_range(line, at + 1, line.len()).as_slice());
        assert(key@ =~= line@.take(at as int));
        assert(value@ =~= line@.skip(at + 1));
        if at == 0 || at + 1 == line.len() || find_field(fields.as_slice(), key.as_str())
            < fields.len() {
            return Err(PairingError::InvalidMessage("invalid or duplicate field"));
        }
        let ghost before = pairs(fields@);
        let ghost added = (key@, value@);
        fields.push((key, value));
        assert(pairs(fields@) =~= before.push(added));
        i = i + 1;
    }
    Ok(fields)
}

/// The value of a required field.
pub fn value<'a>(fields: &'a [(String, String)], key: &str) -> (result: Result<
    &'a str,
    PairingError,
>)
    ensures
        match result {
            Ok(value) => field_value(pairs(fields@), key@) == Some(value@),
            Err(error) => field_value(pairs(fields@), key@) is None && error@ == missing_field(),
        },
{
    let index: usize = find_field(fields, key);
    if index < fields.len() {
        assert(pairs(fields@)[index as int].1 == fields@[index as int].1@);
        Ok(fields[index].1.as_str())
    } else {
        Err(PairingError::InvalidMessage("missing required field"))
    }
}

pub open spec fn missing_field() -> PairingFault {
    PairingFault::InvalidMessage("missing required field"@)
}

/// The fault of a message that is not of the expected kind.
pub open spec fn kind_fault(
    fields: Seq<(Seq<char>, Seq<char>)>,
    key: Seq<char>,
    expected: Seq<char>,
) -> Option<PairingFault> {
    match field_value(fields, key) {
        None => Some(missing_field()),
        Some(found) => if found == expected {
            None
        } else {
            Some(PairingFault::InvalidMessage("unexpected message kind"@))
        },
    }
}

pub fn require(fields: &[(String, String)], key: &str, expected: &str) -> (result: Result<
    (),
    PairingError,
>)
    ensures
        match result {
            Ok(_) => kind_fault(pairs(fields@), key@, expected@) is None,
            Err(error) => kind_fault(pairs(fields@), key@, expected@) == Some(error@),
        },
{
    match value(fields, key) {
        Ok(found) => {
            if same_text(found, expected) {
                Ok(())
            } else {
                Err(PairingError::InvalidMessage("unexpected message kind"))
            }
        },
        Err(error) => Err(error),
    }
}

pub open spec fn port_denoted(value: Seq<char>) -> Result<u16, PairingFault> {
    match crate::text::unsigned(value, 65535) {
        None => Err(PairingFault::InvalidMessage("invalid port"@)),
        Some(port) => if port == 0 {
            Err(PairingFault::InvalidPort)
        } else {
            Ok(port as u16)
        },
    }
}

pub fn parse_port(value: &str) -> (result: Result<u16, PairingError>)
    ensures
        match result {
            Ok(port) => port_denoted(value@) == Ok::<u16, PairingFault>(port),
            Err(error) => port_denoted(value@) == Err::<u16, PairingFault>(error@),
        },
{
    match parse_unsigned(to_chars(value).as_slice(), 65535) {
        None => Err(PairingError::InvalidMessage("invalid port")),
        Some(port) => {
            if port == 0 {
                Err(PairingError::InvalidPort)
            } else {
                Ok(port as u16)
            }
        },
    }
}

pub open spec fn bool_denoted(value: Seq<char>) -> Result<bool, PairingFault> {
    if value == "true"@ {
        Ok(true)
    } else if value == "false"@ {
        Ok(false)
    } else {
        Err(PairingFault::InvalidMessage("invalid boolean"@))
    }
}

pub fn parse_bool(value: &str) -> (result: Result<bool, PairingError>)
    ensures
        match result {
            Ok(b) => bool_denoted(value@) == Ok::<bool, PairingFault>(b),
            Err(error) => bool_denoted(value@) == Err::<bool, PairingFault>(error@),
        },
{
    match parse_truth(to_chars(value).as_slice()) {
        Some(b) => Ok(b),
        None => Err(PairingError::InvalidMessage("invalid boolean")),
    }
}

pub open spec fn placement_denoted(value: Seq<char>) -> Result<RelativePlacement, PairingFault> {
    match crate::config::placement_named(value) {
        Some(placement) => Ok(placement),
        None => Err(PairingFault::InvalidMessage("invalid placement"@)),
    }
}

pub fn parse_placement(value: &str) -> (result: Result<RelativePlacement, PairingError>)
    ensures
        match result {
            Ok(placement) => placement_denoted(value@) == Ok::<RelativePlacement, PairingFault>(
                placement,
            ),
            Err(error) => placement_denoted(value@) == Err::<RelativePlacement, PairingFault>(
                error@,
            ),
        },
{
    match placement_from(to_chars(value).as_slice()) {
        Some(placement) => Ok(placement),
        None => Err(PairingError::InvalidMessage("invalid placement")),
    }
}

/// The port, placement and permission choice that every message carries, in
/// the order in which they are checked.
pub open spec fn terms_denoted(
    fields: Seq<(Seq<char>, Seq<char>)>,
    port_key: Seq<char>,
) -> Result<(u16, RelativePlacement, bool), PairingFault> {
    match field_value(fields, port_key) {
        None => Err(missing_field()),
        Some(port_text) => match port_denoted(port_text) {
            Err(fault) => Err(fault),
            Ok(port) => match field_value(fields, "placement"@) {
                None => Err(missing_field()),
                Some(word) => match placement_denoted(word) {
                    Err(fault) => Err(fault),
                    Ok(placement) => match field_value(fields, "persistent_permissions"@) {
                        None => Err(missing_field()),
                        Some(flag) => match bool_denoted(flag) {
                            Err(fault) => Err(fault),
                            Ok(persistent) => Ok((port, placement, persistent)),
                        },
                    },
                },
            },
        },
    }
}

fn terms(fields: &[(String, String)], port_key: &str) -> (result: Result<
    (u16, RelativePlacement, bool),
    PairingError,
>)
    ensures
        match result {
            Ok(found) => terms_denoted(pairs(fields@), port_key@) == Ok::<
                (u16, RelativePlacement, bool),
                PairingFault,
            >(found),
            Err(error) => terms_denoted(pairs(fields@), port_key@) == Err::<
                (u16, RelativePlacement, bool),
                PairingFault,
            >(error@),
        },
{
    let port: u16 = match value(fields, port_key) {
        Err(error) => {
            return Err(error);
        },
        Ok(text) => match parse_port(text) {
            Err(error) => {
                return Err(error);
            },
            Ok(port) => port,
        },
    };
    let placement = match value(fields, "placement") {
        Err(error) => {
            return Err(error);
        },
        Ok(word) => match parse_placement(word) {
            Err(error) => {
                return Err(error);
            },
            Ok(placement) => placement,
        },
    };
    let persistent = match value(fields, "persistent_permissions") {
        Err(error) => {
            return Err(error);
        },
        Ok(flag) => match parse_bool(flag) {
            Err(error) => {
                return Err(error);
            },
            Ok(persistent) => persistent,
        },
    };
    Ok((port, placement, persistent))
}

pub open spec fn request_fields(request: RequestView) -> Seq<(Seq<char>, Seq<char>)> {
    seq![
        ("kind"@, "request"@),
        ("host_name"@, request.host_name),
        ("host_service_port"@, crate::text::decimal(request.host_service_port as nat)),
        ("placement"@, crate::config::placement_text(request.placement)),
        ("persistent_permissions"@, crate::text::bool_text(request.persistent_permissions)),
    ]
}

pub open spec fn grant_fields(grant: GrantView) -> Seq<(Seq<char>, Seq<char>)> {
    seq![
        ("kind"@, "grant"@),
        ("peer_id"@, grant.peer_id),
        ("psk"@, crate::text::hex_text(grant.psk)),
        ("client_name"@, grant.client_name),
        ("client_service_port"@, crate::text::decimal(grant.client_service_port as nat)),
        ("placement"@, crate::config::placement_text(grant.placement)),
        ("persistent_permissions"@, crate::text::bool_text(grant.persistent_permissions)),
    ]
}

/// The request that bytes hold.
pub open spec fn request_denoted(bytes: Seq<u8>) -> Result<RequestView, PairingFault> {
    match fields_denoted(bytes) {
        Err(fault) => Err(fault),
        Ok(fields) => match kind_fault(fields, "kind"@, "request"@) {
            Some(fault) => Err(fault),
            None => match field_value(fields, "host_name"@) {
                None => Err(missing_field()),
                Some(host_name) => match terms_denoted(fields, "host_service_port"@) {
                    Err(fault) => Err(fault),
                    Ok((port, placement, persistent)) => Ok(
                        RequestView {
                            host_name,
                            host_service_port: port,
                            placement,
                            persistent_permissions: persistent,
                        },
                    ),
                },
            },
        },
    }
}

/// The key that a grant's text holds.
pub open spec fn grant_psk(value: Seq<char>) -> Result<Seq<u8>, PairingFault> {
    if !crate::text::is_hex_text(value) {
        Err(PairingFault::InvalidMessage("invalid PSK"@))
    } else if value.len() != 64 {
        Err(PairingFault::InvalidMessage("invalid PSK length"@))
    } else {
        Ok(crate::text::hex_bytes(value))
    }
}

/// The grant that bytes hold.
pub open spec fn grant_denoted(bytes: Seq<u8>) -> Result<GrantView, PairingFault> {
    match fields_denoted(bytes) {
        Err(fault) => Err(fault),
        Ok(fields) => match kind_fault(fields, "kind"@, "grant"@) {
            Some(fault) => Err(fault),
            None => match field_value(fields, "psk"@) {
                None => Err(missing_field()),
                Some(psk_text) => match grant_psk(psk_text) {
                    Err(fault) => Err(fault),
                    Ok(psk) => match (
                        field_value(fields, "peer_id"@),
                        field_value(fields, "client_name"@),
                    ) {
                        (Some(peer_id), Some(client_name)) => match terms_denoted(
                            fields,
                            "client_service_port"@,
                        ) {
                            Err(fault) => Err(fault),
                            Ok((port, placement, persistent)) => Ok(
                                GrantView {
                                    peer_id,
                                    psk,
                                    client_name,
                                    client_service_port: port,
                                    placement,
                                    persistent_permissions: persistent,
                                },
                            ),
                        },
                        _ => Err(missing_field()),
                    },
                },
            },
        },
    }
}

fn push_field(fields: &mut Vec<(String, String)>, key: &str, value: &str)
    ensures
        pairs(final(fields)@) == pairs(old(fields)@).push((key@, value@)),
{
    fields.push((key.to_owned(), value.to_owned()));
    assert(pairs(fields@) =~= pairs(old(fields)@).push((key@, value@)));
}

pub fn encode_request(request: &PairRequest) -> (result: Result<Vec<u8>, PairingError>)
    ensures
        gives_bytes(result, encoded(request_fields(request@))),
{
    let mut fields: Vec<(String, String)> = Vec::new();
    push_field(&mut fields, "kind", "request");
    push_field(&mut fields, "host_name", request.host_name.as_str());
    push_field(
        &mut fields,
        "host_service_port",
        decimal_text(request.host_service_port as u64).as_str(),
    );
    push_field(&mut fields, "placement", request.placement.as_str());
    push_field(&mut fields, "persistent_permissions", bool_str(request.persistent_permissions));
    assert(pairs(fields@) =~= request_fields(request@));
    encode_fields(fields.as_slice())
}

pub fn decode_request(bytes: &[u8]) -> (result: Result<PairRequest, PairingError>)
    ensures
        match result {
            Ok(request) => request_denoted(bytes@) == Ok::<RequestView, PairingFault>(request@),
            Err(error) => request_denoted(bytes@) == Err::<RequestView, PairingFault>(error@),
        },
{
    let decoded = match decode_fields(bytes) {
        Ok(fields) => fields,
        Err(error) => {
            return Err(error);
        },
    };
    let fields = decoded.as_slice();
    match require(fields, "kind", "request") {
        Ok(_) => {},
        Err(error) => {
            return Err(error);
        },
    }
    let host_name = match value(fields, "host_name") {
        Ok(name) => name.to_owned(),
        Err(error) => {
            return Err(error);
        },
    };
    match terms(fields, "host_service_port") {
        Ok((port, placement, persistent)) => Ok(
            PairRequest {
                host_name,
                host_service_port: port,
                placement,
                persistent_permissions: persistent,
            },
        ),
        Err(error) => Err(error),
    }
}

pub fn encode_grant(grant: &PairGrant) -> (result: Result<Vec<u8>, PairingError>)
    ensures
        gives_bytes(result, encoded(grant_fields(grant@))),
{
    let mut fields: Vec<(String, String)> = Vec::new();
    push_field(&mut fields, "kind", "grant");
    push_field(&mut fields, "peer_id", grant.peer_id.as_str());
    push_field(&mut fields, "psk", hex_encode(grant.psk.as_slice()).as_str());
    push_field(&mut fields, "client_name", grant.client_name.as_str());
    push_field(
        &mut fields,
        "client_service_port",
        decimal_text(grant.client_service_port as u64).as_str(),
    );
    push_field(&mut fields, "placement", grant.placement.as_str());
    push_field(&mut fields, "persistent_permissions", bool_str(grant.persistent_permissions));
    assert(pairs(fields@) =~= grant_fields(grant@));
    encode_fields(fields.as_slice())
}

pub fn decode_grant(bytes: &[u8]) -> (result: Result<PairGrant, PairingError>)
    ensures
        match result {
            Ok(grant) => grant_denoted(bytes@) == Ok::<GrantView, PairingFault>(grant@),
            Err(error) => grant_denoted(bytes@) == Err::<GrantView, PairingFault>(error@),
        },
{
    let decoded = match decode_fields(bytes) {
        Ok(fields) => fields,
        Err(error) => {
            return Err(error);
        },
    };
    let fields = decoded.as_slice();
    match require(fields, "kind", "grant") {
        Ok(_) => {},
        Err(error) => {
            return Err(error);
        },
    }
    let psk_bytes = match value(fields, "psk") {
        Ok(text) => match hex_decode(text) {
            Some(bytes) => bytes,
            None => {
                return Err(PairingError::InvalidMessage("invalid PSK"));
            },
        },
        Err(error) => {
            return Err(error);
        },
    };
    if psk_bytes.len() != 32 {
        return Err(PairingError::InvalidMessage("invalid PSK length"));
    }
    let psk = to_array32(psk_bytes.as_slice());
    let peer_id = match value(fields, "peer_id") {
        Ok(id) => id.to_owned(),
        Err(error) => {
            return Err(error);
        },
    };
    let client_name = match value(fields, "client_name") {
        Ok(name) => name.to_owned(),
        Err(error) => {
            return Err(error);
        },
    };
    match terms(fields, "client_service_port") {
        Ok((port, placement, persistent)) => Ok(
            PairGrant {
                peer_id,
                psk,
                client_name,
                client_service_port: port,
                placement,
                persistent_permissions: persistent,
            },
        ),
        Err(error) => Err(error),
    }
}

/// The endpoint at a usable address and port.
pub fn checked_endpoint(ip: IpAddress, port: u16) -> (result: Result<Endpoint, PairingError>)
    ensures
        match result {
            Ok(endpoint) => !ip.unspecified() && port != 0 && endpoint == ip.at_port(port),
            Err(error) => if ip.unspecified() {
                error@ == PairingFault::UnspecifiedAddress
            } else {
                port == 0 && error@ == PairingFault::InvalidPort
            },
        },
{
    if ip.is_unspecified() {
        return Err(PairingError::UnspecifiedAddress);
    }
    if port == 0 {
        return Err(PairingError::InvalidPort);
    }
    Ok(ip.with_port(port))
}

// Messages written are read back.

/// Keys that can be told apart, and values that are neither empty nor hold a
/// separator.
spec fn is_message(fields: Seq<(Seq<char>, Seq<char>)>) -> bool {
    &&& forall|i: int|
        0 <= i < fields.len() ==> (#[trigger] fields[i]).0.len() > 0 && !has_separator(fields[i].0)
            && fields[i].1.len() > 0 && !has_separator(fields[i].1)
    &&& forall|i: int, j: int|
        0 <= i < j < fields.len() ==> (#[trigger] fields[i]).0 != (#[trigger] fields[j]).0
}

proof fn lemma_field_index(fields: Seq<(Seq<char>, Seq<char>)>, key: Seq<char>, from: int, i: int)
    requires
        0 <= from <= i <= fields.len(),
        i < fields.len() ==> fields[i].0 == key,
        forall|j: int| from <= j < i ==> (#[trigger] fields[j]).0 != key,
    ensures
        field_index(fields, key, from) == i,
    decreases i - from,
{
    if from < i {
        assert(fields[from].0 != key);
        lemma_field_index(fields, key, from + 1, i);
    }
}

proof fn lemma_field_of_message(fields: Seq<(Seq<char>, Seq<char>)>, i: int)
    requires
        is_message(fields),
        0 <= i < fields.len(),
    ensures
        field_value(fields, fields[i].0) == Some(fields[i].1),
{
    lemma_field_index(fields, fields[i].0, 0, i);
}

proof fn lemma_entry_line(key: Seq<char>, value: Seq<char>)
    requires
        key.len() > 0,
        !has_separator(key),
        value.len() > 0,
        !has_separator(value),
    ensures
        crate::text::is_line(crate::text::entry(key, value)),
        crate::text::find(crate::text::entry(key, value), '=') == key.len(),
        crate::text::entry(key, value).take(key.len() as int) == key,
        crate::text::entry(key, value).skip(key.len() as int + 1) == value,
{
    let line = crate::text::entry(key, value);
    assert forall|i: int| 0 <= i < line.len() implies line[i] != '\n' && line[i] != '\r' by {
        if i < key.len() {
            assert(key.contains(key[i]));
            assert(line[i] == key[i]);
        } else if i > key.len() {
            assert(value.contains(value[i - key.len() - 1]));
            assert(line[i] == value[i - key.len() - 1]);
        }
    }
    assert(line.last() == line[line.len() - 1]);
    assert forall|j: int| 0 <= j < key.len() implies line[j] != '=' by {
        assert(key.contains(key[j]));
        assert(line[j] == key[j]);
    }
    crate::text::lemma_find_at(line, '=', key.len() as int);
    assert(line.take(key.len() as int) =~= key);
    assert(line.skip(key.len() as int + 1) =~= value);
}

proof fn lemma_read_fields(fields: Seq<(Seq<char>, Seq<char>)>, k: int)
    requires
        is_message(fields),
        0 <= k <= fields.len(),
    ensures
        fields_read(message_lines(fields), 1, Seq::empty()) == fields_read(
            message_lines(fields),
            1 + k,
            fields.take(k),
        ),
    decreases k,
{
    if k == 0 {
        assert(fields.take(0) =~= Seq::<(Seq<char>, Seq<char>)>::empty());
    } else {
        lemma_read_fields(fields, k - 1);
        let field = fields[k - 1];
        let before = fields.take(k - 1);
        lemma_entry_line(field.0, field.1);
        assert(message_lines(fields)[k] == crate::text::entry(field.0, field.1));
        assert forall|j: int| 0 <= j < before.len() implies (#[trigger] before[j]).0 != field.0 by {
            assert(before[j] == fields[j]);
        }
        lemma_field_index(before, field.0, 0, before.len() as int);
        assert(before.push((field.0, field.1)) =~= fields.take(k));
    }
}

/// The fields of an encoded message are read back.
proof fn lemma_message_round_trip(fields: Seq<(Seq<char>, Seq<char>)>)
    requires
        is_message(fields),
    ensures
        fields_denoted(crate::text::utf8(crate::text::unlines(message_lines(fields)))) == Ok::<
            Seq<(Seq<char>, Seq<char>)>,
            PairingFault,
        >(fields),
{
    let lines = message_lines(fields);
    reveal_strlit("CachyBridgePair/1");
    assert forall|i: int| 0 <= i < lines.len() implies crate::text::is_line(#[trigger] lines[i]) by {
        if i > 0 {
            let field = fields[i - 1];
            lemma_entry_line(field.0, field.1);
            assert(lines[i] == crate::text::entry(field.0, field.1));
        }
    }
    crate::text::lemma_lines_of_unlines(lines);
    crate::text::lemma_utf8_round_trip(crate::text::unlines(lines));
    lemma_read_fields(fields, fields.len() as int);
    assert(fields.take(fields.len() as int) =~= fields);
}

proof fn lemma_no_separator(s: Seq<char>)
    requires
        forall|i: int| 0 <= i < s.len() ==> (#[trigger] s[i]) != '\n' && s[i] != '\r' && s[i] != '=',
    ensures
        !has_separator(s),
{
}

/// Values that the terms of a message are written with.
proof fn lemma_terms(port: u16, placement: RelativePlacement, persistent: bool)
    ensures
        ({
            let digits = crate::text::decimal(port as nat);
            let word = crate::config::placement_text(placement);
            let flag = crate::text::bool_text(persistent);
            &&& digits.len() > 0 && !has_separator(digits)
            &&& word.len() > 0 && !has_separator(word)
            &&& flag.len() > 0 && !has_separator(flag)
            &&& port != 0 ==> port_denoted(digits) == Ok::<u16, PairingFault>(port)
            &&& placement_denoted(word) == Ok::<RelativePlacement, PairingFault>(placement)
            &&& bool_denoted(flag) == Ok::<bool, PairingFault>(persistent)
        }),
{
    let digits = crate::text::decimal(port as nat);
    crate::text::lemma_decimal(port as nat);
    assert forall|i: int| 0 <= i < digits.len() implies (#[trigger] digits[i]) != '\n' && digits[i]
        != '\r' && digits[i] != '=' by {
        assert(crate::text::is_digit(digits[i]));
    }
    lemma_no_separator(digits);
    crate::text::lemma_unsigned_decimal(port as nat, 65535);
    crate::config::lemma_placement_words(placement);
    let word = crate::config::placement_text(placement);
    assert forall|i: int| 0 <= i < word.len() implies (#[trigger] word[i]) != '\n' && word[i]
        != '\r' && word[i] != '=' by {
        assert('a' <= word[i] <= 'z');
    }
    lemma_no_separator(word);
    crate::text::lemma_bool_texts_differ();
    reveal_strlit("true");
    reveal_strlit("false");
    lemma_no_separator(crate::text::bool_text(persistent));
}

proof fn lemma_keys()
    ensures
        "kind"@.len() == 4,
        "host_name"@.len() == 9,
        "host_name"@[0] == 'h',
        "host_service_port"@.len() == 17,
        "placement"@.len() == 9,
        "placement"@[0] == 'p',
        "persistent_permissions"@.len() == 22,
        "peer_id"@.len() == 7,
        "psk"@.len() == 3,
        "client_name"@.len() == 11,
        "client_service_port"@.len() == 19,
        "request"@.len() == 7,
        "grant"@.len() == 5,
        !has_separator("kind"@),
        !has_separator("host_name"@),
        !has_separator("host_service_port"@),
        !has_separator("placement"@),
        !has_separator("persistent_permissions"@),
        !has_separator("peer_id"@),
        !has_separator("psk"@),
        !has_separator("client_name"@),
        !has_separator("client_service_port"@),
        !has_separator("request"@),
        !has_separator("grant"@),
{
    reveal_strlit("kind");
    reveal_strlit("host_name");
    reveal_strlit("host_service_port");
    reveal_strlit("placement");
    reveal_strlit("persistent_permissions");
    reveal_strlit("peer_id");
    reveal_strlit("psk");
    reveal_strlit("client_name");
    reveal_strlit("client_service_port");
    reveal_strlit("request");
    reveal_strlit("grant");
}

/// Decoding an encoded request gives the request back. An empty name or a
/// zero port can be written, but is refused on reading.
pub proof fn law_request_round_trip(request: RequestView)
    requires
        encoded(request_fields(request)) is Ok,
        request.host_name.len() > 0,
        request.host_service_port != 0,
    ensures
        request_denoted(encoded(request_fields(request))->Ok_0) == Ok::<RequestView, PairingFault>(
            request,
        ),
{
    let fields = request_fields(request);
    lemma_keys();
    lemma_terms(
        request.host_service_port,
        request.placement,
        request.persistent_permissions,
    );
    assert(!has_separator(fields[1].1));
    assert(is_message(fields));
    lemma_message_round_trip(fields);
    lemma_field_of_message(fields, 0);
    lemma_field_of_message(fields, 1);
    lemma_field_of_message(fields, 2);
    lemma_field_of_message(fields, 3);
    lemma_field_of_message(fields, 4);
}

/// Decoding an encoded grant gives the grant back, key included. Empty names
/// or a zero port can be written, but are refused on reading.
pub proof fn law_grant_round_trip(grant: GrantView)
    requires
        encoded(grant_fields(grant)) is Ok,
        grant.psk.len() == 32,
        grant.peer_id.len() > 0,
        grant.client_name.len() > 0,
        grant.client_service_port != 0,
    ensures
        grant_denoted(encoded(grant_fields(grant))->Ok_0) == Ok::<GrantView, PairingFault>(grant),
{
    let fields = grant_fields(grant);
    lemma_keys();
    lemma_terms(grant.client_service_port, grant.placement, grant.persistent_permissions);
    crate::text::law_hex_round_trip(grant.psk);
    assert(!has_separator(fields[1].1));
    assert(!has_separator(fields[3].1));
    assert(!has_separator(fields[2].1));
    assert(is_message(fields));
    lemma_message_round_trip(fields);
    lemma_field_of_message(fields, 0);
    lemma_field_of_message(fields, 1);
    lemma_field_of_message(fields, 2);
    lemma_field_of_message(fields, 3);
    lemma_field_of_message(fields, 4);
    lemma_field_of_message(fields, 5);
    lemma_field_of_message(fields, 6);
}

/// The symbols of codes: all capital letters but I and O, and all digits but 0
/// and 1.
pub proof fn law_symbols_of_codes(c: char)
    ensures
        alphabet().len() == 32,
        alphabet().contains(c) <==> ('A' <= c <= 'Z' && c != 'I' && c != 'O') || '2' <= c <= '9',
{
    reveal_strlit("ABCDEFGHJKLMNPQRSTUVWXYZ23456789");
    let n = c as u32;
    let i: int = if '2' <= c <= '9' {
        n - 26
    } else if c <= 'H' {
        n - 65
    } else if c <= 'N' {
        n - 66
    } else {
        n - 67
    };
    if ('A' <= c <= 'Z' && c != 'I' && c != 'O') || '2' <= c <= '9' {
        assert(0 <= i < 32);
        assert(alphabet()[i] == c);
    }
    if alphabet().contains(c) {
        let k = choose|k: int| 0 <= k < alphabet().len() && alphabet()[k] == c;
        assert(0 <= k < 32);
    }
}

/// Five symbols, whatever their case and however they are grouped, are a code
/// and read as that code with capital letters. Nothing else is a code.
pub proof fn law_five_symbols_are_a_code(text: Seq<char>)
    ensures
        normalized(text) is Some <==> stripped(text).len() == 5 && forall|i: int|
            0 <= i < stripped(text).len() ==> alphabet().contains(upper(#[trigger] stripped(text)[i])),
        normalized(text) matches Some(code) ==> code.len() == 5 && forall|i: int|
            0 <= i < 5 ==> #[trigger] code[i] == upper(stripped(text)[i]),
{
    let s = stripped(text);
    let code = upper_all(s);
    assert(code.len() == s.len());
    if is_code(code) {
        assert forall|i: int| 0 <= i < s.len() implies alphabet().contains(
            upper(#[trigger] s[i]),
        ) by {
            assert(code[i] == upper(s[i]));
            assert(alphabet().contains(code[i]));
        }
    } else if s.len() == 5 && forall|i: int|
        0 <= i < s.len() ==> alphabet().contains(upper(#[trigger] s[i])) {
        assert forall|i: int| 0 <= i < code.len() implies alphabet().contains(
            #[trigger] code[i],
        ) by {
            assert(alphabet().contains(upper(s[i])));
        }
    }
}

/// Only dashes and spaces are grouping, and only small letters become capital.
pub proof fn law_grouping_and_case(s: Seq<char>, c: char)
    ensures
        stripped(Seq::empty()) == Seq::<char>::empty(),
        stripped(s.push('-')) == stripped(s),
        stripped(s.push(' ')) == stripped(s),
        c != '-' && c != ' ' ==> stripped(s.push(c)) == stripped(s).push(c),
        'a' <= c <= 'z' ==> upper(c) as u32 + 32 == c as u32,
        !('a' <= c <= 'z') ==> upper(c) == c,
{
    assert(s.push('-').drop_last() =~= s);
    assert(s.push(' ').drop_last() =~= s);
    assert(s.push(c).drop_last() =~= s);
}

/// Each symbol of a generated code stands for five of the bits, the last one for
/// the lowest.
pub proof fn law_symbols_stand_for_five_bits(value: u32)
    ensures
        code_of_bits(value).len() == 5,
        code_of_bits(value)[4] == alphabet()[(value % 32) as int],
        code_of_bits(value)[3] == code_of_bits(value / 32)[4],
        code_of_bits(value)[2] == code_of_bits(value / 32)[3],
        code_of_bits(value)[1] == code_of_bits(value / 32)[2],
        code_of_bits(value)[0] == code_of_bits(value / 32)[1],
{
}

/// A message is its version line and a line for each of its fields, with the key,
/// an equals sign and the value. It is refused if a value would end its line or
/// holds an equals sign, and if it has more than 1024 bytes.
pub proof fn law_messages_are_lines(fields: Seq<(Seq<char>, Seq<char>)>)
    ensures
        message_lines(fields).len() == fields.len() + 1,
        message_lines(fields)[0] == "CachyBridgePair/1"@,
        forall|i: int|
            0 <= i < fields.len() ==> message_lines(fields)[i + 1] == (#[trigger] fields[i]).0
                + seq!['='] + fields[i].1,
        encoded(fields) is Ok <==> crate::text::utf8(
            crate::text::unlines(message_lines(fields)),
        ).len() <= 1024 && forall|i: int|
            0 <= i < fields.len() ==> !(#[trigger] fields[i]).1.contains('\n')
                && !fields[i].1.contains('\r') && !fields[i].1.contains('='),
        encoded(fields) matches Ok(bytes) ==> bytes == crate::text::utf8(
            crate::text::unlines(message_lines(fields)),
        ),
{
    if forall|i: int|
        0 <= i < fields.len() ==> !(#[trigger] fields[i]).1.contains('\n')
            && !fields[i].1.contains('\r') && !fields[i].1.contains('=') {
        assert forall|i: int| 0 <= i < fields.len() implies !has_separator(
            (#[trigger] fields[i]).1,
        ) by {}
    }
    if !(exists|i: int| 0 <= i < fields.len() && has_separator((#[trigger] fields[i]).1)) {
        assert forall|i: int| 0 <= i < fields.len() implies !(#[trigger] fields[i]).1.contains(
            '\n',
        ) && !fields[i].1.contains('\r') && !fields[i].1.contains('=') by {
            assert(!has_separator(fields[i].1));
        }
    }
}

/// What requests and grants carry, in this order.
pub proof fn law_messages_carry_their_terms(request: RequestView, grant: GrantView)
    ensures
        request_fields(request) == seq![
            ("kind"@, "request"@),
            ("host_name"@, request.host_name),
            ("host_service_port"@, crate::text::decimal(request.host_service_port as nat)),
            ("placement"@, crate::config::placement_text(request.placement)),
            (
                "persistent_permissions"@,
                if request.persistent_permissions {
                    "true"@
                } else {
                    "false"@
                },
            ),
        ],
        grant_fields(grant) == seq![
            ("kind"@, "grant"@),
            ("peer_id"@, grant.peer_id),
            ("psk"@, crate::text::hex_text(grant.psk)),
            ("client_name"@, grant.client_name),
            ("client_service_port"@, crate::text::decimal(grant.client_service_port as nat)),
            ("placement"@, crate::config::placement_text(grant.placement)),
            (
                "persistent_permissions"@,
                if grant.persistent_permissions {
                    "true"@
                } else {
                    "false"@
                },
            ),
        ],
{
}

/// The value of a key is that of the first field with the key.
pub proof fn law_the_first_field_counts(
    fields: Seq<(Seq<char>, Seq<char>)>,
    key: Seq<char>,
    i: int,
)
    requires
        0 <= i <= fields.len(),
        i < fields.len() ==> fields[i].0 == key,
        forall|j: int| 0 <= j < i ==> (#[trigger] fields[j]).0 != key,
    ensures
        field_value(fields, key) == if i < fields.len() {
            Some(fields[i].1)
        } else {
            None
        },
{
    lemma_field_index(fields, key, 0, i);
}

/// Ports are numbers from 1 to 65535, choices are `true` and `false`, and
/// placements are named by their words.
pub proof fn law_terms_are_read(value: Seq<char>)
    ensures
        port_denoted(value) matches Ok(port) ==> 1 <= port && crate::text::unsigned(value, 65535)
            == Some(port as nat),
        crate::text::unsigned(value, 65535) matches Some(port) ==> (port > 0 ==> port_denoted(value)
            == Ok::<u16, PairingFault>(port as u16)) && (port == 0 ==> port_denoted(value) == Err::<
            u16,
            PairingFault,
        >(PairingFault::InvalidPort)),
        crate::text::unsigned(value, 65535) is None ==> port_denoted(value) is Err,
        bool_denoted(value) == Ok::<bool, PairingFault>(true) <==> value == "true"@,
        bool_denoted(value) == Ok::<bool, PairingFault>(false) <==> value == "false"@,
        placement_denoted(value) matches Ok(placement) ==> crate::config::placement_named(value)
            == Some(placement),
        placement_denoted(value) is Err <==> crate::config::placement_named(value) is None,
{
    crate::text::lemma_bool_texts_differ();
    assert("true"@ != "false"@);
    assert("true"@.len() == 4);
}

/// A request is read from a message exactly if the message is one, of that kind,
/// and has all of its terms; it says what the message says.
pub proof fn law_requests_are_read(bytes: Seq<u8>)
    ensures
        request_denoted(bytes) matches Ok(request) ==> (fields_denoted(bytes) matches Ok(fields)
            && field_value(fields, "kind"@) == Some("request"@) && field_value(fields, "host_name"@)
            == Some(request.host_name) && (field_value(fields, "host_service_port"@) matches Some(
            text,
        ) && port_denoted(text) == Ok::<u16, PairingFault>(request.host_service_port)) && (
        field_value(fields, "placement"@) matches Some(text) && placement_denoted(text) == Ok::<
            RelativePlacement,
            PairingFault,
        >(request.placement)) && (field_value(fields, "persistent_permissions"@) matches Some(text)
            && bool_denoted(text) == Ok::<bool, PairingFault>(request.persistent_permissions))),
        fields_denoted(bytes) matches Ok(fields) && field_value(fields, "kind"@) == Some("request"@)
            && field_value(fields, "host_name"@) is Some && (field_value(
            fields,
            "host_service_port"@,
        ) matches Some(text) && port_denoted(text) is Ok) && (field_value(fields, "placement"@)
            matches Some(text) && placement_denoted(text) is Ok) && (field_value(
            fields,
            "persistent_permissions"@,
        ) matches Some(text) && bool_denoted(text) is Ok) ==> request_denoted(bytes) is Ok,
{
}

/// A grant is read from a message exactly if the message is one, of that kind,
/// and has all of its terms; it says what the message says.
pub proof fn law_grants_are_read(bytes: Seq<u8>)
    ensures
        grant_denoted(bytes) matches Ok(grant) ==> (fields_denoted(bytes) matches Ok(fields)
            && field_value(fields, "kind"@) == Some("grant"@) && field_value(fields, "peer_id"@)
            == Some(grant.peer_id) && field_value(fields, "client_name"@) == Some(
            grant.client_name,
        ) && (field_value(fields, "psk"@) matches Some(text) && crate::config::psk_denoted(text)
            == Some(grant.psk)) && (field_value(fields, "client_service_port"@) matches Some(text)
            && port_denoted(text) == Ok::<u16, PairingFault>(grant.client_service_port)) && (
        field_value(fields, "placement"@) matches Some(text) && placement_denoted(text) == Ok::<
            RelativePlacement,
            PairingFault,
        >(grant.placement)) && (field_value(fields, "persistent_permissions"@) matches Some(text)
            && bool_denoted(text) == Ok::<bool, PairingFault>(grant.persistent_permissions))),
        fields_denoted(bytes) matches Ok(fields) && field_value(fields, "kind"@) == Some("grant"@)
            && field_value(fields, "peer_id"@) is Some && field_value(fields, "client_name"@)
            is Some && (field_value(fields, "psk"@) matches Some(text)
            && crate::config::psk_denoted(text) is Some) && (field_value(
            fields,
            "client_service_port"@,
        ) matches Some(text) && port_denoted(text) is Ok) && (field_value(fields, "placement"@)
            matches Some(text) && placement_denoted(text) is Ok) && (field_value(
            fields,
            "persistent_permissions"@,
        ) matches Some(text) && bool_denoted(text) is Ok) ==> grant_denoted(bytes) is Ok,
{
}

/// Fields are read line by line: each adds one field, unless it has no equals
/// sign, an empty side, or a key that there is already.
pub proof fn law_fields_are_read_line_by_line(
    lines: Seq<Seq<char>>,
    i: int,
    fields: Seq<(Seq<char>, Seq<char>)>,
    key: Seq<char>,
    value: Seq<char>,
)
    requires
        0 <= i < lines.len(),
        !key.contains('='),
    ensures
        fields_read(lines, lines.len() as int, fields) == Ok::<
            Seq<(Seq<char>, Seq<char>)>,
            PairingFault,
        >(fields),
        !lines[i].contains('=') ==> fields_read(lines, i, fields) is Err,
        lines[i] == key + seq!['='] + value ==> if key.len() > 0 && value.len() > 0 && field_value(
            fields,
            key,
        ) is None {
            fields_read(lines, i, fields) == fields_read(lines, i + 1, fields.push((key, value)))
        } else {
            fields_read(lines, i, fields) is Err
        },
{
    let line = lines[i];
    crate::text::lemma_find(line, '=');
    if line == key + seq!['='] + value {
        assert forall|j: int| 0 <= j < key.len() implies line[j] != '=' by {
            assert(key.contains(key[j]));
            assert(line[j] == key[j]);
        }
        crate::text::lemma_find_at(line, '=', key.len() as int);
        assert(line.take(key.len() as int) =~= key);
        assert(line.skip(key.len() as int + 1) =~= value);
    }
}

/// What is given is what was to be given, bytes or fault.
pub proof fn law_bytes_or_fault(
    bytes: Vec<u8>,
    error: PairingError,
    due: Result<Seq<u8>, PairingFault>,
)
    ensures
        gives_bytes(Ok(bytes), due) <==> due == Ok::<Seq<u8>, PairingFault>(bytes@),
        gives_bytes(Err(error), due) <==> due == Err::<Seq<u8>, PairingFault>(error@),
{
}

} // verus!
