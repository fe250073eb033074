//! Internet addresses and endpoints, and their text form.
use vstd::prelude::*;

use crate::text::{char_hex_value, char_is_hex_digit, push_decimal, push_numeral, to_chars};

verus! {

broadcast use vstd::array::group_array_axioms;

/// An IPv4 address by its octets or an IPv6 address by its segments.
#[derive(Debug, Clone, Copy, PartialEq, Eq)]
pub enum IpAddress {
    V4([u8; 4]),
    V6([u16; 8]),
}

/// An address with a port, and for IPv6 flow information and a scope.
#[derive(Debug, Clone, Copy, PartialEq, Eq)]
pub enum Endpoint {
    V4 { octets: [u8; 4], port: u16 },
    V6 { segments: [u16; 8], flowinfo: u32, scope_id: u32, port: u16 },
}

impl IpAddress {
    /// All bits of the address are zero.
    pub open spec fn unspecified(self) -> bool {
        match self {
            IpAddress::V4(octets) => forall|i: int| 0 <= i < 4 ==> octets@[i] == 0,
            IpAddress::V6(segments) => forall|i: int| 0 <= i < 8 ==> segments@[i] == 0,
        }
    }

    pub fn is_unspecified(&self) -> (unspecified: bool)
        ensures
            unspecified == self.unspecified(),
    {
        match self {
            IpAddress::V4(octets) => {
                octets[0] == 0 && octets[1] == 0 && octets[2] == 0 && octets[3] == 0
            },
            IpAddress::V6(segments) => {
                let mut i: usize = 0;
                while i < 8
                    invariant
                        i <= 8,
                        *self == IpAddress::V6(*segments),
                        forall|j: int| 0 <= j < i ==> segments@[j] == 0,
                    decreases 8 - i,
                {
                    if segments[i] != 0 {
                        proof {
                            assert(self->V6_0@[i as int] != 0);
                        }
                        return false;
                    }
                    i = i + 1;
                }
                true
            },
        }
    }

    /// 127.0.0.0/8 or `::1`.
    pub open spec fn loopback(self) -> bool {
        match self {
            IpAddress::V4(octets) => octets@[0] == 127,
            IpAddress::V6(segments) => segments@ == seq![0u16, 0, 0, 0, 0, 0, 0, 1],
        }
    }

    pub fn is_loopback(&self) -> (loopback: bool)
        ensures
            loopback == self.loopback(),
    {
        match self {
            IpAddress::V4(octets) => octets[0] == 127,
            IpAddress::V6(s) => {
                let found: bool = s[0] == 0 && s[1] == 0 && s[2] == 0 && s[3] == 0 && s[4] == 0
                    && s[5] == 0 && s[6] == 0 && s[7] == 1;
                proof {
                    let one = seq![0u16, 0, 0, 0, 0, 0, 0, 1];
                    if found {
                        assert(s@ =~= one);
                    } else if s@ == one {
                        assert(s@[0] == one[0] && s@[1] == one[1] && s@[2] == one[2] && s@[3]
                            == one[3] && s@[4] == one[4] && s@[5] == one[5] && s@[6] == one[6]
                            && s@[7] == one[7]);
                    }
                }
                found
            },
        }
    }

    /// An IPv6 address in fe80::/10.
    pub open spec fn v6_link_local(self) -> bool {
        self matches IpAddress::V6(segments) && 0xfe80 <= segments@[0] <= 0xfebf
    }

    pub fn is_v6_link_local(&self) -> (link_local: bool)
        ensures
            link_local == self.v6_link_local(),
    {
        match self {
            IpAddress::V4(_) => false,
            IpAddress::V6(segments) => 0xfe80 <= segments[0] && segments[0] <= 0xfebf,
        }
    }

    /// The endpoint at this address and a port.
    pub open spec fn at_port(self, port: u16) -> Endpoint {
        match self {
            IpAddress::V4(octets) => Endpoint::V4 { octets, port },
            IpAddress::V6(segments) => Endpoint::V6 { segments, flowinfo: 0, scope_id: 0, port },
        }
    }

    pub fn with_port(&self, port: u16) -> (endpoint: Endpoint)
        ensures
            endpoint == self.at_port(port),
    {
        match self {
            IpAddress::V4(octets) => Endpoint::V4 { octets: *octets, port },
            IpAddress::V6(segments) => Endpoint::V6 {
                segments: *segments,
                flowinfo: 0,
                scope_id: 0,
                port,
            },
        }
    }
}

impl Endpoint {
    pub open spec fn address(self) -> IpAddress {
        match self {
            Endpoint::V4 { octets, .. } => IpAddress::V4(octets),
            Endpoint::V6 { segments, .. } => IpAddress::V6(segments),
        }
    }

    pub fn ip(&self) -> (ip: IpAddress)
        ensures
            ip == self.address(),
    {
        match self {
            Endpoint::V4 { octets, .. } => IpAddress::V4(*octets),
            Endpoint::V6 { segments, .. } => IpAddress::V6(*segments),
        }
    }

    /// Whether two endpoints are the same.
    pub fn same(&self, other: &Endpoint) -> (same: bool)
        ensures
            same == (*self == *other),
    {
        match (self, other) {
            (
                Endpoint::V4 { octets: a, port: p },
                Endpoint::V4 { octets: b, port: q },
            ) => {
                let found: bool = a[0] == b[0] && a[1] == b[1] && a[2] == b[2] && a[3] == b[3]
                    && *p == *q;
                assert(found ==> *a =~= *b);
                found
            },
            (
                Endpoint::V6 { segments: a, flowinfo: f, scope_id: s, port: p },
                Endpoint::V6 { segments: b, flowinfo: g, scope_id: t, port: q },
            ) => {
                if *p != *q || *s != *t || *f != *g {
                    return false;
                }
                let mut i: usize = 0;
                while i < 8
                    invariant
                        i <= 8,
                        *self == (Endpoint::V6 {
                            segments: *a,
                            flowinfo: *f,
                            scope_id: *s,
                            port: *p,
                        }),
                        *other == (Endpoint::V6 {
                            segments: *b,
                            flowinfo: *g,
                            scope_id: *t,
                            port: *q,
                        }),
                        forall|j: int| 0 <= j < i ==> a@[j] == b@[j],
                    decreases 8 - i,
                {
                    if a[i] != b[i] {
                        assert(a@[i as int] != b@[i as int]);
                        return false;
                    }
                    i = i + 1;
                }
                assert(*a =~= *b);
                true
            },
            _ => false,
        }
    }
}

// Writing.

pub open spec fn v4_text(o: Seq<u8>) -> Seq<char> {
    crate::text::decimal(o[0] as nat) + seq!['.'] + crate::text::decimal(o[1] as nat) + seq!['.']
        + crate::text::decimal(o[2] as nat) + seq!['.'] + crate::text::decimal(o[3] as nat)
}

/// Segments in lower-case hexadecimal, each after the first behind a colon.
pub open spec fn joined(segments: Seq<u16>) -> Seq<char>
    decreases segments.len(),
{
    if segments.len() == 0 {
        Seq::empty()
    } else if segments.len() == 1 {
        crate::text::numeral(segments[0] as nat, 16)
    } else {
        joined(segments.drop_last()) + seq![':'] + crate::text::numeral(
            segments.last() as nat,
            16,
        )
    }
}

/// How many zero segments stand from `at` on.
pub open spec fn zero_run(segments: Seq<u16>, at: int) -> int
    decreases segments.len() - at,
{
    if 0 <= at < segments.len() && segments[at] == 0 {
        1 + zero_run(segments, at + 1)
    } else {
        0
    }
}

/// Where the first of the longest zero runs among the first `upto` positions begins.
pub open spec fn longest_run(segments: Seq<u16>, upto: int) -> int
    decreases upto,
{
    if upto <= 1 {
        0
    } else {
        let before = longest_run(segments, upto - 1);
        if zero_run(segments, upto - 1) > zero_run(segments, before) {
            upto - 1
        } else {
            before
        }
    }
}

/// An IPv4 address mapped into IPv6.
pub open spec fn is_mapped(s: Seq<u16>) -> bool {
    s[0] == 0 && s[1] == 0 && s[2] == 0 && s[3] == 0 && s[4] == 0 && s[5] == 0xffff
}

pub open spec fn mapped_octets(s: Seq<u16>) -> Seq<u8> {
    seq![(s[6] / 256) as u8, (s[6] % 256) as u8, (s[7] / 256) as u8, (s[7] % 256) as u8]
}

/// Mapped addresses keep their dotted part; otherwise the longest run of two
/// or more zero segments is left out.
pub open spec fn v6_text(s: Seq<u16>) -> Seq<char> {
    let start = longest_run(s, 8);
    let len = zero_run(s, start);
    if is_mapped(s) {
        "::ffff:"@ + v4_text(mapped_octets(s))
    } else if len > 1 {
        joined(s.take(start)) + "::"@ + joined(s.skip(start + len))
    } else {
        joined(s)
    }
}

pub open spec fn endpoint_text(endpoint: Endpoint) -> Seq<char> {
    match endpoint {
        Endpoint::V4 { octets, port } => v4_text(octets@) + seq![':'] + crate::text::decimal(
            port as nat,
        ),
        Endpoint::V6 { segments, scope_id, port, .. } => seq!['['] + v6_text(segments@) + (
        if scope_id == 0 {
            Seq::empty()
        } else {
            seq!['%'] + crate::text::decimal(scope_id as nat)
        }) + seq![']', ':'] + crate::text::decimal(port as nat),
    }
}

fn push_v4(out: &mut String, a: u8, b: u8, c: u8, d: u8)
    ensures
        final(out)@ == old(out)@ + v4_text(seq![a, b, c, d]),
{
    push_decimal(out, a as u64);
    out.push('.');
    push_decimal(out, b as u64);
    out.push('.');
    push_decimal(out, c as u64);
    out.push('.');
    push_decimal(out, d as u64);
    assert(out@ =~= old(out)@ + v4_text(seq![a, b, c, d]));
}

fn push_joined(out: &mut String, segments: &[u16; 8], from: usize, to: usize)
    requires
        from <= to <= 8,
    ensures
        final(out)@ == old(out)@ + joined(segments@.subrange(from as int, to as int)),
{
    let mut i: usize = from;
    assert(out@ =~= old(out)@ + joined(segments@.subrange(from as int, i as int)));
    while i < to
        invariant
            from <= i <= to <= 8,
            out@ == old(out)@ + joined(segments@.subrange(from as int, i as int)),
        decreases to - i,
    {
        let ghost next = segments@.subrange(from as int, i + 1);
        assert(next.drop_last() =~= segments@.subrange(from as int, i as int));
        if i > from {
            out.push(':');
        }
        push_numeral(out, segments[i] as u64, 16);
        i = i + 1;
        assert(out@ =~= old(out)@ + joined(segments@.subrange(from as int, i as int)));
    }
}

fn count_zeros(segments: &[u16; 8], at: usize) -> (len: usize)
    requires
        at <= 8,
    ensures
        len == zero_run(segments@, at as int),
        len + at <= 8,
    decreases 8 - at,
{
    if at < 8 && segments[at] == 0 {
        1 + count_zeros(segments, at + 1)
    } else {
        0
    }
}

fn push_v6(out: &mut String, s: &[u16; 8])
    ensures
        final(out)@ == old(out)@ + v6_text(s@),
{
    if s[0] == 0 && s[1] == 0 && s[2] == 0 && s[3] == 0 && s[4] == 0 && s[5] == 0xffff {
        out.push_str("::ffff:");
        push_v4(
            out,
            (s[6] / 256) as u8,
            (s[6] % 256) as u8,
            (s[7] / 256) as u8,
            (s[7] % 256) as u8,
        );
        assert(out@ =~= old(out)@ + v6_text(s@));
        return;
    }
    let mut start: usize = 0;
    let mut len: usize = count_zeros(s, 0);
    let mut i: usize = 1;
    while i < 8
        invariant
            1 <= i <= 8,
            start < i,
            start == longest_run(s@, i as int),
            len == zero_run(s@, start as int),
            start + len <= 8,
        decreases 8 - i,
    {
        let run: usize = count_zeros(s, i);
        if run > len {
            start = i;
            len = run;
        }
        i = i + 1;
    }
    if len > 1 {
        push_joined(out, s, 0, start);
        out.push_str("::");
        push_joined(out, s, start + len, 8);
        assert(s@.subrange(0, start as int) =~= s@.take(start as int));
        assert(s@.subrange(start + len, 8) =~= s@.skip(start + len));
        assert(out@ =~= old(out)@ + v6_text(s@));
    } else {
        push_joined(out, s, 0, 8);
        assert(s@.subrange(0, 8) =~= s@);
    }
}

/// Appends the text of an endpoint.
pub fn push_endpoint(out: &mut String, endpoint: &Endpoint)
    ensures
        final(out)@ == old(out)@ + endpoint_text(*endpoint),
{
    match endpoint {
        Endpoint::V4 { octets, port } => {
            push_v4(out, octets[0], octets[1], octets[2], octets[3]);
            assert(seq![octets@[0], octets@[1], octets@[2], octets@[3]] =~= octets@);
            out.push(':');
            push_decimal(out, *port as u64);
        },
        Endpoint::V6 { segments, scope_id, port, .. } => {
            out.push('[');
            push_v6(out, segments);
            if *scope_id != 0 {
                out.push('%');
                push_decimal(out, *scope_id as u64);
            }
            out.push(']');
            out.push(':');
            push_decimal(out, *port as u64);
        },
    }
    assert(out@ =~= old(out)@ + endpoint_text(*endpoint));
}

// Reading.

/// Number of leading digits to a base.
pub open spec fn digit_run(s: Seq<char>, radix: nat) -> int
    decreases s.len(),
{
    if s.len() > 0 && crate::text::is_digit_of(s[0], radix) {
        1 + digit_run(s.skip(1), radix)
    } else {
        0
    }
}

/// Reads all leading digits as one number: at least one digit, at most
/// `max_digits`, no superfluous leading zero unless allowed, at most `max`.
#[verifier::opaque]
pub open spec fn read_number(
    s: Seq<char>,
    radix: nat,
    max_digits: int,
    zero_prefix: bool,
    max: nat,
) -> Option<(nat, Seq<char>)> {
    let run = digit_run(s, radix);
    let value = crate::text::numeral_value(s.take(run), radix);
    if run == 0 || run > max_digits || (!zero_prefix && run > 1 && s[0] == '0') || value > max {
        None
    } else {
        Some((value, s.skip(run)))
    }
}

/// Reads one character.
pub open spec fn read_char(s: Seq<char>, c: char) -> Option<Seq<char>> {
    if s.len() > 0 && s[0] == c {
        Some(s.skip(1))
    } else {
        None
    }
}

pub open spec fn read_octet(s: Seq<char>) -> Option<(nat, Seq<char>)> {
    read_number(s, 10, 3, false, 255)
}

pub open spec fn read_dot_octet(s: Seq<char>) -> Option<(nat, Seq<char>)> {
    match read_char(s, '.') {
        Some(rest) => read_octet(rest),
        None => None,
    }
}

/// Four dotted octets.
pub open spec fn read_v4(s: Seq<char>) -> Option<(Seq<u8>, Seq<char>)> {
    match read_octet(s) {
        None => None,
        Some((a, s1)) => match read_dot_octet(s1) {
            None => None,
            Some((b, s2)) => match read_dot_octet(s2) {
                None => None,
                Some((c, s3)) => match read_dot_octet(s3) {
                    None => None,
                    Some((d, s4)) => Some((seq![a as u8, b as u8, c as u8, d as u8], s4)),
                },
            },
        },
    }
}

/// Colon-separated groups from group `i` up to `limit`: the groups, what
/// follows them, and whether the last two were written as a dotted address.
pub open spec fn read_groups(s: Seq<char>, i: int, limit: int) -> (Seq<u16>, Seq<char>, bool)
    decreases limit - i,
{
    let at = if i > 0 {
        read_char(s, ':')
    } else {
        Some(s)
    };
    if i >= limit || at is None {
        (Seq::empty(), s, false)
    } else if i < limit - 1 && read_v4(at->0) is Some {
        let (o, rest) = read_v4(at->0)->0;
        (seq![(o[0] * 256 + o[1]) as u16, (o[2] * 256 + o[3]) as u16], rest, true)
    } else {
        match read_number(at->0, 16, 4, true, 65535) {
            None => (Seq::empty(), s, false),
            Some((group, rest)) => {
                let (more, end, dotted) = read_groups(rest, i + 1, limit);
                (seq![group as u16] + more, end, dotted)
            },
        }
    }
}

pub open spec fn zeros(len: int) -> Seq<u16> {
    Seq::new(len as nat, |i: int| 0u16)
}

/// Eight groups, or fewer around one `::`.
pub open spec fn read_v6(s: Seq<char>) -> Option<(Seq<u16>, Seq<char>)> {
    let (head, rest, dotted) = read_groups(s, 0, 8);
    if head.len() == 8 {
        Some((head, rest))
    } else if dotted || rest.len() < 2 || rest[0] != ':' || rest[1] != ':' {
        None
    } else {
        let (tail, end, _) = read_groups(rest.skip(2), 0, 7 - head.len());
        Some((head + zeros(8 - head.len() - tail.len()) + tail, end))
    }
}

/// An optional scope: a percent sign and a decimal number.
pub open spec fn read_scope(s: Seq<char>) -> (nat, Seq<char>) {
    match read_char(s, '%') {
        None => (0, s),
        Some(digits) => match read_number(digits, 10, usize::MAX as int, true, 0xffff_ffff) {
            None => (0, s),
            Some(found) => found,
        },
    }
}

/// A colon and a port number, with nothing after it.
pub open spec fn read_port(s: Seq<char>) -> Option<u16> {
    match read_char(s, ':') {
        None => None,
        Some(digits) => match read_number(digits, 10, usize::MAX as int, true, 65535) {
            Some((port, rest)) if rest.len() == 0 => Some(port as u16),
            _ => None,
        },
    }
}

/// What an endpoint text must be.
pub open spec fn denotes(s: Seq<char>, endpoint: Endpoint) -> bool {
    match endpoint {
        Endpoint::V4 { octets, port } => read_v4(s) matches Some((o, rest)) && o == octets@
            && read_port(rest) == Some(port),
        Endpoint::V6 { segments, flowinfo, scope_id, port } => {
            &&& flowinfo == 0
            &&& s.len() > 0 && s[0] == '['
            &&& read_v6(s.skip(1)) matches Some((groups, rest))
            &&& groups == segments@
            &&& read_scope(rest).0 == scope_id
            &&& read_char(read_scope(rest).1, ']') matches Some(after)
            &&& read_port(after) == Some(port)
        },
    }
}

/// The endpoint that a text denotes, if any.
pub open spec fn endpoint_denoted(s: Seq<char>) -> Option<Endpoint> {
    if exists|endpoint: Endpoint| denotes(s, endpoint) {
        Some(choose|endpoint: Endpoint| denotes(s, endpoint))
    } else {
        None
    }
}

/// What an address text must be.
pub open spec fn ip_denotes(s: Seq<char>, ip: IpAddress) -> bool {
    match ip {
        IpAddress::V4(octets) => read_v4(s) == Some((octets@, Seq::<char>::empty())),
        IpAddress::V6(segments) => read_v6(s) == Some((segments@, Seq::<char>::empty())),
    }
}

proof fn lemma_digit_run(s: Seq<char>, radix: nat)
    ensures
        0 <= digit_run(s, radix) <= s.len(),
        forall|j: int|
            0 <= j < digit_run(s, radix) ==> crate::text::is_digit_of(#[trigger] s[j], radix),
    decreases s.len(),
{
    if s.len() > 0 && crate::text::is_digit_of(s[0], radix) {
        lemma_digit_run(s.skip(1), radix);
        assert forall|j: int| 0 <= j < digit_run(s, radix) implies crate::text::is_digit_of(
            #[trigger] s[j],
            radix,
        ) by {
            if j > 0 {
                assert(s.skip(1)[j - 1] == s[j]);
            }
        }
    }
}

proof fn lemma_digit_run_at(s: Seq<char>, radix: nat, at: int)
    requires
        0 <= at <= s.len(),
        forall|j: int| 0 <= j < at ==> crate::text::is_digit_of(#[trigger] s[j], radix),
        at < s.len() ==> !crate::text::is_digit_of(s[at], radix),
    ensures
        digit_run(s, radix) == at,
    decreases s.len(),
{
    if at > 0 {
        assert(s[0] == s[0]);
        assert forall|j: int| 0 <= j < at - 1 implies crate::text::is_digit_of(
            #[trigger] s.skip(1)[j],
            radix,
        ) by {
            assert(s.skip(1)[j] == s[j + 1]);
        }
        lemma_digit_run_at(s.skip(1), radix, at - 1);
    }
}

proof fn lemma_value_grows(s: Seq<char>, i: int, radix: nat)
    requires
        0 <= i <= s.len(),
        radix >= 1,
    ensures
        crate::text::numeral_value(s.take(i), radix) <= crate::text::numeral_value(s, radix),
    decreases s.len(),
{
    if i == s.len() {
        assert(s.take(i) =~= s);
    } else {
        assert(s.drop_last().take(i) =~= s.take(i));
        lemma_value_grows(s.drop_last(), i, radix);
        let v = crate::text::numeral_value(s.drop_last(), radix);
        assert(v * radix >= v) by (nonlinear_arith)
            requires
                radix >= 1,
                v >= 0,
        ;
    }
}

/// Reads a number at `at`; gives the value and where it ends.
fn number_at(
    chars: &[char],
    at: usize,
    radix: u64,
    max_digits: usize,
    zero_prefix: bool,
    max: u64,
) -> (found: Option<(u64, usize)>)
    requires
        at <= chars.len(),
        radix == 10 || radix == 16,
        max <= 0xffff_ffff,
    ensures
        match found {
            Some((value, end)) => at <= end <= chars.len() && value <= max && read_number(
                chars@.skip(at as int),
                radix as nat,
                max_digits as int,
                zero_prefix,
                max as nat,
            ) == Some((value as nat, chars@.skip(end as int))),
            None => read_number(
                chars@.skip(at as int),
                radix as nat,
                max_digits as int,
                zero_prefix,
                max as nat,
            ) is None,
        },
{
    reveal(read_number);
    let ghost s = chars@.skip(at as int);
    let mut i: usize = at;
    let mut value: u64 = 0;
    let mut exceeded: bool = false;
    assert(s.take(0) =~= Seq::<char>::empty());
    while i < chars.len() && char_is_hex_digit(chars[i]) && (char_hex_value(chars[i]) as u64)
        < radix
        invariant
            at <= i <= chars.len(),
            s == chars@.skip(at as int),
            radix == 10 || radix == 16,
            max <= 0xffff_ffff,
            forall|j: int|
                0 <= j < i - at ==> crate::text::is_digit_of(#[trigger] s[j], radix as nat),
            !exceeded ==> value == crate::text::numeral_value(s.take(i - at), radix as nat)
                && value <= max,
            exceeded ==> crate::text::numeral_value(s.take(i - at), radix as nat) > max,
        decreases chars.len() - i,
    {
        let ghost next = s.take(i - at + 1);
        assert(next.drop_last() =~= s.take(i - at));
        assert(next.last() == chars@[i as int]);
        proof {
            lemma_value_grows(next, i - at, radix as nat);
            assert(next.take(i - at) =~= s.take(i - at));
        }
        if !exceeded {
            assert(value * radix <= 0xffff_ffff * 16) by (nonlinear_arith)
                requires
                    0 <= value <= 0xffff_ffff,
                    0 <= radix <= 16,
            ;
            value = value * radix + char_hex_value(chars[i]) as u64;
            if value > max {
                exceeded = true;
            }
        }
        i = i + 1;
    }
    let run: usize = i - at;
    proof {
        lemma_digit_run_at(s, radix as nat, run as int);
        assert(s.skip(run as int) =~= chars@.skip(i as int));
    }
    if run == 0 || run > max_digits || (!zero_prefix && run > 1 && chars[at] == '0') || exceeded {
        None
    } else {
        Some((value, i))
    }
}

fn char_at(chars: &[char], at: usize, c: char) -> (end: Option<usize>)
    requires
        at <= chars.len(),
    ensures
        match end {
            Some(end) => end == at + 1 && end <= chars.len() && read_char(
                chars@.skip(at as int),
                c,
            ) == Some(chars@.skip(end as int)),
            None => read_char(chars@.skip(at as int), c) is None,
        },
{
    if at < chars.len() && chars[at] == c {
        assert(chars@.skip(at as int).skip(1) =~= chars@.skip(at + 1));
        Some(at + 1)
    } else {
        None
    }
}

fn octet_at(chars: &[char], at: usize, dot: bool) -> (found: Option<(u8, usize)>)
    requires
        at <= chars.len(),
    ensures
        ({
            let s = chars@.skip(at as int);
            let read = if dot {
                read_dot_octet(s)
            } else {
                read_octet(s)
            };
            match found {
                Some((value, end)) => end <= chars.len() && read == Some(
                    (value as nat, chars@.skip(end as int)),
                ),
                None => read is None,
            }
        }),
{
    let mut i: usize = at;
    if dot {
        match char_at(chars, at, '.') {
            Some(next) => {
                i = next;
            },
            None => {
                return None;
            },
        }
    }
    match number_at(chars, i, 10, 3, false, 255) {
        Some((value, end)) => Some((value as u8, end)),
        None => None,
    }
}

fn v4_at(chars: &[char], at: usize) -> (found: Option<([u8; 4], usize)>)
    requires
        at <= chars.len(),
    ensures
        match found {
            Some((octets, end)) => end <= chars.len() && read_v4(chars@.skip(at as int)) == Some(
                (octets@, chars@.skip(end as int)),
            ),
            None => read_v4(chars@.skip(at as int)) is None,
        },
{
    let (a, i): (u8, usize) = match octet_at(chars, at, false) {
        Some(found) => found,
        None => {
            return None;
        },
    };
    let (b, i): (u8, usize) = match octet_at(chars, i, true) {
        Some(found) => found,
        None => {
            return None;
        },
    };
    let (c, i): (u8, usize) = match octet_at(chars, i, true) {
        Some(found) => found,
        None => {
            return None;
        },
    };
    let (d, i): (u8, usize) = match octet_at(chars, i, true) {
        Some(found) => found,
        None => {
            return None;
        },
    };
    let octets: [u8; 4] = [a, b, c, d];
    assert(octets@ =~= seq![a, b, c, d]);
    Some((octets, i))
}

/// Reads groups from `at`, from group `i` up to `limit`.
fn groups_at(chars: &[char], at: usize, i: usize, limit: usize) -> (found: (
    Vec<u16>,
    usize,
    bool,
))
    requires
        at <= chars.len(),
        i <= limit <= 8,
    ensures
        found.1 <= chars.len(),
        read_groups(chars@.skip(at as int), i as int, limit as int) == (
            found.0@,
            chars@.skip(found.1 as int),
            found.2,
        ),
    decreases limit - i,
{
    let none: Vec<u16> = Vec::new();
    if i >= limit {
        return (none, at, false);
    }
    let mut from: usize = at;
    if i > 0 {
        match char_at(chars, at, ':') {
            Some(next) => {
                from = next;
            },
            None => {
                return (none, at, false);
            },
        }
    }
    if i < limit - 1 {
        if let Some((o, end)) = v4_at(chars, from) {
            let mut groups: Vec<u16> = Vec::new();
            groups.push(o[0] as u16 * 256 + o[1] as u16);
            groups.push(o[2] as u16 * 256 + o[3] as u16);
            assert(groups@ =~= seq![
                (o@[0] * 256 + o@[1]) as u16,
                (o@[2] * 256 + o@[3]) as u16,
            ]);
            return (groups, end, true);
        }
    }
    match number_at(chars, from, 16, 4, true, 65535) {
        None => (none, at, false),
        Some((group, end)) => {
            let (more, last, dotted) = groups_at(chars, end, i + 1, limit);
            let mut groups: Vec<u16> = Vec::new();
            groups.push(group as u16);
            let mut k: usize = 0;
            while k < more.len()
                invariant
                    k <= more.len(),
                    groups@ == seq![group as u16] + more@.take(k as int),
                decreases more.len() - k,
            {
                groups.push(more[k]);
                k = k + 1;
                assert(groups@ =~= seq![group as u16] + more@.take(k as int));
            }
            assert(more@.take(k as int) =~= more@);
            (groups, last, dotted)
        },
    }
}

proof fn lemma_groups_len(s: Seq<char>, i: int, limit: int)
    requires
        0 <= i <= limit,
    ensures
        read_groups(s, i, limit).0.len() <= limit - i,
    decreases limit - i,
{
    let at = if i > 0 {
        read_char(s, ':')
    } else {
        Some(s)
    };
    if i < limit && at is Some && !(i < limit - 1 && read_v4(at->0) is Some) {
        if let Some((_, rest)) = read_number(at->0, 16, 4, true, 65535) {
            lemma_groups_len(rest, i + 1, limit);
        }
    }
}

fn v6_at(chars: &[char], at: usize) -> (found: Option<([u16; 8], usize)>)
    requires
        at <= chars.len(),
    ensures
        match found {
            Some((segments, end)) => end <= chars.len() && read_v6(chars@.skip(at as int)) == Some(
                (segments@, chars@.skip(end as int)),
            ),
            None => read_v6(chars@.skip(at as int)) is None,
        },
{
    let (head, next, dotted) = groups_at(chars, at, 0, 8);
    proof {
        lemma_groups_len(chars@.skip(at as int), 0, 8);
    }
    let mut segments: [u16; 8] = [0; 8];
    let mut k: usize = 0;
    while k < head.len()
        invariant
            k <= head.len() <= 8,
            forall|j: int| 0 <= j < k ==> segments@[j] == head@[j],
            forall|j: int| k <= j < 8 ==> segments@[j] == 0,
        decreases head.len() - k,
    {
        segments[k] = head[k];
        k = k + 1;
    }
    if head.len() == 8 {
        assert(segments@ =~= head@);
        return Some((segments, next));
    }
    if dotted || chars.len() - next < 2 || chars[next] != ':' || chars[next + 1] != ':' {
        return None;
    }
    let limit: usize = 7 - head.len();
    let (tail, end, _) = groups_at(chars, next + 2, 0, limit);
    proof {
        assert(chars@.skip(next as int).skip(2) =~= chars@.skip(next + 2));
        lemma_groups_len(chars@.skip(next + 2), 0, limit as int);
    }
    let first: usize = 8 - tail.len();
    let mut k: usize = 0;
    while k < tail.len()
        invariant
            k <= tail.len(),
            first + tail.len() == 8,
            head.len() <= first,
            forall|j: int| 0 <= j < head.len() ==> segments@[j] == head@[j],
            forall|j: int| head.len() <= j < first ==> segments@[j] == 0,
            forall|j: int| 0 <= j < k ==> segments@[first + j] == tail@[j],
        decreases tail.len() - k,
    {
        segments[first + k] = tail[k];
        k = k + 1;
    }
    assert(segments@ =~= head@ + zeros(8 - head@.len() - tail@.len()) + tail@) by {
        assert forall|j: int| first <= j < 8 implies segments@[j] == tail@[j - first] by {
            assert(segments@[first + (j - first)] == tail@[j - first]);
        }
    }
    Some((segments, end))
}

fn port_at(chars: &[char], at: usize) -> (port: Option<u16>)
    requires
        at <= chars.len(),
    ensures
        port == read_port(chars@.skip(at as int)),
{
    match char_at(chars, at, ':') {
        None => None,
        Some(digits) => match number_at(chars, digits, 10, usize::MAX, true, 65535) {
            Some((port, end)) => {
                if end == chars.len() {
                    Some(port as u16)
                } else {
                    None
                }
            },
            None => None,
        },
    }
}

/// Finds an endpoint that the text denotes.
fn find_endpoint(text: &[char]) -> (endpoint: Option<Endpoint>)
    ensures
        match endpoint {
            Some(e) => denotes(text@, e),
            None => forall|e: Endpoint| !denotes(text@, e),
        },
{
    assert(text@.skip(0) =~= text@);
    if let Some((octets, end)) = v4_at(text, 0) {
        assert forall|e: Endpoint| denotes(text@, e) implies e is V4 by {
            if e is V6 {
                assert(text@[0] == '[');
                lemma_no_group(text@);
            }
        }
        return match port_at(text, end) {
            Some(port) => Some(Endpoint::V4 { octets, port }),
            None => None,
        };
    }
    if text.len() == 0 || text[0] != '[' {
        return None;
    }
    let (segments, end) = match v6_at(text, 1) {
        Some(found) => found,
        None => {
            return None;
        },
    };
    let mut scope: u64 = 0;
    let mut after: usize = end;
    if let Some(digits) = char_at(text, end, '%') {
        if let Some((value, next)) = number_at(text, digits, 10, usize::MAX, true, 0xffff_ffff) {
            scope = value;
            after = next;
        }
    }
    match char_at(text, after, ']') {
        None => None,
        Some(next) => match port_at(text, next) {
            Some(port) => Some(
                Endpoint::V6 { segments, flowinfo: 0, scope_id: scope as u32, port },
            ),
            None => None,
        },
    }
}

/// Finds an address that the text denotes.
fn find_ip(text: &[char]) -> (ip: Option<IpAddress>)
    ensures
        match ip {
            Some(a) => ip_denotes(text@, a),
            None => forall|a: IpAddress| !ip_denotes(text@, a),
        },
{
    assert(text@.skip(0) =~= text@);
    if let Some((octets, end)) = v4_at(text, 0) {
        if end == text.len() {
            assert(text@.skip(end as int) =~= Seq::<char>::empty());
            return Some(IpAddress::V4(octets));
        }
        assert(text@.skip(end as int).len() > 0);
    }
    if let Some((segments, end)) = v6_at(text, 0) {
        if end == text.len() {
            assert(text@.skip(end as int) =~= Seq::<char>::empty());
            return Some(IpAddress::V6(segments));
        }
        assert(text@.skip(end as int).len() > 0);
    }
    None
}

/// The address that a text denotes, if any.
pub open spec fn ip_denoted(s: Seq<char>) -> Option<IpAddress> {
    if exists|ip: IpAddress| ip_denotes(s, ip) {
        Some(choose|ip: IpAddress| ip_denotes(s, ip))
    } else {
        None
    }
}

/// A text denotes at most one address.
pub proof fn lemma_ip_denotes_one(s: Seq<char>, a: IpAddress, b: IpAddress)
    requires
        ip_denotes(s, a),
        ip_denotes(s, b),
    ensures
        a == b,
{
    if read_v4(s) is Some {
        assert(read_groups(s, 0, 8).2);
        assert(read_groups(s, 0, 8).0.len() == 2);
        assert(read_v6(s) is None);
    }
    match (a, b) {
        (IpAddress::V4(x), IpAddress::V4(y)) => {
            assert forall|i: int| 0 <= i < 4 implies x[i] == y[i] by {
                assert(x@[i] == y@[i]);
            }
            assert(x =~= y);
        },
        (IpAddress::V6(x), IpAddress::V6(y)) => {
            assert forall|i: int| 0 <= i < 8 implies x[i] == y[i] by {
                assert(x@[i] == y@[i]);
            }
            assert(x =~= y);
        },
        _ => {},
    }
}

/// Reads an address without a port.
pub fn parse_ip(text: &[char]) -> (ip: Option<IpAddress>)
    ensures
        ip == ip_denoted(text@),
{
    let ip = find_ip(text);
    proof {
        if let Some(a) = ip {
            assert(ip_denotes(text@, a));
            lemma_ip_denotes_one(text@, a, ip_denoted(text@)->0);
        }
    }
    ip
}

/// Reads an address and port: `1.2.3.4:5` or `[::1]:5`, the latter optionally
/// with a scope.
pub fn parse_endpoint(text: &[char]) -> (endpoint: Option<Endpoint>)
    ensures
        endpoint == endpoint_denoted(text@),
{
    let endpoint = find_endpoint(text);
    proof {
        if let Some(e) = endpoint {
            assert(denotes(text@, e));
            lemma_denotes_one(text@, e, endpoint_denoted(text@)->0);
        }
    }
    endpoint
}

/// The endpoint that a text denotes, if any.
pub fn endpoint_from_text(text: &str) -> (endpoint: Option<Endpoint>)
    ensures
        endpoint == endpoint_denoted(text@),
{
    parse_endpoint(to_chars(text).as_slice())
}

// Text written is read back.

proof fn lemma_powers()
    ensures
        vstd::arithmetic::power::pow(10, 3) == 1000,
        vstd::arithmetic::power::pow(16, 4) == 0x1_0000,
        vstd::arithmetic::power::pow(10, 10) == 10_000_000_000,
{
    reveal(vstd::arithmetic::power::pow);
    reveal_with_fuel(vstd::arithmetic::power::pow, 12);
}

/// A numeral is read whole where no digit follows it.
proof fn lemma_read_numeral(
    n: nat,
    radix: nat,
    rest: Seq<char>,
    max_digits: int,
    zero_prefix: bool,
    max: nat,
)
    requires
        2 <= radix <= 16,
        rest.len() > 0 ==> !crate::text::is_digit_of(rest[0], radix),
        crate::text::numeral(n, radix).len() <= max_digits,
        n <= max,
    ensures
        read_number(crate::text::numeral(n, radix) + rest, radix, max_digits, zero_prefix, max)
            == Some((n, rest)),
{
    reveal(read_number);
    let digits = crate::text::numeral(n, radix);
    let s = digits + rest;
    crate::text::lemma_numeral(n, radix);
    assert forall|j: int| 0 <= j < digits.len() implies crate::text::is_digit_of(
        #[trigger] s[j],
        radix,
    ) by {
        assert(s[j] == digits[j]);
    }
    lemma_digit_run_at(s, radix, digits.len() as int);
    assert(s.take(digits.len() as int) =~= digits);
    assert(s.skip(digits.len() as int) =~= rest);
    assert(s[0] == digits[0]);
}

proof fn lemma_read_octet(o: u8, rest: Seq<char>)
    requires
        rest.len() > 0 ==> !crate::text::is_digit(rest[0]),
    ensures
        read_octet(crate::text::decimal(o as nat) + rest) == Some((o as nat, rest)),
        read_dot_octet(seq!['.'] + crate::text::decimal(o as nat) + rest) == Some(
            (o as nat, rest),
        ),
{
    crate::text::lemma_decimal_is_numeral(o as nat);
    lemma_powers();
    crate::text::lemma_numeral_len(o as nat, 10, 1000, 3);
    lemma_read_numeral(o as nat, 10, rest, 3, false, 255);
    let s = seq!['.'] + crate::text::decimal(o as nat) + rest;
    assert(s.skip(1) =~= crate::text::decimal(o as nat) + rest);
}

proof fn lemma_dotted_front(
    a: Seq<char>,
    b: Seq<char>,
    c: Seq<char>,
    d: Seq<char>,
    rest: Seq<char>,
)
    ensures
        a + seq!['.'] + b + seq!['.'] + c + seq!['.'] + d + rest == a + (seq!['.'] + b + (seq!['.']
            + c + (seq!['.'] + d + rest))),
{
    assert(a + seq!['.'] + b + seq!['.'] + c + seq!['.'] + d + rest =~= a + (seq!['.'] + b + (seq![
        '.',
    ] + c + (seq!['.'] + d + rest))));
}

proof fn lemma_read_v4(o: Seq<u8>, rest: Seq<char>)
    requires
        o.len() == 4,
        rest.len() > 0 ==> !crate::text::is_digit(rest[0]),
    ensures
        read_v4(v4_text(o) + rest) == Some((o, rest)),
{
    let r3 = seq!['.'] + crate::text::decimal(o[3] as nat) + rest;
    let r2 = seq!['.'] + crate::text::decimal(o[2] as nat) + r3;
    let r1 = seq!['.'] + crate::text::decimal(o[1] as nat) + r2;
    lemma_read_octet(o[3], rest);
    lemma_read_octet(o[2], r3);
    lemma_read_octet(o[1], r2);
    lemma_read_octet(o[0], r1);
    lemma_dotted_front(
        crate::text::decimal(o[0] as nat),
        crate::text::decimal(o[1] as nat),
        crate::text::decimal(o[2] as nat),
        crate::text::decimal(o[3] as nat),
        rest,
    );
    assert(seq![o[0], o[1], o[2], o[3]] =~= o);
}

/// No dotted address begins with a hexadecimal group that ends elsewhere than at a dot.
proof fn lemma_group_is_not_v4(group: u16, rest: Seq<char>)
    requires
        rest.len() > 0 ==> !crate::text::is_hex_digit(rest[0]) && rest[0] != '.',
    ensures
        read_v4(crate::text::numeral(group as nat, 16) + rest) is None,
{
    reveal(read_number);
    let digits = crate::text::numeral(group as nat, 16);
    let s = digits + rest;
    crate::text::lemma_numeral(group as nat, 16);
    lemma_digit_run(s, 10);
    let run = digit_run(s, 10);
    if run > digits.len() {
        assert(s[digits.len() as int] == rest[0]);
        assert(crate::text::is_digit_of(s[digits.len() as int], 10));
    }
    if run < s.len() {
        if run < digits.len() {
            assert(s[run] == digits[run]);
            assert(crate::text::is_digit_of(digits[run], 16));
        } else {
            assert(s[run] == rest[0]);
        }
        assert(s.skip(run)[0] == s[run]);
    }
}

/// Groups behind colons.
spec fn tail_joined(groups: Seq<u16>) -> Seq<char>
    decreases groups.len(),
{
    if groups.len() == 0 {
        Seq::empty()
    } else {
        seq![':'] + crate::text::numeral(groups[0] as nat, 16) + tail_joined(groups.skip(1))
    }
}

proof fn lemma_tail_joined_push(groups: Seq<u16>, last: u16)
    ensures
        tail_joined(groups.push(last)) == tail_joined(groups) + seq![':'] + crate::text::numeral(
            last as nat,
            16,
        ),
    decreases groups.len(),
{
    let all = groups.push(last);
    if groups.len() == 0 {
        assert(all.skip(1) =~= Seq::<u16>::empty());
        assert(tail_joined(all.skip(1)) =~= Seq::<char>::empty());
        assert(all[0] == last);
        assert(tail_joined(all) =~= seq![':'] + crate::text::numeral(last as nat, 16));
        assert(tail_joined(groups) + seq![':'] + crate::text::numeral(last as nat, 16) =~= seq![':']
            + crate::text::numeral(last as nat, 16));
    } else {
        assert(all.skip(1) =~= groups.skip(1).push(last));
        lemma_tail_joined_push(groups.skip(1), last);
        assert(tail_joined(all) =~= tail_joined(groups) + seq![':'] + crate::text::numeral(
            last as nat,
            16,
        ));
    }
}

proof fn lemma_joined_front(groups: Seq<u16>)
    requires
        groups.len() > 0,
    ensures
        joined(groups) == crate::text::numeral(groups[0] as nat, 16) + tail_joined(groups.skip(1)),
    decreases groups.len(),
{
    if groups.len() == 1 {
        assert(groups.skip(1) =~= Seq::<u16>::empty());
        assert(joined(groups) =~= crate::text::numeral(groups[0] as nat, 16) + tail_joined(
            groups.skip(1),
        ));
    } else {
        let front = groups.drop_last();
        lemma_joined_front(front);
        lemma_tail_joined_push(front.skip(1), groups.last());
        assert(groups.skip(1) =~= front.skip(1).push(groups.last()));
        assert(joined(groups) =~= crate::text::numeral(groups[0] as nat, 16) + tail_joined(
            groups.skip(1),
        ));
    }
}

/// No further group begins here.
spec fn ends_groups(rest: Seq<char>) -> bool {
    rest.len() > 0 ==> !crate::text::is_hex_digit(rest[0]) && rest[0] != '.' && (rest[0] == ':'
        ==> rest.len() >= 2 && rest[1] == ':')
}

proof fn lemma_no_group(s: Seq<char>)
    requires
        s.len() > 0 ==> !crate::text::is_hex_digit(s[0]),
    ensures
        read_v4(s) is None,
        read_number(s, 16, 4, true, 65535) is None,
{
    reveal(read_number);
    assert(digit_run(s, 10) == 0);
    assert(digit_run(s, 16) == 0);
}

proof fn lemma_read_one_group(group: u16, rest: Seq<char>)
    requires
        rest.len() > 0 ==> !crate::text::is_hex_digit(rest[0]) && rest[0] != '.',
    ensures
        read_v4(crate::text::numeral(group as nat, 16) + rest) is None,
        read_number(crate::text::numeral(group as nat, 16) + rest, 16, 4, true, 65535) == Some(
            (group as nat, rest),
        ),
{
    lemma_group_is_not_v4(group, rest);
    lemma_powers();
    crate::text::lemma_numeral_len(group as nat, 16, 0x1_0000, 4);
    lemma_read_numeral(group as nat, 16, rest, 4, true, 65535);
}

proof fn lemma_read_tail(groups: Seq<u16>, rest: Seq<char>, i: int, limit: int)
    requires
        0 < i,
        i + groups.len() <= limit,
        ends_groups(rest),
    ensures
        read_groups(tail_joined(groups) + rest, i, limit) == (groups, rest, false),
    decreases groups.len(),
{
    let s = tail_joined(groups) + rest;
    if groups.len() == 0 {
        assert(s =~= rest);
        assert(groups =~= Seq::<u16>::empty());
        if rest.len() > 0 && rest[0] == ':' {
            assert(rest.skip(1)[0] == ':');
            lemma_no_group(rest.skip(1));
        }
    } else {
        let following = tail_joined(groups.skip(1)) + rest;
        let digits = crate::text::numeral(groups[0] as nat, 16);
        assert(s.skip(1) =~= digits + following);
        assert(s[0] == ':');
        if groups.len() > 1 {
            assert(tail_joined(groups.skip(1))[0] == ':');
            assert(following[0] == ':');
        } else {
            assert(following =~= rest);
        }
        lemma_read_one_group(groups[0], following);
        lemma_read_tail(groups.skip(1), rest, i + 1, limit);
        assert(seq![groups[0]] + groups.skip(1) =~= groups);
    }
}

proof fn lemma_read_joined(groups: Seq<u16>, rest: Seq<char>, limit: int)
    requires
        groups.len() <= limit,
        ends_groups(rest),
    ensures
        read_groups(joined(groups) + rest, 0, limit) == (groups, rest, false),
{
    let s = joined(groups) + rest;
    if groups.len() == 0 {
        assert(s =~= rest);
        assert(groups =~= Seq::<u16>::empty());
        lemma_no_group(rest);
    } else {
        lemma_joined_front(groups);
        let following = tail_joined(groups.skip(1)) + rest;
        assert(s =~= crate::text::numeral(groups[0] as nat, 16) + following);
        if groups.len() > 1 {
            assert(tail_joined(groups.skip(1))[0] == ':');
            assert(following[0] == ':');
        } else {
            assert(following =~= rest);
        }
        lemma_read_one_group(groups[0], following);
        lemma_read_tail(groups.skip(1), rest, 1, limit);
        assert(seq![groups[0]] + groups.skip(1) =~= groups);
    }
}

proof fn lemma_zero_run(segments: Seq<u16>, at: int)
    requires
        0 <= at <= segments.len(),
    ensures
        0 <= zero_run(segments, at),
        at + zero_run(segments, at) <= segments.len(),
        forall|j: int| at <= j < at + zero_run(segments, at) ==> segments[j] == 0,
    decreases segments.len() - at,
{
    if at < segments.len() && segments[at] == 0 {
        lemma_zero_run(segments, at + 1);
    }
}

proof fn lemma_longest_run(segments: Seq<u16>, upto: int)
    ensures
        0 <= longest_run(segments, upto),
        upto >= 1 ==> longest_run(segments, upto) < upto,
    decreases upto,
{
    if upto > 1 {
        lemma_longest_run(segments, upto - 1);
    }
}

proof fn lemma_read_v6(s: Seq<u16>, rest: Seq<char>)
    requires
        s.len() == 8,
        rest.len() > 0 && (rest[0] == '%' || rest[0] == ']'),
    ensures
        read_v6(v6_text(s) + rest) == Some((s, rest)),
{
    let text = v6_text(s) + rest;
    reveal_strlit("::");
    reveal_strlit("::ffff:");
    if is_mapped(s) {
        let o = mapped_octets(s);
        let dotted = v4_text(o) + rest;
        let after = seq!['f', 'f', 'f', 'f', ':'] + dotted;
        assert(text =~= seq![':', ':'] + after);
        lemma_no_group(text);
        assert(read_groups(text, 0, 8).0 =~= Seq::<u16>::empty());
        assert(text.skip(2) =~= after);
        let ffff = crate::text::numeral(0xffff, 16);
        assert(ffff =~= seq!['f', 'f', 'f', 'f']) by {
            reveal_with_fuel(crate::text::numeral, 5);
        }
        assert(after =~= ffff + (seq![':'] + dotted));
        lemma_read_one_group(0xffff, seq![':'] + dotted);
        lemma_read_v4(o, rest);
        assert((seq![':'] + dotted).skip(1) =~= dotted);
        let words = seq![(o[0] * 256 + o[1]) as u16, (o[2] * 256 + o[3]) as u16];
        assert(read_groups(seq![':'] + dotted, 1, 7) == (words, rest, true));
        assert(read_groups(after, 0, 7) == (seq![0xffffu16] + words, rest, true));
        assert(Seq::<u16>::empty() + zeros(5) + (seq![0xffffu16] + words) =~= s);
    } else {
        let start = longest_run(s, 8);
        lemma_longest_run(s, 8);
        lemma_zero_run(s, start);
        let len = zero_run(s, start);
        if len > 1 {
            let head = s.take(start);
            let tail = s.skip(start + len);
            let back = joined(tail) + rest;
            let gap = seq![':', ':'] + back;
            assert(text =~= joined(head) + gap);
            lemma_read_joined(head, gap, 8);
            assert(gap.skip(2) =~= back);
            lemma_read_joined(tail, rest, 7 - head.len());
            assert(head + zeros(8 - head.len() - tail.len()) + tail =~= s);
        } else {
            assert(text =~= joined(s) + rest);
            lemma_read_joined(s, rest, 8);
        }
    }
}

proof fn lemma_decimal_digits(n: nat)
    requires
        n <= 0xffff_ffff,
    ensures
        crate::text::decimal(n).len() <= 10,
        crate::text::decimal(n) == crate::text::numeral(n, 10),
{
    crate::text::lemma_decimal_is_numeral(n);
    lemma_powers();
    crate::text::lemma_numeral_len(n, 10, 10_000_000_000, 10);
}

proof fn lemma_read_port(port: u16)
    ensures
        read_port(seq![':'] + crate::text::decimal(port as nat)) == Some(port),
{
    let digits = crate::text::decimal(port as nat);
    let s = seq![':'] + digits;
    lemma_decimal_digits(port as nat);
    assert(s.skip(1) =~= digits);
    assert(digits + Seq::<char>::empty() =~= digits);
    lemma_read_numeral(port as nat, 10, Seq::empty(), usize::MAX as int, true, 65535);
}

/// A text denotes at most one endpoint.
pub proof fn lemma_denotes_one(s: Seq<char>, a: Endpoint, b: Endpoint)
    requires
        denotes(s, a),
        denotes(s, b),
    ensures
        a == b,
{
    if s.len() > 0 && s[0] == '[' {
        lemma_no_group(s);
    }
    match (a, b) {
        (Endpoint::V4 { octets: x, .. }, Endpoint::V4 { octets: y, .. }) => {
            assert(x@ == y@);
            assert forall|i: int| 0 <= i < 4 implies x[i] == y[i] by {
                assert(x@[i] == y@[i]);
            }
            assert(x =~= y);
        },
        (Endpoint::V6 { segments: x, .. }, Endpoint::V6 { segments: y, .. }) => {
            assert(x@ == y@);
            assert forall|i: int| 0 <= i < 8 implies x[i] == y[i] by {
                assert(x@[i] == y@[i]);
            }
            assert(x =~= y);
        },
        _ => {},
    }
}

/// Whether the text of an endpoint says all of it: flow information is not
/// written.
pub open spec fn says_all(endpoint: Endpoint) -> bool {
    endpoint matches Endpoint::V6 { flowinfo, .. } ==> flowinfo == 0
}

/// Reading the text of an endpoint gives that endpoint back.
pub proof fn law_endpoint_text_round_trip(endpoint: Endpoint)
    requires
        says_all(endpoint),
    ensures
        denotes(endpoint_text(endpoint), endpoint),
        endpoint_denoted(endpoint_text(endpoint)) == Some(endpoint),
{
    let s = endpoint_text(endpoint);
    match endpoint {
        Endpoint::V4 { octets, port } => {
            let rest = seq![':'] + crate::text::decimal(port as nat);
            lemma_read_v4(octets@, rest);
            assert(s =~= v4_text(octets@) + rest);
            lemma_read_port(port);
        },
        Endpoint::V6 { segments, scope_id, port, .. } => {
            let end = seq![':'] + crate::text::decimal(port as nat);
            let close = seq![']'] + end;
            let scope = crate::text::decimal(scope_id as nat);
            let rest = if scope_id == 0 {
                close
            } else {
                seq!['%'] + scope + close
            };
            assert(s.skip(1) =~= v6_text(segments@) + rest);
            assert(s[0] == '[');
            lemma_read_v6(segments@, rest);
            lemma_decimal_digits(scope_id as nat);
            if scope_id != 0 {
                assert(rest.skip(1) =~= scope + close);
                lemma_read_numeral(
                    scope_id as nat,
                    10,
                    close,
                    usize::MAX as int,
                    true,
                    0xffff_ffff,
                );
            }
            assert(read_scope(rest) == (scope_id as nat, close));
            assert(close.skip(1) =~= end);
            lemma_read_port(port);
        },
    }
    assert(denotes(s, endpoint));
    lemma_denotes_one(s, endpoint, endpoint_denoted(s)->0);
}

proof fn lemma_decimal_plain(n: nat)
    ensures
        crate::text::plain(crate::text::decimal(n)),
        crate::text::decimal(n).len() > 0,
        crate::text::is_hex_digit(crate::text::decimal(n).last()),
{
    crate::text::lemma_decimal_is_numeral(n);
    crate::text::lemma_numeral_plain(n, 10);
}

proof fn lemma_v4_plain(o: Seq<u8>)
    ensures
        crate::text::plain(v4_text(o)),
{
    let dot = seq!['.'];
    let a = crate::text::decimal(o[0] as nat);
    let b = crate::text::decimal(o[1] as nat);
    let c = crate::text::decimal(o[2] as nat);
    let d = crate::text::decimal(o[3] as nat);
    lemma_decimal_plain(o[0] as nat);
    lemma_decimal_plain(o[1] as nat);
    lemma_decimal_plain(o[2] as nat);
    lemma_decimal_plain(o[3] as nat);
    crate::text::lemma_plain_concat(a, dot);
    crate::text::lemma_plain_concat(a + dot, b);
    crate::text::lemma_plain_concat(a + dot + b, dot);
    crate::text::lemma_plain_concat(a + dot + b + dot, c);
    crate::text::lemma_plain_concat(a + dot + b + dot + c, dot);
    crate::text::lemma_plain_concat(a + dot + b + dot + c + dot, d);
}

proof fn lemma_joined_plain(groups: Seq<u16>)
    ensures
        crate::text::plain(joined(groups)),
    decreases groups.len(),
{
    if groups.len() == 1 {
        crate::text::lemma_numeral_plain(groups[0] as nat, 16);
    } else if groups.len() > 1 {
        lemma_joined_plain(groups.drop_last());
        crate::text::lemma_numeral_plain(groups.last() as nat, 16);
        crate::text::lemma_plain_concat(joined(groups.drop_last()), seq![':']);
        crate::text::lemma_plain_concat(
            joined(groups.drop_last()) + seq![':'],
            crate::text::numeral(groups.last() as nat, 16),
        );
    }
}

proof fn lemma_v6_plain(s: Seq<u16>)
    ensures
        crate::text::plain(v6_text(s)),
{
    reveal_strlit("::");
    reveal_strlit("::ffff:");
    let start = longest_run(s, 8);
    let len = zero_run(s, start);
    lemma_v4_plain(mapped_octets(s));
    assert(crate::text::plain("::ffff:"@));
    assert(crate::text::plain("::"@));
    crate::text::lemma_plain_concat("::ffff:"@, v4_text(mapped_octets(s)));
    lemma_joined_plain(s);
    lemma_joined_plain(s.take(start));
    lemma_joined_plain(s.skip(start + len));
    crate::text::lemma_plain_concat(joined(s.take(start)), "::"@);
    crate::text::lemma_plain_concat(joined(s.take(start)) + "::"@, joined(s.skip(start + len)));
}

/// The text of an endpoint is plain and ends in a digit.
pub proof fn lemma_endpoint_text_plain(endpoint: Endpoint)
    ensures
        crate::text::plain(endpoint_text(endpoint)),
        endpoint_text(endpoint).len() > 0,
        crate::text::is_hex_digit(endpoint_text(endpoint).last()),
{
    match endpoint {
        Endpoint::V4 { octets, port } => {
            let p = crate::text::decimal(port as nat);
            lemma_v4_plain(octets@);
            lemma_decimal_plain(port as nat);
            crate::text::lemma_plain_concat(v4_text(octets@), seq![':']);
            crate::text::lemma_plain_concat(v4_text(octets@) + seq![':'], p);
            assert(endpoint_text(endpoint).last() == p.last());
        },
        Endpoint::V6 { segments, scope_id, port, .. } => {
            let p = crate::text::decimal(port as nat);
            let v6 = v6_text(segments@);
            let digits = crate::text::decimal(scope_id as nat);
            let scope = if scope_id == 0 {
                Seq::empty()
            } else {
                seq!['%'] + digits
            };
            lemma_v6_plain(segments@);
            lemma_decimal_plain(port as nat);
            lemma_decimal_plain(scope_id as nat);
            crate::text::lemma_plain_concat(seq!['%'], digits);
            crate::text::lemma_plain_concat(seq!['['], v6);
            crate::text::lemma_plain_concat(seq!['['] + v6, scope);
            crate::text::lemma_plain_concat(seq!['['] + v6 + scope, seq![']', ':']);
            crate::text::lemma_plain_concat(seq!['['] + v6 + scope + seq![']', ':'], p);
            assert(endpoint_text(endpoint).last() == p.last());
        },
    }
}

// Order.

/// Numbers by which endpoints are ordered: family, address, port, flow
/// information, scope.
pub open spec fn rank(endpoint: Endpoint) -> Seq<int> {
    match endpoint {
        Endpoint::V4 { octets, port } => seq![
            4,
            octets@[0] as int,
            octets@[1] as int,
            octets@[2] as int,
            octets@[3] as int,
            port as int,
        ],
        Endpoint::V6 { segments, flowinfo, scope_id, port } => seq![
            6,
            segments@[0] as int,
            segments@[1] as int,
            segments@[2] as int,
            segments@[3] as int,
            segments@[4] as int,
            segments@[5] as int,
            segments@[6] as int,
            segments@[7] as int,
            port as int,
            flowinfo as int,
            scope_id as int,
        ],
    }
}

/// Whether the first difference from `i` on puts `a` before `b`.
pub open spec fn precedes_from(a: Seq<int>, b: Seq<int>, i: int) -> bool
    decreases a.len() - i,
{
    if i < 0 || i >= a.len() || i >= b.len() {
        false
    } else if a[i] == b[i] {
        precedes_from(a, b, i + 1)
    } else {
        a[i] < b[i]
    }
}

/// The order of endpoints: IPv4 before IPv6, then by address, port, flow
/// information and scope.
pub open spec fn precedes(a: Endpoint, b: Endpoint) -> bool {
    precedes_from(rank(a), rank(b), 0)
}

proof fn lemma_precedes_from(a: Seq<int>, b: Seq<int>, c: Seq<int>, i: int)
    requires
        0 <= i,
        a.len() == b.len() || (i == 0 && a.len() > 0 && b.len() > 0 && a[0] != b[0]),
    ensures
        !(precedes_from(a, b, i) && precedes_from(b, a, i)),
        precedes_from(a, b, i) || precedes_from(b, a, i) || (forall|j: int|
            i <= j < a.len() ==> a[j] == b[j]),
        (forall|j: int| i <= j < a.len() && a.len() == b.len() ==> a[j] == b[j]) && a.len()
            == b.len() ==> !precedes_from(a, b, i),
    decreases a.len() - i,
{
    if i < a.len() && i < b.len() && a[i] == b[i] {
        lemma_precedes_from(a, b, c, i + 1);
    }
}

proof fn lemma_precedes_trans(a: Seq<int>, b: Seq<int>, c: Seq<int>, i: int)
    requires
        precedes_from(a, b, i),
        precedes_from(b, c, i),
    ensures
        precedes_from(a, c, i),
    decreases a.len() - i,
{
    if a[i] == b[i] && b[i] == c[i] {
        lemma_precedes_trans(a, b, c, i + 1);
    }
}

/// Endpoints are totally ordered.
pub proof fn law_endpoints_are_ordered(a: Endpoint, b: Endpoint, c: Endpoint)
    ensures
        !precedes(a, a),
        precedes(a, b) ==> !precedes(b, a),
        precedes(a, b) || precedes(b, a) || a == b,
        precedes(a, b) && precedes(b, c) ==> precedes(a, c),
{
    lemma_precedes_from(rank(a), rank(b), rank(c), 0);
    lemma_precedes_from(rank(a), rank(a), rank(a), 0);
    if precedes(a, b) && precedes(b, c) {
        lemma_precedes_trans(rank(a), rank(b), rank(c), 0);
    }
    if !precedes(a, b) && !precedes(b, a) {
        let x = rank(a);
        let y = rank(b);
        assert(x[0] == y[0]);
        match (a, b) {
            (Endpoint::V4 { octets: o, .. }, Endpoint::V4 { octets: p, .. }) => {
                assert(x[1] == y[1] && x[2] == y[2] && x[3] == y[3] && x[4] == y[4] && x[5] == y[5]);
                assert(o =~= p);
            },
            (Endpoint::V6 { segments: o, .. }, Endpoint::V6 { segments: p, .. }) => {
                assert(x[1] == y[1] && x[2] == y[2] && x[3] == y[3] && x[4] == y[4] && x[5] == y[5]
                    && x[6] == y[6] && x[7] == y[7] && x[8] == y[8] && x[9] == y[9] && x[10]
                    == y[10] && x[11] == y[11]);
                assert(o =~= p);
            },
            _ => {},
        }
    }
}

fn rank_list(endpoint: &Endpoint) -> (list: Vec<u64>)
    ensures
        list@.len() == rank(*endpoint).len(),
        forall|i: int| 0 <= i < list@.len() ==> list@[i] == rank(*endpoint)[i],
{
    match endpoint {
        Endpoint::V4 { octets: o, port } => vec![
            4,
            o[0] as u64,
            o[1] as u64,
            o[2] as u64,
            o[3] as u64,
            *port as u64,
        ],
        Endpoint::V6 { segments: s, flowinfo, scope_id, port } => vec![
            6,
            s[0] as u64,
            s[1] as u64,
            s[2] as u64,
            s[3] as u64,
            s[4] as u64,
            s[5] as u64,
            s[6] as u64,
            s[7] as u64,
            *port as u64,
            *flowinfo as u64,
            *scope_id as u64,
        ],
    }
}

/// Whether one endpoint comes before another.
pub fn comes_before(a: &Endpoint, b: &Endpoint) -> (before: bool)
    ensures
        before == precedes(*a, *b),
{
    let x = rank_list(a);
    let y = rank_list(b);
    let mut i: usize = 0;
    while i < x.len() && i < y.len()
        invariant
            i <= x.len(),
            i <= y.len(),
            x@.len() == rank(*a).len(),
            y@.len() == rank(*b).len(),
            forall|j: int| 0 <= j < x@.len() ==> x@[j] == rank(*a)[j],
            forall|j: int| 0 <= j < y@.len() ==> y@[j] == rank(*b)[j],
            precedes(*a, *b) == precedes_from(rank(*a), rank(*b), i as int),
        decreases x.len() - i,
    {
        if x[i] != y[i] {
            return x[i] < y[i];
        }
        i = i + 1;
    }
    false
}

/// What addresses are: unspecified if all zero, loopback if in 127.0.0.0/8 or
/// `::1`, link local if in fe80::/10.
pub proof fn law_kinds_of_addresses(o: [u8; 4], s: [u16; 8])
    ensures
        IpAddress::V4(o).unspecified() <==> o@[0] == 0 && o@[1] == 0 && o@[2] == 0 && o@[3] == 0,
        IpAddress::V4(o).loopback() <==> o@[0] == 127,
        !IpAddress::V4(o).v6_link_local(),
        IpAddress::V6(s).unspecified() <==> s@[0] == 0 && s@[1] == 0 && s@[2] == 0 && s@[3] == 0
            && s@[4] == 0 && s@[5] == 0 && s@[6] == 0 && s@[7] == 0,
        IpAddress::V6(s).loopback() <==> s@[0] == 0 && s@[1] == 0 && s@[2] == 0 && s@[3] == 0
            && s@[4] == 0 && s@[5] == 0 && s@[6] == 0 && s@[7] == 1,
        IpAddress::V6(s).v6_link_local() <==> s@[0] / 64 == 0x3fa,
{
    let four = IpAddress::V4(o);
    let six = IpAddress::V6(s);
    if four.unspecified() {
        let at = |i: int| four->V4_0@[i] == 0;
        assert(at(0) && at(1) && at(2) && at(3));
    }
    if six.unspecified() {
        let at = |i: int| six->V6_0@[i] == 0;
        assert(at(0) && at(1) && at(2) && at(3) && at(4) && at(5) && at(6) && at(7));
    }
    let one = seq![0u16, 0, 0, 0, 0, 0, 0, 1];
    if s@[0] == 0 && s@[1] == 0 && s@[2] == 0 && s@[3] == 0 && s@[4] == 0 && s@[5] == 0 && s@[6]
        == 0 && s@[7] == 1 {
        assert(s@ =~= one);
    } else if s@ == one {
        assert(s@[0] == one[0] && s@[1] == one[1] && s@[2] == one[2] && s@[3] == one[3] && s@[4]
            == one[4] && s@[5] == one[5] && s@[6] == one[6] && s@[7] == one[7]);
    }
}

/// An address at a port is that address and that port, and nothing else.
pub proof fn law_addresses_at_ports(ip: IpAddress, port: u16)
    ensures
        ip.at_port(port).address() == ip,
        match ip.at_port(port) {
            Endpoint::V4 { port: p, .. } => p == port,
            Endpoint::V6 { flowinfo, scope_id, port: p, .. } => p == port && flowinfo == 0
                && scope_id == 0,
        },
{
}

/// An IPv4 endpoint is written as its four octets between dots and its port
/// behind a colon, and what is written so is read as that endpoint.
pub proof fn law_dotted_text(octets: [u8; 4], port: u16)
    ensures
        ({
            let text = crate::text::decimal(octets@[0] as nat).push('.') + crate::text::decimal(
                octets@[1] as nat,
            ).push('.') + crate::text::decimal(octets@[2] as nat).push('.')
                + crate::text::decimal(octets@[3] as nat).push(':') + crate::text::decimal(
                port as nat,
            );
            &&& endpoint_text(Endpoint::V4 { octets, port }) == text
            &&& endpoint_denoted(text) == Some(Endpoint::V4 { octets, port })
        }),
{
    let endpoint = Endpoint::V4 { octets, port };
    let text = crate::text::decimal(octets@[0] as nat).push('.') + crate::text::decimal(
        octets@[1] as nat,
    ).push('.') + crate::text::decimal(octets@[2] as nat).push('.') + crate::text::decimal(
        octets@[3] as nat,
    ).push(':') + crate::text::decimal(port as nat);
    assert(endpoint_text(endpoint) =~= text);
    law_endpoint_text_round_trip(endpoint);
}

/// A number is read with all of its digits: it needs one digit at least, has a
/// greatest number of digits and a greatest value, and may begin with a zero only
/// where that is allowed or the zero is all of it.
pub proof fn law_numbers_are_read_whole(
    digits: Seq<char>,
    rest: Seq<char>,
    radix: nat,
    max_digits: int,
    zero_prefix: bool,
    max: nat,
)
    requires
        forall|i: int|
            0 <= i < digits.len() ==> crate::text::is_digit_of(#[trigger] digits[i], radix),
        rest.len() > 0 ==> !crate::text::is_digit_of(rest[0], radix),
    ensures
        read_number(digits + rest, radix, max_digits, zero_prefix, max) == if digits.len() == 0
            || digits.len() > max_digits || (digits.len() > 1 && digits[0] == '0' && !zero_prefix)
            || crate::text::numeral_value(digits, radix) > max {
            None
        } else {
            Some((crate::text::numeral_value(digits, radix), rest))
        },
{
    reveal(read_number);
    lemma_run_of(digits, rest, radix);
    let s = digits + rest;
    assert(s.take(digits.len() as int) =~= digits);
    assert(s.skip(digits.len() as int) =~= rest);
    if digits.len() > 0 {
        assert(s[0] == digits[0]);
    }
}

proof fn lemma_run_of(digits: Seq<char>, rest: Seq<char>, radix: nat)
    requires
        forall|i: int|
            0 <= i < digits.len() ==> crate::text::is_digit_of(#[trigger] digits[i], radix),
        rest.len() > 0 ==> !crate::text::is_digit_of(rest[0], radix),
    ensures
        digit_run(digits + rest, radix) == digits.len(),
    decreases digits.len(),
{
    let s = digits + rest;
    if digits.len() > 0 {
        let fewer = digits.skip(1);
        assert(s[0] == digits[0]);
        assert(s.skip(1) =~= fewer + rest);
        assert forall|i: int| 0 <= i < fewer.len() implies crate::text::is_digit_of(
            #[trigger] fewer[i],
            radix,
        ) by {
            assert(fewer[i] == digits[i + 1]);
        }
        lemma_run_of(fewer, rest, radix);
    } else {
        assert(s =~= rest);
    }
}

/// The parts of addresses: octets are decimal, up to 255, without superfluous
/// zeros; groups are hexadecimal, of up to four digits; ports and scopes are
/// decimal, the ports up to 65535.
pub proof fn law_parts_of_addresses(s: Seq<char>)
    ensures
        read_octet(s) == read_number(s, 10, 3, false, 255),
        read_dot_octet(s) is Some ==> s.len() > 0 && s[0] == '.',
        read_dot_octet(seq!['.'] + s) == read_octet(s),
        read_port(s) matches Some(port) ==> s.len() > 1 && s[0] == ':' && read_number(
            s.skip(1),
            10,
            usize::MAX as int,
            true,
            65535,
        ) == Some((port as nat, Seq::<char>::empty())),
        read_scope(s).0 != 0 ==> s.len() > 0 && s[0] == '%',
        s.len() == 0 || s[0] != '%' ==> read_scope(s) == (0nat, s),
{
    assert((seq!['.'] + s).skip(1) =~= s);
    if read_port(s) is Some {
        reveal(read_number);
        let (port, rest) = read_number(s.skip(1), 10, usize::MAX as int, true, 65535)->0;
        assert(rest =~= Seq::<char>::empty());
        if s.len() == 1 {
            assert(s.skip(1).len() == 0);
        }
    }
}

proof fn lemma_whole_run(s: Seq<u16>, at: int)
    requires
        0 <= at <= s.len(),
    ensures
        0 <= zero_run(s, at) <= s.len() - at,
        forall|i: int| at <= i < at + zero_run(s, at) ==> #[trigger] s[i] == 0,
        at + zero_run(s, at) < s.len() ==> s[at + zero_run(s, at)] != 0,
    decreases s.len() - at,
{
    if at < s.len() && s[at] == 0 {
        lemma_whole_run(s, at + 1);
    }
}

proof fn lemma_longest(s: Seq<u16>, upto: int)
    requires
        1 <= upto <= s.len(),
    ensures
        0 <= longest_run(s, upto) < upto,
        forall|i: int| 0 <= i < upto ==> #[trigger] zero_run(s, i) <= zero_run(s, longest_run(s, upto)),
        forall|i: int|
            0 <= i < longest_run(s, upto) ==> #[trigger] zero_run(s, i) < zero_run(
                s,
                longest_run(s, upto),
            ),
    decreases upto,
{
    if upto > 1 {
        lemma_longest(s, upto - 1);
    }
}

/// The zeros that are left out of an IPv6 text are all zeros, they are a whole
/// run, no run is longer, and none of those before it is as long.
pub proof fn law_the_longest_run_is_left_out(s: Seq<u16>, i: int)
    requires
        s.len() == 8,
        0 <= i < 8,
    ensures
        ({
            let start = longest_run(s, 8);
            let len = zero_run(s, start);
            &&& 0 <= start < 8
            &&& 0 <= len <= 8 - start
            &&& start <= i < start + len ==> s[i] == 0
            &&& start + len < 8 ==> s[start + len] != 0
            &&& zero_run(s, i) <= len
            &&& i < start ==> zero_run(s, i) < len
            &&& s[i] == 0 ==> len >= 1
            &&& i < 7 && s[i] == 0 && s[i + 1] == 0 ==> len >= 2
        }),
{
    lemma_longest(s, 8);
    lemma_whole_run(s, longest_run(s, 8));
    lemma_whole_run(s, i);
    if i < 7 {
        lemma_whole_run(s, i + 1);
    }
}

/// How an IPv6 endpoint is written: in brackets, with the scope behind a percent
/// sign if there is one, and the port behind a colon. A mapped IPv4 address keeps
/// its dots; a run of zeros is left out if it is longer than one.
pub proof fn law_bracketed_text(segments: [u16; 8], flowinfo: u32, scope_id: u32, port: u16)
    ensures
        ({
            let s = segments@;
            let text = endpoint_text(Endpoint::V6 { segments, flowinfo, scope_id, port });
            let scope = if scope_id == 0 {
                Seq::empty()
            } else {
                seq!['%'] + crate::text::decimal(scope_id as nat)
            };
            &&& text == seq!['['] + v6_text(s) + scope + seq![']'] + seq![':']
                + crate::text::decimal(port as nat)
            &&& s[0] == 0 && s[1] == 0 && s[2] == 0 && s[3] == 0 && s[4] == 0 && s[5] == 65535
                ==> v6_text(s) == seq![':', ':', 'f', 'f', 'f', 'f', ':'] + crate::text::decimal(
                (s[6] / 256) as nat,
            ) + seq!['.'] + crate::text::decimal((s[6] % 256) as nat) + seq!['.']
                + crate::text::decimal((s[7] / 256) as nat) + seq!['.'] + crate::text::decimal(
                (s[7] % 256) as nat,
            )
            &&& !(s[0] == 0 && s[1] == 0 && s[2] == 0 && s[3] == 0 && s[4] == 0 && s[5] == 65535)
                ==> if zero_run(s, longest_run(s, 8)) > 1 {
                v6_text(s) == joined(s.take(longest_run(s, 8))) + seq![':', ':'] + joined(
                    s.skip(longest_run(s, 8) + zero_run(s, longest_run(s, 8))),
                )
            } else {
                v6_text(s) == joined(s)
            }
        }),
{
    reveal_strlit("::ffff:");
    reveal_strlit("::");
    let s = segments@;
    assert("::ffff:"@ =~= seq![':', ':', 'f', 'f', 'f', 'f', ':']);
    assert("::"@ =~= seq![':', ':']);
    let scope = if scope_id == 0 {
        Seq::empty()
    } else {
        seq!['%'] + crate::text::decimal(scope_id as nat)
    };
    assert(endpoint_text(Endpoint::V6 { segments, flowinfo, scope_id, port }) =~= seq!['[']
        + v6_text(s) + scope + seq![']'] + seq![':'] + crate::text::decimal(port as nat));
}

/// Groups are written in hexadecimal with a colon between each and the next.
pub proof fn law_groups_are_joined(groups: Seq<u16>, last: u16)
    ensures
        joined(Seq::empty()) == Seq::<char>::empty(),
        joined(seq![last]) == crate::text::numeral(last as nat, 16),
        groups.len() > 0 ==> joined(groups.push(last)) == joined(groups).push(':')
            + crate::text::numeral(last as nat, 16),
{
    assert(groups.push(last).drop_last() =~= groups);
    assert(joined(groups) + seq![':'] =~= joined(groups).push(':'));
}

/// Endpoints are ordered by the first thing in which they differ: IPv4 before
/// IPv6, then the address from its front, the port, the flow information and the
/// scope.
pub proof fn law_the_first_difference_orders(a: Endpoint, b: Endpoint)
    ensures
        a is V4 && b is V6 ==> precedes(a, b) && !precedes(b, a),
        match (a, b) {
            (
                Endpoint::V4 { octets: o, port: p },
                Endpoint::V4 { octets: q, port: r },
            ) => precedes(a, b) <==> {
                ||| o@[0] < q@[0]
                ||| o@[0] == q@[0] && o@[1] < q@[1]
                ||| o@[0] == q@[0] && o@[1] == q@[1] && o@[2] < q@[2]
                ||| o@[0] == q@[0] && o@[1] == q@[1] && o@[2] == q@[2] && o@[3] < q@[3]
                ||| o@[0] == q@[0] && o@[1] == q@[1] && o@[2] == q@[2] && o@[3] == q@[3] && p < r
            },
            (
                Endpoint::V6 { segments: s, flowinfo: f, scope_id: c, port: p },
                Endpoint::V6 { segments: t, flowinfo: g, scope_id: d, port: r },
            ) => s == t ==> (precedes(a, b) <==> p < r || (p == r && (f < g || (f == g && c < d)))),
            _ => true,
        },
{
    reveal_with_fuel(precedes_from, 13);
}

/// Two IPv6 endpoints are ordered by the first segment in which they differ.
pub proof fn law_the_first_segment_orders(a: Endpoint, b: Endpoint, k: int)
    requires
        a is V6,
        b is V6,
        0 <= k < 8,
        a->V6_segments@[k] < b->V6_segments@[k],
        forall|j: int| 0 <= j < k ==> #[trigger] a->V6_segments@[j] == b->V6_segments@[j],
    ensures
        precedes(a, b),
        !precedes(b, a),
{
    reveal_with_fuel(precedes_from, 9);
    let s = a->V6_segments@;
    assert(s[0] == s[0] && s[1] == s[1] && s[2] == s[2] && s[3] == s[3] && s[4] == s[4] && s[5]
        == s[5] && s[6] == s[6]);
}

proof fn lemma_group_count(s: Seq<char>, i: int, limit: int)
    requires
        0 <= i,
    ensures
        read_groups(s, i, limit).0.len() <= if i < limit {
            limit - i
        } else {
            0
        },
    decreases limit - i,
{
    let at = if i > 0 {
        read_char(s, ':')
    } else {
        Some(s)
    };
    if i < limit && at is Some {
        if let Some((group, rest)) = read_number(at->0, 16, 4, true, 65535) {
            lemma_group_count(rest, i + 1, limit);
        }
    }
}

/// An address has eight groups. A double colon stands for at least one of them:
/// what is written before it comes first, what is written after it comes last,
/// and all between is zero.
pub proof fn law_a_double_colon_stands_for_zeros(s: Seq<char>, i: int)
    requires
        read_v6(s) is Some,
    ensures
        ({
            let (groups, _) = read_v6(s)->0;
            let head = read_groups(s, 0, 8).0;
            let rest = read_groups(s, 0, 8).1;
            &&& groups.len() == 8
            &&& head.len() <= 8
            &&& 0 <= i < head.len() ==> groups[i] == head[i]
            &&& head.len() < 8 ==> rest.len() >= 2 && rest[0] == ':' && rest[1] == ':'
                && !read_groups(s, 0, 8).2 && groups[head.len() as int] == 0
            &&& head.len() < 8 ==> {
                let tail = read_groups(rest.skip(2), 0, 7 - head.len()).0;
                &&& head.len() + tail.len() <= 7
                &&& head.len() <= i < 8 - tail.len() ==> groups[i] == 0
                &&& 8 - tail.len() <= i < 8 ==> groups[i] == tail[i - (8 - tail.len())]
            }
        }),
{
    lemma_group_count(s, 0, 8);
    let head = read_groups(s, 0, 8).0;
    let rest = read_groups(s, 0, 8).1;
    if head.len() < 8 {
        lemma_group_count(rest.skip(2), 0, 7 - head.len());
    }
}

/// A dotted address at the end of a longer one fills two groups, the first octet
/// of each two in the upper half.
pub proof fn law_dotted_ends_fill_two_groups(s: Seq<char>, limit: int)
    requires
        limit > 1,
        read_v4(s) is Some,
    ensures
        ({
            let (octets, after) = read_v4(s)->0;
            let (groups, rest, dotted) = read_groups(s, 0, limit);
            &&& dotted && groups.len() == 2 && rest == after
            &&& groups[0] == octets[0] * 256 + octets[1]
            &&& groups[1] == octets[2] * 256 + octets[3]
        }),
{
}

/// A text denotes an address exactly where all of it is that address.
pub proof fn law_addresses_are_read_whole(s: Seq<char>, octets: [u8; 4], segments: [u16; 8])
    ensures
        ip_denotes(s, IpAddress::V4(octets)) <==> (read_v4(s) matches Some((o, rest)) && o =~= octets@
            && rest.len() == 0),
        ip_denotes(s, IpAddress::V6(segments)) <==> (read_v6(s) matches Some((g, rest)) && g
            =~= segments@ && rest.len() == 0),
{
    if let Some((o, rest)) = read_v4(s) {
        if rest.len() == 0 {
            assert(rest =~= Seq::<char>::empty());
        }
    }
    if let Some((g, rest)) = read_v6(s) {
        if rest.len() == 0 {
            assert(rest =~= Seq::<char>::empty());
        }
    }
}

} // verus!
