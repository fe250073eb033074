//! Big-endian integers as byte sequences.
use vstd::prelude::*;

verus! {

/// The two big-endian bytes of `v`.
pub open spec fn be16(v: u16) -> Seq<u8> {
    seq![(v / 256) as u8, (v % 256) as u8]
}

/// The four big-endian bytes of `v`.
pub open spec fn be32(v: u32) -> Seq<u8> {
    be16((v / 0x1_0000) as u16) + be16((v % 0x1_0000) as u16)
}

/// The eight big-endian bytes of `v`.
pub open spec fn be64(v: u64) -> Seq<u8> {
    be32((v / 0x1_0000_0000) as u32) + be32((v % 0x1_0000_0000) as u32)
}

/// The two's complement bit pattern of `v`.
pub open spec fn bits32(v: i32) -> u32 {
    if v >= 0 {
        v as u32
    } else {
        (v + 0x1_0000_0000) as u32
    }
}

/// The four big-endian bytes of a signed integer.
pub open spec fn be_i32(v: i32) -> Seq<u8> {
    be32(bits32(v))
}

/// The unsigned integer that two bytes at `at` encode.
pub open spec fn u16_at(bytes: Seq<u8>, at: int) -> u16 {
    (bytes[at] * 256 + bytes[at + 1]) as u16
}

/// The unsigned integer that four bytes at `at` encode.
pub open spec fn u32_at(bytes: Seq<u8>, at: int) -> u32 {
    (u16_at(bytes, at) * 0x1_0000 + u16_at(bytes, at + 2)) as u32
}

/// The unsigned integer that eight bytes at `at` encode.
pub open spec fn u64_at(bytes: Seq<u8>, at: int) -> u64 {
    (u32_at(bytes, at) * 0x1_0000_0000 + u32_at(bytes, at + 4)) as u64
}

/// The signed integer that four bytes at `at` encode.
pub open spec fn i32_at(bytes: Seq<u8>, at: int) -> i32 {
    let bits = u32_at(bytes, at);
    if bits < 0x8000_0000 {
        bits as i32
    } else {
        (bits - 0x1_0000_0000) as i32
    }
}

/// Reading two bytes back gives the encoded integer, and encoding what was read gives the bytes.
pub proof fn lemma_u16_at(bytes: Seq<u8>, at: int, v: u16)
    requires
        0 <= at,
        at + 2 <= bytes.len(),
    ensures
        (bytes.subrange(at, at + 2) == be16(v)) <==> u16_at(bytes, at) == v,
{
    let s = bytes.subrange(at, at + 2);
    assert(s[0] == bytes[at] && s[1] == bytes[at + 1]);
    if u16_at(bytes, at) == v {
        assert(s =~= be16(v));
    } else if s == be16(v) {
        assert(be16(v)[0] == bytes[at]);
        assert(be16(v)[1] == bytes[at + 1]);
    }
}

pub proof fn lemma_u32_at(bytes: Seq<u8>, at: int, v: u32)
    requires
        0 <= at,
        at + 4 <= bytes.len(),
    ensures
        (bytes.subrange(at, at + 4) == be32(v)) <==> u32_at(bytes, at) == v,
{
    let high = (v / 0x1_0000) as u16;
    let low = (v % 0x1_0000) as u16;
    lemma_u16_at(bytes, at, high);
    lemma_u16_at(bytes, at + 2, low);
    let s = bytes.subrange(at, at + 4);
    assert(s.subrange(0, 2) =~= bytes.subrange(at, at + 2));
    assert(s.subrange(2, 4) =~= bytes.subrange(at + 2, at + 4));
    if u32_at(bytes, at) == v {
        assert(u16_at(bytes, at) == high);
        assert(u16_at(bytes, at + 2) == low);
        assert(s =~= s.subrange(0, 2) + s.subrange(2, 4));
    } else if s == be32(v) {
        assert(be32(v).subrange(0, 2) =~= be16(high));
        assert(be32(v).subrange(2, 4) =~= be16(low));
    }
}

pub proof fn lemma_u64_at(bytes: Seq<u8>, at: int, v: u64)
    requires
        0 <= at,
        at + 8 <= bytes.len(),
    ensures
        (bytes.subrange(at, at + 8) == be64(v)) <==> u64_at(bytes, at) == v,
{
    let high = (v / 0x1_0000_0000) as u32;
    let low = (v % 0x1_0000_0000) as u32;
    lemma_u32_at(bytes, at, high);
    lemma_u32_at(bytes, at + 4, low);
    let s = bytes.subrange(at, at + 8);
    assert(s.subrange(0, 4) =~= bytes.subrange(at, at + 4));
    assert(s.subrange(4, 8) =~= bytes.subrange(at + 4, at + 8));
    if u64_at(bytes, at) == v {
        assert(u32_at(bytes, at) == high);
        assert(u32_at(bytes, at + 4) == low);
        assert(s =~= s.subrange(0, 4) + s.subrange(4, 8));
    } else if s == be64(v) {
        assert(be64(v).subrange(0, 4) =~= be32(high));
        assert(be64(v).subrange(4, 8) =~= be32(low));
    }
}

pub proof fn lemma_i32_at(bytes: Seq<u8>, at: int, v: i32)
    requires
        0 <= at,
        at + 4 <= bytes.len(),
    ensures
        (bytes.subrange(at, at + 4) == be_i32(v)) <==> i32_at(bytes, at) == v,
{
    lemma_u32_at(bytes, at, bits32(v));
}

/// Appends the big-endian bytes of `v`.
pub fn put_u16(out: &mut Vec<u8>, v: u16)
    ensures
        final(out)@ == old(out)@ + be16(v),
{
    out.push((v / 256) as u8);
    out.push((v % 256) as u8);
    assert(out@ =~= old(out)@ + be16(v));
}

/// Appends the big-endian bytes of `v`.
pub fn put_u32(out: &mut Vec<u8>, v: u32)
    ensures
        final(out)@ == old(out)@ + be32(v),
{
    put_u16(out, (v / 0x1_0000) as u16);
    put_u16(out, (v % 0x1_0000) as u16);
    assert(out@ =~= old(out)@ + be32(v));
}

/// Appends the big-endian bytes of `v`.
pub fn put_u64(out: &mut Vec<u8>, v: u64)
    ensures
        final(out)@ == old(out)@ + be64(v),
{
    put_u32(out, (v / 0x1_0000_0000) as u32);
    put_u32(out, (v % 0x1_0000_0000) as u32);
    assert(out@ =~= old(out)@ + be64(v));
}

/// Appends the big-endian bytes of a signed integer.
pub fn put_i32(out: &mut Vec<u8>, v: i32)
    ensures
        final(out)@ == old(out)@ + be_i32(v),
{
    if v >= 0 {
        put_u32(out, v as u32);
    } else {
        put_u32(out, (v as i64 + 0x1_0000_0000) as u32);
    }
}

/// Appends every byte of `bytes`.
pub fn put_bytes(out: &mut Vec<u8>, bytes: &[u8])
    ensures
        final(out)@ == old(out)@ + bytes@,
{
    let mut i: usize = 0;
    while i < bytes.len()
        invariant
            i <= bytes.len(),
            out@ == old(out)@ + bytes@.subrange(0, i as int),
        decreases bytes.len() - i,
    {
        out.push(bytes[i]);
        i = i + 1;
        assert(out@ =~= old(out)@ + bytes@.subrange(0, i as int));
    }
    assert(bytes@.subrange(0, i as int) =~= bytes@);
}

/// Reads two bytes at `at`.
pub fn get_u16(bytes: &[u8], at: usize) -> (v: u16)
    requires
        at + 2 <= bytes.len(),
    ensures
        v == u16_at(bytes@, at as int),
{
    bytes[at] as u16 * 256 + bytes[at + 1] as u16
}

/// Reads four bytes at `at`.
pub fn get_u32(bytes: &[u8], at: usize) -> (v: u32)
    requires
        at + 4 <= bytes.len(),
    ensures
        v == u32_at(bytes@, at as int),
{
    get_u16(bytes, at) as u32 * 0x1_0000 + get_u16(bytes, at + 2) as u32
}

/// Reads eight bytes at `at`.
pub fn get_u64(bytes: &[u8], at: usize) -> (v: u64)
    requires
        at + 8 <= bytes.len(),
    ensures
        v == u64_at(bytes@, at as int),
{
    get_u32(bytes, at) as u64 * 0x1_0000_0000 + get_u32(bytes, at + 4) as u64
}

/// Reads a signed integer from four bytes at `at`.
pub fn get_i32(bytes: &[u8], at: usize) -> (v: i32)
    requires
        at + 4 <= bytes.len(),
    ensures
        v == i32_at(bytes@, at as int),
{
    let bits: u32 = get_u32(bytes, at);
    if bits < 0x8000_0000 {
        bits as i32
    } else {
        (bits as i64 - 0x1_0000_0000) as i32
    }
}

/// Copies the bytes from `from` up to `to`.
pub fn copy_range(bytes: &[u8], from: usize, to: usize) -> (out: Vec<u8>)
    requires
        from <= to <= bytes.len(),
    ensures
        out@ == bytes@.subrange(from as int, to as int),
{
    let mut out: Vec<u8> = Vec::new();
    let mut i: usize = from;
    while i < to
        invariant
            from <= i <= to <= bytes.len(),
            out@ == bytes@.subrange(from as int, i as int),
        decreases to - i,
    {
        out.push(bytes[i]);
        i = i + 1;
        assert(out@ =~= bytes@.subrange(from as int, i as int));
    }
    out
}

/// The first thirty-two bytes as an array.
pub fn to_array32(bytes: &[u8]) -> (array: [u8; 32])
    requires
        bytes.len() == 32,
    ensures
        array@ == bytes@,
{
    let mut array: [u8; 32] = [0; 32];
    let mut i: usize = 0;
    while i < 32
        invariant
            i <= 32,
            bytes.len() == 32,
            forall|j: int| 0 <= j < i ==> array@[j] == bytes@[j],
        decreases 32 - i,
    {
        array[i] = bytes[i];
        i = i + 1;
    }
    assert(array@ =~= bytes@);
    array
}

/// Whether two byte strings are equal.
pub fn same_bytes(a: &[u8], b: &[u8]) -> (same: bool)
    ensures
        same == (a@ == b@),
{
    if a.len() != b.len() {
        return false;
    }
    let mut i: usize = 0;
    while i < a.len()
        invariant
            i <= a.len(),
            a.len() == b.len(),
            forall|j: int| 0 <= j < i ==> a@[j] == b@[j],
        decreases a.len() - i,
    {
        if a[i] != b[i] {
            return false;
        }
        i = i + 1;
    }
    assert(a@ =~= b@);
    true
}

/// Integers are written with the most significant byte first, and read in the
/// same order. A negative integer is written as the one that is 2^32 above it.
pub proof fn law_integers_are_big_endian(a: u16, b: u32, c: u64, d: i32)
    ensures
        be16(a).len() == 2,
        be16(a)[0] * 0x100 + be16(a)[1] == a,
        be32(b).len() == 4,
        be32(b)[0] * 0x100_0000 + be32(b)[1] * 0x1_0000 + be32(b)[2] * 0x100 + be32(b)[3] == b,
        be64(c).len() == 8,
        be64(c)[0] * 0x100_0000_0000_0000 + be64(c)[1] * 0x1_0000_0000_0000 + be64(c)[2]
            * 0x100_0000_0000 + be64(c)[3] * 0x1_0000_0000 + be64(c)[4] * 0x100_0000 + be64(c)[5]
            * 0x1_0000 + be64(c)[6] * 0x100 + be64(c)[7] == c,
        be_i32(d) == be32(
            (if d < 0 {
                d + 0x1_0000_0000
            } else {
                d as int
            }) as u32,
        ),
{
    let high = (c / 0x1_0000_0000) as u32;
    let low = (c % 0x1_0000_0000) as u32;
    lemma_be32(b);
    lemma_be32(high);
    lemma_be32(low);
    assert(be64(c)[0] == be32(high)[0] && be64(c)[1] == be32(high)[1] && be64(c)[2] == be32(
        high,
    )[2] && be64(c)[3] == be32(high)[3]);
    assert(be64(c)[4] == be32(low)[0] && be64(c)[5] == be32(low)[1] && be64(c)[6] == be32(low)[2]
        && be64(c)[7] == be32(low)[3]);
}

proof fn lemma_be32(b: u32)
    ensures
        be32(b).len() == 4,
        be32(b)[0] * 0x100_0000 + be32(b)[1] * 0x1_0000 + be32(b)[2] * 0x100 + be32(b)[3] == b,
{
}

/// What is written is read again, wherever it stands.
pub proof fn law_reading_inverts_writing(
    before: Seq<u8>,
    after: Seq<u8>,
    a: u16,
    b: u32,
    c: u64,
    d: i32,
)
    ensures
        u16_at(before + be16(a) + after, before.len() as int) == a,
        u32_at(before + be32(b) + after, before.len() as int) == b,
        u64_at(before + be64(c) + after, before.len() as int) == c,
        i32_at(before + be_i32(d) + after, before.len() as int) == d,
{
    let at = before.len() as int;
    let s = before + be16(a) + after;
    assert(s.subrange(at, at + 2) =~= be16(a));
    lemma_u16_at(s, at, a);
    let s = before + be32(b) + after;
    assert(s.subrange(at, at + 4) =~= be32(b));
    lemma_u32_at(s, at, b);
    let s = before + be64(c) + after;
    assert(s.subrange(at, at + 8) =~= be64(c));
    lemma_u64_at(s, at, c);
    let s = before + be_i32(d) + after;
    assert(s.subrange(at, at + 4) =~= be_i32(d));
    lemma_i32_at(s, at, d);
}

} // verus!
