//! Sets of key and button codes.
use std::collections::BTreeSet;

use vstd::prelude::*;

verus! {

/// Adds a code; true if it was not there.
pub fn insert_code(codes: &mut BTreeSet<u16>, code: u16) -> (added: bool)
    ensures
        final(codes)@ == old(codes)@.insert(code),
        added == !old(codes)@.contains(code),
{
    broadcast use {vstd::std_specs::btree::group_btree_axioms, vstd::laws_cmp::group_laws_cmp};

    codes.insert(code)
}

/// Removes a code; true if it was there.
pub fn remove_code(codes: &mut BTreeSet<u16>, code: u16) -> (removed: bool)
    ensures
        final(codes)@ == old(codes)@.remove(code),
        removed == old(codes)@.contains(code),
{
    broadcast use {vstd::std_specs::btree::group_btree_axioms, vstd::laws_cmp::group_laws_cmp};

    let removed = codes.remove(&code);
    assert(codes@ =~= old(codes)@.remove(code));
    removed
}

pub fn has_code(codes: &BTreeSet<u16>, code: u16) -> (found: bool)
    ensures
        found == codes@.contains(code),
{
    broadcast use {vstd::std_specs::btree::group_btree_axioms, vstd::laws_cmp::group_laws_cmp};

    codes.contains(&code)
}

/// The codes below `limit` in a set, in rising order.
pub open spec fn codes_below(codes: Set<u16>, limit: int) -> Seq<u16>
    decreases limit,
{
    if limit <= 0 {
        Seq::empty()
    } else if codes.contains((limit - 1) as u16) {
        codes_below(codes, limit - 1).push((limit - 1) as u16)
    } else {
        codes_below(codes, limit - 1)
    }
}

/// Largest code of a key or button.
pub const KEY_MAX: u16 = 0x2ff;

/// The codes of a set in rising order.
pub open spec fn held(codes: Set<u16>) -> Seq<u16> {
    codes_below(codes, KEY_MAX + 1)
}

/// The codes of a set in rising order, as long as none is beyond the range.
pub fn held_codes(codes: &BTreeSet<u16>) -> (list: Vec<u16>)
    ensures
        list@ == held(codes@),
{
    let mut list: Vec<u16> = Vec::new();
    let mut code: u16 = 0;
    while code <= KEY_MAX
        invariant
            code <= KEY_MAX + 1,
            list@ == codes_below(codes@, code as int),
        decreases KEY_MAX + 1 - code,
    {
        if has_code(codes, code) {
            list.push(code);
        }
        code = code + 1;
    }
    list
}

proof fn lemma_codes_below(codes: Set<u16>, limit: int)
    requires
        0 <= limit <= 65536,
    ensures
        forall|i: int|
            0 <= i < codes_below(codes, limit).len() ==> codes.contains(
                #[trigger] codes_below(codes, limit)[i],
            ) && codes_below(codes, limit)[i] < limit,
        forall|i: int, j: int|
            0 <= i < j < codes_below(codes, limit).len() ==> #[trigger] codes_below(
                codes,
                limit,
            )[i] < #[trigger] codes_below(codes, limit)[j],
        forall|code: u16| #[trigger]
            codes.contains(code) && code < limit ==> codes_below(codes, limit).contains(code),
    decreases limit,
{
    if limit > 0 {
        lemma_codes_below(codes, limit - 1);
        let before = codes_below(codes, limit - 1);
        assert forall|code: u16| #[trigger] codes.contains(code) && code < limit implies codes_below(
            codes,
            limit,
        ).contains(code) by {
            if code == limit - 1 {
                assert(codes_below(codes, limit)[before.len() as int] == code);
            } else {
                let i = before.index_of(code);
                assert(codes_below(codes, limit)[i] == code);
            }
        }
    }
}

/// Every code of a set is listed once, in rising order.
pub proof fn law_held_names_every_code(codes: Set<u16>)
    requires
        forall|code: u16| #[trigger] codes.contains(code) ==> code <= KEY_MAX,
    ensures
        held(codes).to_set() == codes,
        held(codes).no_duplicates(),
        forall|i: int, j: int|
            0 <= i < j < held(codes).len() ==> #[trigger] held(codes)[i] < #[trigger] held(
                codes,
            )[j],
{
    lemma_codes_below(codes, KEY_MAX + 1);
    assert(held(codes).to_set() =~= codes);
}

} // verus!
