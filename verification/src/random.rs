//! Random values from the operating system's generator.
use vstd::prelude::*;

verus! {

/// `RngCore::fill_bytes` on `rand::thread_rng`: as many bytes as were asked
/// for. Nothing is claimed of their values.
#[verifier::external_body]
pub(crate) fn random_bytes(len: usize) -> (bytes: Vec<u8>)
    ensures
        bytes@.len() == len,
{
    let mut bytes = vec![0_u8; len];
    rand::RngCore::fill_bytes(&mut rand::thread_rng(), &mut bytes);
    bytes
}

/// `RngCore::next_u32` on `rand::thread_rng`. Nothing is claimed of its value.
#[verifier::external_body]
pub(crate) fn random_u32() -> (value: u32) {
    rand::RngCore::next_u32(&mut rand::thread_rng())
}

} // verus!
