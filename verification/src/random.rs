//! Random numbers from the `rand` crate. Nothing is known of what they
//! return beyond their type and, for ranges, the range.
use rand::Rng;
use vstd::prelude::*;

verus! {

/// `rand::random::<u16>()`: any 16-bit value.
#[verifier::external_body]
pub(crate) fn random_u16() -> (r: u16) {
    rand::random::<u16>()
}

/// `rand::random::<u32>()`: any 32-bit value.
#[verifier::external_body]
pub(crate) fn random_u32() -> (r: u32) {
    rand::random::<u32>()
}

/// `Rng::fill` on the thread-local generator: six arbitrary bytes. It panics
/// only if the operating system's generator fails, which nothing here can
/// rule out.
#[verifier::external_body]
pub(crate) fn random_bytes6() -> (r: [u8; 6]) {
    let mut bytes = [0_u8; 6];
    rand::thread_rng().fill(&mut bytes);
    bytes
}

/// `Rng::gen_range(low..high)` on the thread-local generator: a value in
/// `[low, high)`; it panics on an empty range, which `requires` rules out.
#[verifier::external_body]
pub(crate) fn random_u16_in_range(low: u16, high: u16) -> (r: u16)
    requires
        low < high,
    ensures
        low <= r < high,
{
    rand::thread_rng().gen_range(low..high)
}

} // verus!
