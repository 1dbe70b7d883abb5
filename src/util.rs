use vstd::prelude::*;

verus! {

/// A random integer in the inclusive range `min..=max`.
///
/// Relies on `rand::Rng::gen_range` over `rand::thread_rng()`: for a
/// non-empty inclusive range it returns a value inside the range (it panics
/// only on an empty range, which `requires` rules out).
#[verifier::external_body]
pub fn random_int(min: u32, max: u32) -> (r: u32)
    requires
        min <= max,
    ensures
        min <= r <= max,
{
    rand::Rng::gen_range(&mut rand::thread_rng(), min..=max)
}

} // verus!
