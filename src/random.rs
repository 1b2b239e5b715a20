use rand::Rng;
use vstd::prelude::*;

verus! {

/// A number drawn uniformly from `min..=max`.
///
/// Relies on `rand::Rng::gen_range` over `rand::thread_rng()`: the value lies in
/// the inclusive range, which must not be empty.
#[verifier::external_body]
pub fn get_random(min: u32, max: u32) -> (r: u32)
    requires
        min <= max,
    ensures
        min <= r <= max,
{
    rand::thread_rng().gen_range(min..=max)
}

} // verus!
