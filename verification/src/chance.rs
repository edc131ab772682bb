use rand::Rng;
use vstd::prelude::*;

verus! {

/// One draw of `Rng::gen_ratio` from `rand::thread_rng()`: true with a chance
/// of `numerator` in `denominator`. The outcome is random, so nothing is
/// said of it but what the odds force: odds of zero never hit, odds of one
/// always do. The draw panics on odds above one or over zero, which
/// `requires` leaves out.
#[verifier::external_body]
pub(crate) fn draw(numerator: u32, denominator: u32) -> (hit: bool)
    requires
        numerator <= denominator,
        denominator != 0,
    ensures
        numerator == 0 ==> !hit,
        numerator == denominator ==> hit,
{
    rand::thread_rng().gen_ratio(numerator, denominator)
}

} // verus!
