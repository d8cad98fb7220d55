//! The one place where the library rolls dice.

use vstd::prelude::*;

verus! {

/// A number below `bound`, each with the same chance.
///
/// Calls `rand::Rng::gen_range` on `rand::thread_rng()` with the range
/// `0..bound`. The contract claims of it only that the number lies in the
/// range, which `gen_range` documents; it panics on an empty range, which
/// `requires` leaves out. Nothing is claimed of which number comes, and two
/// calls may differ.
#[verifier::external_body]
pub(crate) fn draw_below(bound: u32) -> (drawn: u32)
    requires
        bound > 0,
    ensures
        drawn < bound,
{
    rand::Rng::gen_range(&mut rand::thread_rng(), 0..bound)
}

} // verus!
