//! The source of the coin that decides a contested birth.

use vstd::prelude::*;

verus! {

/// A pseudo-random number from `macroquad::rand::gen_range`, taken at the
/// type `u8`.  The generator scales a 32-bit draw into the half-open range
/// from `low` to `high` and cuts off the fraction, so for `low < high` the
/// number is at least `low` and below `high`.  It depends on the state of
/// the process-wide generator, so nothing more is known of it, and two calls
/// need not agree.
#[verifier::external_body]
pub(crate) fn draw_between(low: u8, high: u8) -> (drawn: u8)
    ensures
        low < high ==> low <= drawn < high,
{
    macroquad::rand::gen_range(low, high)
}

} // verus!
