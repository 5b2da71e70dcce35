use vstd::prelude::*;

use rand::Rng;

use crate::direction::Direction;

verus! {

/// Relies on `rand::Rng::gen_range` over the inclusive range `lo..=hi`:
/// it returns a uniform sample from the range and panics only when the
/// range is empty, which the precondition rules out.
#[verifier::external_body]
pub fn random_in_range(lo: i32, hi: i32) -> (r: i32)
    requires
        lo <= hi,
    ensures
        lo <= r <= hi,
{
    rand::thread_rng().gen_range(lo..=hi)
}

/// A random moving direction; never `Still`.
pub fn random_direction() -> (d: Direction)
    ensures
        d != Direction::Still,
{
    let i = random_in_range(0, 3);
    if i == 0 {
        Direction::Left
    } else if i == 1 {
        Direction::Right
    } else if i == 2 {
        Direction::Up
    } else {
        Direction::Down
    }
}

} // verus!
