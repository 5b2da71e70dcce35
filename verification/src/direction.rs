use vstd::prelude::*;

verus! {

/// A movement direction on the grid; `Still` means no movement.
#[derive(Clone, Copy, Debug, PartialEq, Eq, Structural)]
pub enum Direction {
    Left,
    Right,
    Up,
    Down,
    Still,
}

/// Whether `a` is the exact opposite of `b`. The opposite pairs are
/// (Up, Down) and (Left, Right); `Still` has no opposite.
pub open spec fn is_reverse(a: Direction, b: Direction) -> bool {
    ||| (a == Direction::Up && b == Direction::Down)
    ||| (a == Direction::Down && b == Direction::Up)
    ||| (a == Direction::Left && b == Direction::Right)
    ||| (a == Direction::Right && b == Direction::Left)
}

/// The direction a snake travels after requesting `req` while travelling
/// along `cur`: the request is ignored exactly when it is the reverse of
/// the current direction.
pub open spec fn turned(cur: Direction, req: Direction) -> Direction {
    if is_reverse(req, cur) {
        cur
    } else {
        req
    }
}

/// The turn restriction, for every pair of directions: a request for the
/// exact reverse of the current direction is rejected and the current
/// direction kept; any other request is adopted; and from `Still` every
/// request is adopted.
pub proof fn lemma_turn_restriction(cur: Direction, req: Direction)
    ensures
        is_reverse(req, cur) ==> turned(cur, req) == cur,
        !is_reverse(req, cur) ==> turned(cur, req) == req,
        cur == Direction::Still ==> turned(cur, req) == req,
{
}

impl Direction {
    /// The four moving directions, in the fixed enumeration order that
    /// path search expands neighbours in.
    pub fn iterator() -> (dirs: Vec<Direction>)
        ensures
            dirs@ =~= seq![
                Direction::Left,
                Direction::Right,
                Direction::Up,
                Direction::Down,
            ],
    {
        let mut dirs: Vec<Direction> = Vec::new();
        dirs.push(Direction::Left);
        dirs.push(Direction::Right);
        dirs.push(Direction::Up);
        dirs.push(Direction::Down);
        dirs
    }
}

} // verus!
