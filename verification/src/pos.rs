use vstd::prelude::*;

use crate::direction::Direction;

verus! {

/// A cell on the grid, addressed by column `x` and row `y`.
#[derive(Clone, Copy, Debug, PartialEq, Eq, Hash, Structural)]
pub struct Pos {
    pub x: i32,
    pub y: i32,
}

/// Where one step along `d` leads from `p`.
pub open spec fn step(p: Pos, d: Direction) -> Pos {
    match d {
        Direction::Up => Pos { x: p.x, y: (p.y - 1) as i32 },
        Direction::Down => Pos { x: p.x, y: (p.y + 1) as i32 },
        Direction::Left => Pos { x: (p.x - 1) as i32, y: p.y },
        Direction::Right => Pos { x: (p.x + 1) as i32, y: p.y },
        Direction::Still => p,
    }
}

/// One step along `d` from `p` stays representable in machine integers.
pub open spec fn can_step(p: Pos, d: Direction) -> bool {
    match d {
        Direction::Up => p.y > i32::MIN,
        Direction::Down => p.y < i32::MAX,
        Direction::Left => p.x > i32::MIN,
        Direction::Right => p.x < i32::MAX,
        Direction::Still => true,
    }
}

/// `p` lies on the playable grid `[0, max_col] x [0, max_row]`.
pub open spec fn in_bounds(p: Pos, max_y: int, max_x: int) -> bool {
    &&& 0 <= p.x <= max_x
    &&& 0 <= p.y <= max_y
}

impl Pos {
    /// Move this cell one step along `d` in place.
    pub fn go(&mut self, d: Direction)
        requires
            can_step(*old(self), d),
        ensures
            *final(self) == step(*old(self), d),
    {
        match d {
            Direction::Up => self.y = self.y - 1,
            Direction::Down => self.y = self.y + 1,
            Direction::Left => self.x = self.x - 1,
            Direction::Right => self.x = self.x + 1,
            Direction::Still => (),
        }
    }

    /// The cell one step along `d` from this one.
    pub fn get(&self, d: Direction) -> (r: Pos)
        requires
            can_step(*self, d),
        ensures
            r == step(*self, d),
    {
        let mut pos = *self;
        pos.go(d);
        pos
    }
}

} // verus!
