use vstd::prelude::*;

use crate::direction::{is_reverse, turned, Direction};
use crate::pos::Pos;
use crate::rng::{random_direction, random_in_range};
use crate::snake::{same_tag, Snake};

verus! {

/// One decoded keypress, as the simulation core sees it.
#[derive(Clone, Copy, Debug, PartialEq, Eq, Structural)]
pub enum Key {
    Up,
    Down,
    Left,
    Right,
    Char(char),
}

/// The strategy that steers a snake each tick.
#[derive(Clone, Copy, Debug, PartialEq, Eq, Structural)]
pub enum Handler {
    Human,
    RandomAi,
}

/// The direction a key requests, if it is one of the movement keys:
/// the arrow keys, or the letters w/a/s/d.
pub open spec fn key_direction(k: Key) -> Option<Direction> {
    match k {
        Key::Up => Some(Direction::Up),
        Key::Down => Some(Direction::Down),
        Key::Left => Some(Direction::Left),
        Key::Right => Some(Direction::Right),
        Key::Char(c) => {
            if c == 'w' {
                Some(Direction::Up)
            } else if c == 'a' {
                Some(Direction::Left)
            } else if c == 's' {
                Some(Direction::Down)
            } else if c == 'd' {
                Some(Direction::Right)
            } else {
                None
            }
        },
    }
}

/// The direction a human-steered snake travels after one tick's keypress:
/// a dead snake ignores all input; movement keys request a turn, which the
/// turn restriction may still reject; other keys change nothing.
pub open spec fn human_steer(dead: bool, cur: Direction, key: Option<Key>) -> Direction {
    if dead {
        cur
    } else {
        match key {
            Some(k) => match key_direction(k) {
                Some(dir) => turned(cur, dir),
                None => cur,
            },
            None => cur,
        }
    }
}

/// Whether travelling along `d` from `head` would step straight off the
/// playable grid `[0, max_col] x [0, max_row]`: each axis forbids the
/// direction off its own edge.
pub open spec fn forbidden_dir(d: Direction, head: Pos, max_y: int, max_x: int) -> bool {
    ||| (d == Direction::Left && head.x == 0)
    ||| (d == Direction::Right && head.x == max_x)
    ||| (d == Direction::Up && head.y == 0)
    ||| (d == Direction::Down && head.y == max_y)
}

/// Whether travelling along `d` from `head` would step straight off the grid.
fn is_forbidden(d: Direction, head: Pos, max_y: i32, max_x: i32) -> (r: bool)
    ensures
        r == forbidden_dir(d, head, max_y as int, max_x as int),
{
    match d {
        Direction::Left => head.x == 0,
        Direction::Right => head.x == max_x,
        Direction::Up => head.y == 0,
        Direction::Down => head.y == max_y,
        Direction::Still => false,
    }
}

/// Whether `dir` is the exact reverse of `cur`.
fn reverses(dir: Direction, cur: Direction) -> (r: bool)
    ensures
        r == is_reverse(dir, cur),
{
    match dir {
        Direction::Up => cur == Direction::Down,
        Direction::Down => cur == Direction::Up,
        Direction::Left => cur == Direction::Right,
        Direction::Right => cur == Direction::Left,
        Direction::Still => false,
    }
}

/// Manual steering by a human: one optional keypress per tick.
pub fn human(snake: &mut Snake, key: Option<Key>)
    ensures
        final(snake).d == human_steer(old(snake).dead, old(snake).d, key),
        final(snake).p == old(snake).p,
        final(snake).l == old(snake).l,
        final(snake).dead == old(snake).dead,
        same_tag(*final(snake), *old(snake)),
{
    if !snake.dead {
        if let Some(k) = key {
            snake.set_dir_from_input(k);
        }
    }
}

/// A simple strategy that wanders randomly: a snake that is already moving
/// occasionally rolls a new direction, then re-rolls while the chosen
/// direction would step straight off the grid. It never steers a stopped
/// snake, and it never leaves the snake headed off the grid's edge. The
/// grid must be at least two cells wide on each axis: on a single-cell
/// axis both of that axis' directions walk off the grid, and no steering
/// could honour the guarantee.
#[verifier::loop_isolation(false)]
pub fn random_ai(snake: &mut Snake, max_y: i32, max_x: i32)
    requires
        old(snake).p@.len() >= 1,
        max_y >= 1,
        max_x >= 1,
    ensures
        final(snake).p == old(snake).p,
        final(snake).l == old(snake).l,
        final(snake).dead == old(snake).dead,
        same_tag(*final(snake), *old(snake)),
        old(snake).d == Direction::Still ==> final(snake).d == Direction::Still,
        old(snake).d != Direction::Still ==> final(snake).d != Direction::Still
            && !forbidden_dir(
            final(snake).d,
            old(snake).spec_head(),
            max_y as int,
            max_x as int,
        ),
{
    if snake.d != Direction::Still {
        let head = snake.head();
        if random_in_range(0, 9) == 0 {
            let r = random_direction();
            snake.set_dir(r);
        }
        let mut tries: usize = 100;
        while tries > 0 && is_forbidden(snake.d, head, max_y, max_x)
            invariant
                snake.p == old(snake).p,
                snake.l == old(snake).l,
                snake.dead == old(snake).dead,
                same_tag(*snake, *old(snake)),
                snake.d != Direction::Still,
            decreases tries,
        {
            let r = random_direction();
            snake.set_dir(r);
            tries = tries - 1;
        }
        if is_forbidden(snake.d, head, max_y, max_x) {
            // the random draws kept landing on walls or on the reverse
            // direction: steer deterministically to a direction that is
            // neither, which each axis' edge rules always leave available
            let cur = snake.d;
            if !is_forbidden(Direction::Left, head, max_y, max_x) && !reverses(
                Direction::Left,
                cur,
            ) {
                snake.set_dir(Direction::Left);
            } else if !is_forbidden(Direction::Right, head, max_y, max_x) && !reverses(
                Direction::Right,
                cur,
            ) {
                snake.set_dir(Direction::Right);
            } else if !is_forbidden(Direction::Up, head, max_y, max_x) && !reverses(
                Direction::Up,
                cur,
            ) {
                snake.set_dir(Direction::Up);
            } else if !is_forbidden(Direction::Down, head, max_y, max_x) && !reverses(
                Direction::Down,
                cur,
            ) {
                snake.set_dir(Direction::Down);
            } else {
                proof {
                    assert(false);
                }
            }
        }
    }
}

/// Run the snake's bound steering strategy for one tick.
pub fn handle_input(snake: &mut Snake, max_y: i32, max_x: i32, key: Option<Key>)
    requires
        old(snake).inv(),
        max_y >= 1,
        max_x >= 1,
    ensures
        final(snake).inv(),
        final(snake).p == old(snake).p,
        final(snake).l == old(snake).l,
        final(snake).dead == old(snake).dead,
        same_tag(*final(snake), *old(snake)),
        old(snake).handler == Handler::Human ==> final(snake).d == human_steer(
            old(snake).dead,
            old(snake).d,
            key,
        ),
        old(snake).handler == Handler::RandomAi ==> {
            &&& old(snake).d == Direction::Still ==> final(snake).d == Direction::Still
            &&& old(snake).d != Direction::Still ==> final(snake).d != Direction::Still
                && !forbidden_dir(
                final(snake).d,
                old(snake).spec_head(),
                max_y as int,
                max_x as int,
            )
        },
{
    match snake.handler {
        Handler::Human => human(snake, key),
        Handler::RandomAi => random_ai(snake, max_y, max_x),
    }
}

} // verus!
