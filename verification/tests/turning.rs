use snake::direction::Direction;
use snake::input::{Handler, Key};
use snake::pos::Pos;
use snake::snake::Snake;

fn snake_with_dir(d: Direction) -> Snake {
    Snake::new(0, Pos { x: 5, y: 5 }, d, 3, 1, Handler::Human)
}

#[test]
fn up_rejects_down() {
    let mut s = snake_with_dir(Direction::Up);
    s.set_dir(Direction::Down);
    assert_eq!(s.d, Direction::Up);
}

#[test]
fn down_rejects_up() {
    let mut s = snake_with_dir(Direction::Down);
    s.set_dir(Direction::Up);
    assert_eq!(s.d, Direction::Down);
}

#[test]
fn left_rejects_right() {
    let mut s = snake_with_dir(Direction::Left);
    s.set_dir(Direction::Right);
    assert_eq!(s.d, Direction::Left);
}

#[test]
fn right_rejects_left() {
    let mut s = snake_with_dir(Direction::Right);
    s.set_dir(Direction::Left);
    assert_eq!(s.d, Direction::Right);
}

#[test]
fn orthogonal_turns_are_adopted() {
    let mut s = snake_with_dir(Direction::Up);
    s.set_dir(Direction::Left);
    assert_eq!(s.d, Direction::Left);
    s.set_dir(Direction::Down);
    assert_eq!(s.d, Direction::Down);
    s.set_dir(Direction::Right);
    assert_eq!(s.d, Direction::Right);
}

#[test]
fn still_accepts_every_request() {
    for d in [
        Direction::Up,
        Direction::Down,
        Direction::Left,
        Direction::Right,
    ] {
        let mut s = snake_with_dir(Direction::Still);
        s.set_dir(d);
        assert_eq!(s.d, d);
    }
}

#[test]
fn still_request_is_always_adopted() {
    let mut s = snake_with_dir(Direction::Right);
    s.set_dir(Direction::Still);
    assert_eq!(s.d, Direction::Still);
}

#[test]
fn arrow_keys_steer() {
    let mut s = snake_with_dir(Direction::Still);
    s.set_dir_from_input(Key::Up);
    assert_eq!(s.d, Direction::Up);
    s.set_dir_from_input(Key::Left);
    assert_eq!(s.d, Direction::Left);
    s.set_dir_from_input(Key::Down);
    assert_eq!(s.d, Direction::Down);
    s.set_dir_from_input(Key::Right);
    assert_eq!(s.d, Direction::Right);
}

#[test]
fn letter_keys_steer() {
    let mut s = snake_with_dir(Direction::Still);
    s.set_dir_from_input(Key::Char('w'));
    assert_eq!(s.d, Direction::Up);
    s.set_dir_from_input(Key::Char('a'));
    assert_eq!(s.d, Direction::Left);
    s.set_dir_from_input(Key::Char('s'));
    assert_eq!(s.d, Direction::Down);
    s.set_dir_from_input(Key::Char('d'));
    assert_eq!(s.d, Direction::Right);
}

#[test]
fn unrecognised_key_is_a_no_op() {
    let mut s = snake_with_dir(Direction::Right);
    s.set_dir_from_input(Key::Char('z'));
    assert_eq!(s.d, Direction::Right);
}

#[test]
fn keyed_reversal_is_still_rejected() {
    let mut s = snake_with_dir(Direction::Up);
    s.set_dir_from_input(Key::Down);
    assert_eq!(s.d, Direction::Up);
}
