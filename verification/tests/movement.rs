use snake::direction::Direction;
use snake::input::Handler;
use snake::pos::Pos;
use snake::snake::Snake;

#[test]
fn stepping_in_each_direction() {
    let p = Pos { x: 3, y: 4 };
    assert_eq!(p.get(Direction::Up), Pos { x: 3, y: 3 });
    assert_eq!(p.get(Direction::Down), Pos { x: 3, y: 5 });
    assert_eq!(p.get(Direction::Left), Pos { x: 2, y: 4 });
    assert_eq!(p.get(Direction::Right), Pos { x: 4, y: 4 });
    assert_eq!(p.get(Direction::Still), Pos { x: 3, y: 4 });
}

#[test]
fn go_moves_in_place() {
    let mut p = Pos { x: 0, y: 0 };
    p.go(Direction::Down);
    p.go(Direction::Right);
    assert_eq!(p, Pos { x: 1, y: 1 });
}

#[test]
fn snake_grows_toward_target_then_trims() {
    let mut s = Snake::new(0, Pos { x: 5, y: 5 }, Direction::Right, 3, 1, Handler::Human);
    let v1 = s.mv();
    assert_eq!(v1, None);
    assert_eq!(s.length(), 2);
    assert_eq!(s.head(), Pos { x: 6, y: 5 });
    let v2 = s.mv();
    assert_eq!(v2, None);
    assert_eq!(s.length(), 3);
    let v3 = s.mv();
    assert_eq!(v3, Some(Pos { x: 5, y: 5 }));
    assert_eq!(s.length(), 3);
    assert_eq!(s.head(), Pos { x: 8, y: 5 });
}

#[test]
fn body_never_exceeds_target_by_more_than_one() {
    let mut s = Snake::new(0, Pos { x: 50, y: 50 }, Direction::Left, 3, 1, Handler::Human);
    for i in 0..20 {
        if i == 7 {
            // a fruit was eaten somewhere along the way
            s.l += 2;
        }
        s.mv();
        assert!(s.length() <= s.l + 1);
    }
}

#[test]
fn still_snake_does_not_move() {
    let mut s = Snake::new(0, Pos { x: 5, y: 5 }, Direction::Still, 3, 1, Handler::Human);
    let v = s.mv();
    assert_eq!(v, None);
    assert_eq!(s.length(), 1);
    assert_eq!(s.head(), Pos { x: 5, y: 5 });
}

#[test]
fn dying_stops_the_snake() {
    let mut s = Snake::new(0, Pos { x: 5, y: 5 }, Direction::Right, 3, 1, Handler::Human);
    s.die();
    assert!(s.dead);
    assert_eq!(s.d, Direction::Still);
    let v = s.mv();
    assert_eq!(v, None);
    assert_eq!(s.head(), Pos { x: 5, y: 5 });
}
