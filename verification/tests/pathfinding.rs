use snake::direction::Direction;
use snake::input::Handler;
use snake::pos::Pos;
use snake::snake::Snake;

#[test]
fn open_grid_finds_the_fruit() {
    // a 5x5 open grid, the searcher at (2,2), one fruit at (2,0)
    let s = Snake::new(0, Pos { x: 2, y: 2 }, Direction::Still, 3, 1, Handler::Human);
    let fruits = vec![Pos { x: 2, y: 0 }];
    let snakes = vec![s.snapshot()];
    let found = s.closest_fruit(4, 4, &fruits, &snakes);
    assert_eq!(found, Some(Pos { x: 2, y: 0 }));
}

#[test]
fn fully_blocked_fruit_is_unreachable() {
    // the fruit is walled in on all four sides by snake body cells
    let s = Snake::new(0, Pos { x: 0, y: 0 }, Direction::Still, 3, 1, Handler::Human);
    let mut wall = Snake::new(1, Pos { x: 1, y: 2 }, Direction::Still, 4, 2, Handler::Human);
    wall.p.push_back(Pos { x: 3, y: 2 });
    wall.p.push_back(Pos { x: 2, y: 1 });
    wall.p.push_back(Pos { x: 2, y: 3 });
    let fruits = vec![Pos { x: 2, y: 2 }];
    let snakes = vec![s.snapshot(), wall.snapshot()];
    let found = s.closest_fruit(4, 4, &fruits, &snakes);
    assert_eq!(found, None);
}

#[test]
fn fruit_under_the_head_is_found_at_once() {
    let s = Snake::new(0, Pos { x: 2, y: 2 }, Direction::Still, 3, 1, Handler::Human);
    let fruits = vec![Pos { x: 4, y: 4 }, Pos { x: 2, y: 2 }];
    let snakes = vec![s.snapshot()];
    let found = s.closest_fruit(4, 4, &fruits, &snakes);
    assert_eq!(found, Some(Pos { x: 2, y: 2 }));
}

#[test]
fn no_fruit_means_none() {
    let s = Snake::new(0, Pos { x: 2, y: 2 }, Direction::Still, 3, 1, Handler::Human);
    let fruits: Vec<Pos> = Vec::new();
    let snakes = vec![s.snapshot()];
    assert_eq!(s.closest_fruit(4, 4, &fruits, &snakes), None);
}

#[test]
fn the_nearer_fruit_wins() {
    let s = Snake::new(0, Pos { x: 2, y: 2 }, Direction::Still, 3, 1, Handler::Human);
    let fruits = vec![Pos { x: 2, y: 4 }, Pos { x: 2, y: 1 }];
    let snakes = vec![s.snapshot()];
    assert_eq!(s.closest_fruit(4, 4, &fruits, &snakes), Some(Pos { x: 2, y: 1 }));
}

#[test]
fn ties_break_by_the_fixed_expansion_order() {
    // two fruits one step away: the Left neighbour is expanded before the
    // Right one
    let s = Snake::new(0, Pos { x: 2, y: 2 }, Direction::Still, 3, 1, Handler::Human);
    let fruits = vec![Pos { x: 3, y: 2 }, Pos { x: 1, y: 2 }];
    let snakes = vec![s.snapshot()];
    assert_eq!(s.closest_fruit(4, 4, &fruits, &snakes), Some(Pos { x: 1, y: 2 }));
}

#[test]
fn search_routes_around_an_obstacle() {
    // a wall forces a detour: the fruit straight ahead is farther by path
    // than a fruit that looks farther as the crow flies
    let s = Snake::new(0, Pos { x: 0, y: 2 }, Direction::Still, 3, 1, Handler::Human);
    let mut wall = Snake::new(1, Pos { x: 1, y: 1 }, Direction::Still, 3, 2, Handler::Human);
    wall.p.push_back(Pos { x: 1, y: 2 });
    wall.p.push_back(Pos { x: 1, y: 3 });
    // fruit behind the wall at (2,2): path length 6; fruit at (0,0): path 2
    let fruits = vec![Pos { x: 2, y: 2 }, Pos { x: 0, y: 0 }];
    let snakes = vec![s.snapshot(), wall.snapshot()];
    assert_eq!(s.closest_fruit(4, 4, &fruits, &snakes), Some(Pos { x: 0, y: 0 }));
}
