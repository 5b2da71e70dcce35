use snake::direction::Direction;
use snake::input::Handler;
use snake::pos::Pos;
use snake::snake::Snake;
use snake::world::tick;

#[test]
fn boundary_death_sets_dead_and_still() {
    let mut s = Snake::new(0, Pos { x: 0, y: 3 }, Direction::Left, 3, 1, Handler::Human);
    let snaps = vec![s.snapshot()];
    s.mv();
    assert_eq!(s.head(), Pos { x: -1, y: 3 });
    let mut fruits: Vec<Pos> = Vec::new();
    s.collision(10, 10, &mut fruits, &snaps);
    assert!(s.dead);
    assert_eq!(s.d, Direction::Still);
}

#[test]
fn collision_on_a_dead_snake_is_idempotent() {
    let mut s = Snake::new(0, Pos { x: 0, y: 3 }, Direction::Left, 3, 1, Handler::Human);
    let snaps = vec![s.snapshot()];
    s.mv();
    let mut fruits: Vec<Pos> = Vec::new();
    s.collision(10, 10, &mut fruits, &snaps);
    assert!(s.dead);
    let body_before: Vec<Pos> = s.p.iter().cloned().collect();
    let l_before = s.l;
    s.collision(10, 10, &mut fruits, &snaps);
    let body_after: Vec<Pos> = s.p.iter().cloned().collect();
    assert!(s.dead);
    assert_eq!(s.d, Direction::Still);
    assert_eq!(body_before, body_after);
    assert_eq!(s.l, l_before);
    assert!(fruits.is_empty());
}

#[test]
fn self_collision_uses_the_pre_move_body_without_its_head() {
    // the head turns down into the cell the tail is about to leave: the
    // pre-move body still holds that cell, so the snake dies
    let mut s = Snake::new(0, Pos { x: 1, y: 1 }, Direction::Down, 4, 1, Handler::Human);
    s.p.push_back(Pos { x: 2, y: 1 });
    s.p.push_back(Pos { x: 2, y: 2 });
    s.p.push_back(Pos { x: 1, y: 2 });
    let snaps = vec![s.snapshot()];
    s.mv();
    assert_eq!(s.head(), Pos { x: 1, y: 2 });
    let mut fruits: Vec<Pos> = Vec::new();
    s.collision(10, 10, &mut fruits, &snaps);
    assert!(s.dead);
}

#[test]
fn moving_away_from_the_old_head_cell_is_safe() {
    let mut s = Snake::new(0, Pos { x: 1, y: 1 }, Direction::Right, 3, 1, Handler::Human);
    let snaps = vec![s.snapshot()];
    s.mv();
    let mut fruits: Vec<Pos> = Vec::new();
    s.collision(10, 10, &mut fruits, &snaps);
    assert!(!s.dead);
    assert_eq!(s.d, Direction::Right);
}

#[test]
fn eating_a_fruit_grows_and_respawns() {
    let mut s = Snake::new(0, Pos { x: 1, y: 1 }, Direction::Right, 3, 1, Handler::Human);
    let snaps = vec![s.snapshot()];
    s.mv();
    assert_eq!(s.head(), Pos { x: 2, y: 1 });
    let mut fruits = vec![Pos { x: 2, y: 1 }, Pos { x: 5, y: 5 }];
    let spawned = s.collision(10, 10, &mut fruits, &snaps);
    assert!(!s.dead);
    assert_eq!(s.l, 5);
    // the fruit-set size is invariant across a consumption event
    assert_eq!(fruits.len(), 2);
    assert!(fruits.contains(&Pos { x: 5, y: 5 }));
    let new_fruit = spawned.expect("a replacement fruit is always spawned");
    assert!(new_fruit.x >= 0 && new_fruit.x <= 10);
    assert!(new_fruit.y >= 0 && new_fruit.y <= 10);
    assert_ne!(new_fruit, Pos { x: 5, y: 5 });
    // no two fruits share a cell
    assert_ne!(fruits[0], fruits[1]);
}

#[test]
fn missing_the_fruit_changes_nothing() {
    let mut s = Snake::new(0, Pos { x: 1, y: 1 }, Direction::Right, 3, 1, Handler::Human);
    let snaps = vec![s.snapshot()];
    s.mv();
    let mut fruits = vec![Pos { x: 9, y: 9 }];
    let spawned = s.collision(10, 10, &mut fruits, &snaps);
    assert_eq!(spawned, None);
    assert_eq!(s.l, 3);
    assert_eq!(fruits, vec![Pos { x: 9, y: 9 }]);
}

#[test]
fn hitting_another_snakes_body_kills_only_the_mover() {
    // snake A steps onto a body cell (not the head) of snake B
    let a = Snake::new(0, Pos { x: 1, y: 1 }, Direction::Right, 3, 1, Handler::Human);
    let mut b = Snake::new(1, Pos { x: 2, y: 0 }, Direction::Still, 3, 2, Handler::Human);
    b.p.push_back(Pos { x: 2, y: 1 });
    b.p.push_back(Pos { x: 2, y: 2 });
    let mut snakes = vec![a, b];
    let mut fruits: Vec<Pos> = Vec::new();
    tick(&mut snakes, &mut fruits, 10, 10, None);
    assert!(snakes[0].dead);
    assert_eq!(snakes[0].d, Direction::Still);
    assert!(!snakes[1].dead);
    assert_eq!(snakes[1].head(), Pos { x: 2, y: 0 });
    assert_eq!(snakes[1].length(), 3);
}

#[test]
fn collision_reads_the_snapshot_not_the_moved_world() {
    // both snakes step into the same empty cell in one tick; neither dies,
    // because each is resolved against the pre-tick snapshot in which that
    // cell is free
    let a = Snake::new(0, Pos { x: 1, y: 1 }, Direction::Right, 1, 1, Handler::Human);
    let b = Snake::new(1, Pos { x: 3, y: 1 }, Direction::Left, 1, 2, Handler::Human);
    let mut snakes = vec![a, b];
    let mut fruits: Vec<Pos> = Vec::new();
    tick(&mut snakes, &mut fruits, 10, 10, None);
    assert_eq!(snakes[0].head(), Pos { x: 2, y: 1 });
    assert_eq!(snakes[1].head(), Pos { x: 2, y: 1 });
    assert!(!snakes[0].dead);
    assert!(!snakes[1].dead);
}

#[test]
fn dead_snakes_stay_dead_across_ticks() {
    let mut s = Snake::new(0, Pos { x: 0, y: 3 }, Direction::Left, 3, 1, Handler::Human);
    let snaps = vec![s.snapshot()];
    s.mv();
    let mut fruits: Vec<Pos> = Vec::new();
    s.collision(10, 10, &mut fruits, &snaps);
    assert!(s.dead);
    let mut snakes = vec![s];
    for _ in 0..5 {
        tick(&mut snakes, &mut fruits, 10, 10, None);
        assert!(snakes[0].dead);
        assert_eq!(snakes[0].d, Direction::Still);
    }
}
