use snake::direction::Direction;
use snake::fruit::spawn_fruits;
use snake::input::{handle_input, Handler, Key};
use snake::pos::Pos;
use snake::snake::Snake;
use snake::world::tick;

#[test]
fn fruit_count_is_invariant_across_ticks() {
    let mut snakes = vec![Snake::new(
        0,
        Pos { x: 10, y: 10 },
        Direction::Right,
        3,
        1,
        Handler::Human,
    )];
    let mut fruits = spawn_fruits(10, 20, 20);
    for _ in 0..10 {
        tick(&mut snakes, &mut fruits, 20, 20, None);
        assert_eq!(fruits.len(), 10);
        for (i, f) in fruits.iter().enumerate() {
            assert!(f.x >= 0 && f.x <= 20 && f.y >= 0 && f.y <= 20);
            for g in &fruits[i + 1..] {
                assert_ne!(f, g);
            }
        }
    }
}

#[test]
fn a_keypress_steers_the_human_snake_through_a_tick() {
    let mut snakes = vec![Snake::new(
        0,
        Pos { x: 10, y: 10 },
        Direction::Right,
        3,
        1,
        Handler::Human,
    )];
    let mut fruits: Vec<Pos> = Vec::new();
    tick(&mut snakes, &mut fruits, 20, 20, Some(Key::Up));
    assert_eq!(snakes[0].d, Direction::Up);
    assert_eq!(snakes[0].head(), Pos { x: 10, y: 9 });
}

#[test]
fn ai_snakes_keep_their_invariants_across_ticks() {
    let mut snakes = vec![
        Snake::new(0, Pos { x: 10, y: 10 }, Direction::Right, 3, 1, Handler::RandomAi),
        Snake::new(1, Pos { x: 5, y: 15 }, Direction::Up, 3, 2, Handler::RandomAi),
    ];
    let mut fruits = spawn_fruits(5, 20, 20);
    for _ in 0..50 {
        tick(&mut snakes, &mut fruits, 20, 20, None);
        assert_eq!(fruits.len(), 5);
        for s in &snakes {
            assert!(s.length() >= 1);
            assert!(s.length() <= s.l + 1);
            if s.dead {
                assert_eq!(s.d, Direction::Still);
            }
        }
    }
}

#[test]
fn handle_input_dispatches_by_strategy() {
    let mut hs = Snake::new(0, Pos { x: 10, y: 10 }, Direction::Right, 3, 1, Handler::Human);
    handle_input(&mut hs, 20, 20, Some(Key::Down));
    assert_eq!(hs.d, Direction::Down);

    let mut ai = Snake::new(1, Pos { x: 10, y: 0 }, Direction::Right, 3, 1, Handler::RandomAi);
    handle_input(&mut ai, 20, 20, Some(Key::Down));
    assert_ne!(ai.d, Direction::Up);
    assert_ne!(ai.d, Direction::Still);
}
