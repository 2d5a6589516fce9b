use rust_sokoban::components::{BoxColor, Position};
use rust_sokoban::entities::{create_box, create_floor, create_player, create_wall};
use rust_sokoban::events::{EntityMoved, Event};
use rust_sokoban::map::load_map;
use rust_sokoban::resources::{EventQueue, Gameplay, GameplayState, InputQueue, KeyCode};
use rust_sokoban::store::{Components, Store};
use rust_sokoban::systems::input_system::{resolve_push, InputSystem};

fn at(x: u8, y: u8) -> Position {
    Position { x, y, z: 0 }
}

fn tile(store: &Store, id: u32) -> (u8, u8) {
    let p = store.position(id).unwrap();
    (p.x, p.y)
}

fn tick(store: &mut Store, keys: &mut InputQueue, gameplay: &mut Gameplay) -> Vec<Event> {
    let mut events = EventQueue::default();
    InputSystem {}.run(keys, store, gameplay, &mut events);
    events.events
}

#[test]
fn player_pushes_box_right() {
    let mut store = Store::new();
    assert_eq!(load_map(&mut store, "W P RB . W"), Ok(()));
    // floor, wall, floor, player, floor, box, floor, floor, wall
    let (player, the_box) = (3, 5);
    assert_eq!(tile(&store, player), (1, 0));
    assert_eq!(tile(&store, the_box), (2, 0));
    let mut keys = InputQueue::default();
    keys.push(KeyCode::Right);
    let mut gameplay = Gameplay::default();
    let events = tick(&mut store, &mut keys, &mut gameplay);
    assert_eq!(tile(&store, player), (2, 0));
    assert_eq!(tile(&store, the_box), (3, 0));
    assert_eq!(gameplay.moves_count, 1);
    assert_eq!(events, vec![Event::EntityMoved(EntityMoved { id: the_box })]);
    assert!(keys.keys_pressed.is_empty());
}

#[test]
fn wall_behind_box_blocks_push() {
    let mut store = Store::new();
    assert_eq!(load_map(&mut store, "W P RB . W"), Ok(()));
    let (player, the_box, wall) = (3, 5, 8);
    let mut keys = InputQueue::default();
    let mut gameplay = Gameplay::default();
    keys.push(KeyCode::Right);
    tick(&mut store, &mut keys, &mut gameplay);
    assert_eq!(tile(&store, wall), (4, 0));
    keys.push(KeyCode::Right);
    let events = tick(&mut store, &mut keys, &mut gameplay);
    assert_eq!(tile(&store, player), (2, 0));
    assert_eq!(tile(&store, the_box), (3, 0));
    assert_eq!(gameplay.moves_count, 1);
    assert!(events.is_empty());
    assert!(keys.keys_pressed.is_empty());
}

#[test]
fn chain_of_three_boxes_moves_together() {
    let mut store = Store::new();
    let player = create_player(&mut store, at(0, 2));
    let a = create_box(&mut store, at(1, 2), BoxColor::Red);
    let b = create_box(&mut store, at(2, 2), BoxColor::Blue);
    let c = create_box(&mut store, at(3, 2), BoxColor::Red);
    let aside = create_box(&mut store, at(3, 3), BoxColor::Red);
    let pushed = resolve_push(&mut store, player, KeyCode::Right);
    assert_eq!(pushed, Some(vec![a, b, c]));
    assert_eq!(tile(&store, player), (1, 2));
    assert_eq!(tile(&store, a), (2, 2));
    assert_eq!(tile(&store, b), (3, 2));
    assert_eq!(tile(&store, c), (4, 2));
    assert_eq!(tile(&store, aside), (3, 3));
    assert_eq!(store.position(a).unwrap().z, 10);
}

#[test]
fn chain_before_wall_stays_whole() {
    let mut store = Store::new();
    let player = create_player(&mut store, at(3, 5));
    let a = create_box(&mut store, at(3, 4), BoxColor::Red);
    let b = create_box(&mut store, at(3, 3), BoxColor::Blue);
    let wall = create_wall(&mut store, at(3, 2));
    let beyond = create_box(&mut store, at(3, 1), BoxColor::Blue);
    assert_eq!(resolve_push(&mut store, player, KeyCode::Up), None);
    assert_eq!(tile(&store, player), (3, 5));
    assert_eq!(tile(&store, a), (3, 4));
    assert_eq!(tile(&store, b), (3, 3));
    assert_eq!(tile(&store, wall), (3, 2));
    assert_eq!(tile(&store, beyond), (3, 1));
}

#[test]
fn free_tile_moves_player_alone() {
    let mut store = Store::new();
    let floor = create_floor(&mut store, at(2, 1));
    let player = create_player(&mut store, at(1, 1));
    let far = create_box(&mut store, at(3, 1), BoxColor::Red);
    assert_eq!(resolve_push(&mut store, player, KeyCode::Right), Some(vec![]));
    assert_eq!(tile(&store, player), (2, 1));
    assert_eq!(tile(&store, far), (3, 1));
    assert_eq!(tile(&store, floor), (2, 1));
}

#[test]
fn each_direction_moves_one_tile() {
    for (key, to) in [
        (KeyCode::Up, (4, 3)),
        (KeyCode::Down, (4, 5)),
        (KeyCode::Left, (3, 4)),
        (KeyCode::Right, (5, 4)),
    ] {
        let mut store = Store::new();
        let player = create_player(&mut store, at(4, 4));
        assert_eq!(resolve_push(&mut store, player, key), Some(vec![]));
        assert_eq!(tile(&store, player), to);
    }
}

#[test]
fn other_key_is_consumed_without_a_move() {
    let mut store = Store::new();
    let player = create_player(&mut store, at(4, 4));
    let mut keys = InputQueue::default();
    keys.push(KeyCode::Left);
    keys.push(KeyCode::Other);
    let mut gameplay = Gameplay::default();
    let events = tick(&mut store, &mut keys, &mut gameplay);
    assert_eq!(tile(&store, player), (4, 4));
    assert_eq!(gameplay.moves_count, 0);
    assert!(events.is_empty());
    assert_eq!(keys.keys_pressed, vec![KeyCode::Left]);
}

#[test]
fn most_recent_key_is_taken_first() {
    let mut store = Store::new();
    let player = create_player(&mut store, at(4, 4));
    let mut keys = InputQueue::default();
    keys.push(KeyCode::Left);
    keys.push(KeyCode::Up);
    keys.push(KeyCode::Down);
    let mut gameplay = Gameplay::default();
    tick(&mut store, &mut keys, &mut gameplay);
    assert_eq!(tile(&store, player), (4, 5));
    assert_eq!(keys.keys_pressed, vec![KeyCode::Left, KeyCode::Up]);
    tick(&mut store, &mut keys, &mut gameplay);
    assert_eq!(tile(&store, player), (4, 4));
    tick(&mut store, &mut keys, &mut gameplay);
    assert_eq!(tile(&store, player), (3, 4));
    assert_eq!(gameplay.moves_count, 3);
    assert_eq!(keys.pop(), None);
}

#[test]
fn no_key_no_move() {
    let mut store = Store::new();
    let player = create_player(&mut store, at(4, 4));
    let mut keys = InputQueue::default();
    let mut gameplay = Gameplay { state: GameplayState::Won, moves_count: 7 };
    let events = tick(&mut store, &mut keys, &mut gameplay);
    assert_eq!(tile(&store, player), (4, 4));
    assert_eq!(gameplay, Gameplay { state: GameplayState::Won, moves_count: 7 });
    assert!(events.is_empty());
}

#[test]
fn move_is_counted_once_whatever_the_chain() {
    let mut store = Store::new();
    let player = create_player(&mut store, at(1, 1));
    let a = create_box(&mut store, at(2, 1), BoxColor::Red);
    let b = create_box(&mut store, at(3, 1), BoxColor::Red);
    let mut keys = InputQueue::default();
    keys.push(KeyCode::Right);
    let mut gameplay = Gameplay::default();
    let events = tick(&mut store, &mut keys, &mut gameplay);
    assert_eq!(gameplay.moves_count, 1);
    assert_eq!(
        events,
        vec![
            Event::EntityMoved(EntityMoved { id: a }),
            Event::EntityMoved(EntityMoved { id: b }),
        ]
    );
    assert_eq!(tile(&store, player), (2, 1));
}

#[test]
fn push_off_the_grid_is_refused() {
    let mut store = Store::new();
    let player = create_player(&mut store, at(1, 0));
    let the_box = create_box(&mut store, at(0, 0), BoxColor::Red);
    assert_eq!(resolve_push(&mut store, player, KeyCode::Left), None);
    assert_eq!(resolve_push(&mut store, player, KeyCode::Up), None);
    assert_eq!(tile(&store, player), (1, 0));
    assert_eq!(tile(&store, the_box), (0, 0));
    let mut lone = Store::new();
    let corner = create_player(&mut lone, at(255, 255));
    assert_eq!(resolve_push(&mut lone, corner, KeyCode::Right), None);
    assert_eq!(resolve_push(&mut lone, corner, KeyCode::Down), None);
    assert_eq!(tile(&lone, corner), (255, 255));
}

#[test]
fn scan_ends_at_the_edge_of_the_map() {
    // The scan covers columns up to 8; a wall beyond it is not seen.
    let mut store = Store::new();
    let player = create_player(&mut store, at(7, 0));
    let the_box = create_box(&mut store, at(8, 0), BoxColor::Red);
    let wall = create_wall(&mut store, at(9, 0));
    assert_eq!(resolve_push(&mut store, player, KeyCode::Right), Some(vec![the_box]));
    assert_eq!(tile(&store, player), (8, 0));
    assert_eq!(tile(&store, the_box), (9, 0));
    assert_eq!(tile(&store, wall), (9, 0));
    // Rows are scanned up to 9.
    let mut rows = Store::new();
    let p = create_player(&mut rows, at(0, 9));
    let w = create_wall(&mut rows, at(0, 10));
    assert_eq!(resolve_push(&mut rows, p, KeyCode::Down), Some(vec![]));
    assert_eq!(tile(&rows, p), (0, 10));
    assert_eq!(tile(&rows, w), (0, 10));
}

#[test]
fn entity_without_position_does_not_push() {
    let mut store = Store::new();
    let mut c = Components::none();
    c.player = true;
    c.movable = true;
    let ghostly = store.create(c);
    assert_eq!(resolve_push(&mut store, ghostly, KeyCode::Right), None);
    assert_eq!(resolve_push(&mut store, 99, KeyCode::Right), None);
    let mut keys = InputQueue::default();
    keys.push(KeyCode::Right);
    let mut gameplay = Gameplay::default();
    tick(&mut store, &mut keys, &mut gameplay);
    assert_eq!(keys.keys_pressed, vec![KeyCode::Right]);
    assert_eq!(gameplay.moves_count, 0);
}

#[test]
fn last_created_movable_on_a_tile_is_pushed() {
    let mut store = Store::new();
    let player = create_player(&mut store, at(1, 1));
    let first = create_box(&mut store, at(2, 1), BoxColor::Red);
    let second = create_box(&mut store, at(2, 1), BoxColor::Blue);
    assert_eq!(resolve_push(&mut store, player, KeyCode::Right), Some(vec![second]));
    assert_eq!(tile(&store, first), (2, 1));
    assert_eq!(tile(&store, second), (3, 1));
}

#[test]
fn two_players_take_a_key_each() {
    let mut store = Store::new();
    let one = create_player(&mut store, at(1, 1));
    let two = create_player(&mut store, at(5, 5));
    let mut keys = InputQueue::default();
    keys.push(KeyCode::Up);
    keys.push(KeyCode::Left);
    let mut gameplay = Gameplay::default();
    tick(&mut store, &mut keys, &mut gameplay);
    assert_eq!(tile(&store, one), (0, 1));
    assert_eq!(tile(&store, two), (5, 4));
    assert_eq!(gameplay.moves_count, 2);
    assert!(keys.keys_pressed.is_empty());
}
