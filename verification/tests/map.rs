use rust_sokoban::components::{Box, BoxColor, BoxSpot, Position};
use rust_sokoban::entities::{
    create_box, create_box_spot, create_floor, create_player, create_wall,
};
use rust_sokoban::map::{load_map, parse_map, place_tiles, MapError, Tile};
use rust_sokoban::spatial::{positions_of, Kind};
use rust_sokoban::store::Store;

const LEVEL: &str = "
    N N W W W W W W
    W W W . . . . W
    W . . . BB . . W
    W . . RB . . . W 
    W . P . . . . W
    W . . . . RS . W
    W . . BS . . . W
    W . . . . . . W
    W W W W W W W W
    ";

#[test]
fn items_become_tiles() {
    assert_eq!(
        parse_map(". W P RB BB RS BS N"),
        Ok(vec![vec![
            Tile::Floor,
            Tile::Wall,
            Tile::Player,
            Tile::Box(BoxColor::Red),
            Tile::Box(BoxColor::Blue),
            Tile::BoxSpot(BoxColor::Red),
            Tile::BoxSpot(BoxColor::Blue),
            Tile::Empty,
        ]])
    );
}

#[test]
fn rows_and_the_whole_map_are_trimmed() {
    let tiles = parse_map("\n \t W .  \r\n   P N\t\n\n").unwrap();
    assert_eq!(tiles, vec![vec![Tile::Wall, Tile::Floor], vec![Tile::Player, Tile::Empty]]);
    assert_eq!(parse_map("\u{3000}W\u{a0}"), Ok(vec![vec![Tile::Wall]]));
}

#[test]
fn unknown_item_is_an_error() {
    assert_eq!(parse_map("W . X"), Err(MapError { row: 0, column: 2 }));
    assert_eq!(parse_map("W .\n. w W"), Err(MapError { row: 1, column: 1 }));
    assert_eq!(parse_map("RB BR"), Err(MapError { row: 0, column: 1 }));
    assert_eq!(parse_map("WW"), Err(MapError { row: 0, column: 0 }));
    assert_eq!(parse_map("Q .\nZ"), Err(MapError { row: 0, column: 0 }));
}

#[test]
fn empty_item_is_an_error() {
    assert_eq!(parse_map(""), Err(MapError { row: 0, column: 0 }));
    assert_eq!(parse_map("   \n  "), Err(MapError { row: 0, column: 0 }));
    assert_eq!(parse_map("W  W"), Err(MapError { row: 0, column: 1 }));
    assert_eq!(parse_map("W\n\nW"), Err(MapError { row: 1, column: 0 }));
    assert_eq!(parse_map("W\tW"), Err(MapError { row: 0, column: 0 }));
}

#[test]
fn failed_load_leaves_the_store_alone() {
    let mut store = Store::new();
    create_wall(&mut store, Position { x: 9, y: 9, z: 0 });
    assert_eq!(load_map(&mut store, "W . P\n. ? ."), Err(MapError { row: 1, column: 1 }));
    assert_eq!(store.len(), 1);
}

#[test]
fn level_is_loaded_row_by_row() {
    let mut store = Store::new();
    assert_eq!(load_map(&mut store, LEVEL), Ok(()));
    // 72 items: 2 empty, 35 floors alone, 30 walls and 5 others on a floor
    assert_eq!(store.len(), 35 + 2 * 35);
    // first row: N N W ..: floor 0 and wall 1 at (2, 0)
    assert_eq!(store.position(0), Some(Position { x: 2, y: 0, z: 5 }));
    assert_eq!(store.position(1), Some(Position { x: 2, y: 0, z: 10 }));
    assert!(store.is_wall(1) && store.is_immovable(1) && !store.is_movable(1));
    assert!(!store.is_wall(0) && !store.is_immovable(0));
    let boxes = positions_of(&store, Kind::Box);
    let blue = boxes.get(4, 2).unwrap();
    let red = boxes.get(3, 3).unwrap();
    assert_eq!(store.the_box(blue), Some(Box { color: BoxColor::Blue }));
    assert_eq!(store.the_box(red), Some(Box { color: BoxColor::Red }));
    assert!(store.is_movable(red) && !store.is_player(red));
    assert_eq!(boxes.get(2, 4), None);
    let spots = positions_of(&store, Kind::BoxSpot);
    assert_eq!(store.box_spot(spots.get(5, 5).unwrap()), Some(BoxSpot { color: BoxColor::Red }));
    assert_eq!(store.box_spot(spots.get(3, 6).unwrap()), Some(BoxSpot { color: BoxColor::Blue }));
    let movables = positions_of(&store, Kind::Movable);
    let player = movables.get(2, 4).unwrap();
    assert!(store.is_player(player));
    assert_eq!(store.position(player), Some(Position { x: 2, y: 4, z: 10 }));
    let walls = positions_of(&store, Kind::Immovable);
    assert!(walls.get(0, 8).is_some() && walls.get(7, 8).is_some());
    assert_eq!(walls.get(0, 0), None);
    assert_eq!(walls.get(1, 2), None);
}

#[test]
fn tiles_are_placed_in_order() {
    let mut store = Store::new();
    place_tiles(
        &mut store,
        &vec![vec![Tile::Empty, Tile::Box(BoxColor::Red)], vec![Tile::Floor]],
    );
    assert_eq!(store.len(), 3);
    assert_eq!(store.position(0), Some(Position { x: 1, y: 0, z: 5 }));
    assert_eq!(store.position(1), Some(Position { x: 1, y: 0, z: 10 }));
    assert_eq!(store.the_box(1), Some(Box { color: BoxColor::Red }));
    assert_eq!(store.position(2), Some(Position { x: 0, y: 1, z: 5 }));
}

#[test]
fn coordinates_count_modulo_256() {
    let mut row = vec![Tile::Empty; 257];
    row[256] = Tile::Floor;
    let mut store = Store::new();
    place_tiles(&mut store, &vec![row]);
    assert_eq!(store.len(), 1);
    assert_eq!(store.position(0), Some(Position { x: 0, y: 0, z: 5 }));
}

#[test]
fn constructors_set_layers_tags_and_images() {
    let mut store = Store::new();
    let at = Position { x: 3, y: 4, z: 77 };
    let wall = create_wall(&mut store, at);
    let floor = create_floor(&mut store, at);
    let red = create_box(&mut store, at, BoxColor::Red);
    let spot = create_box_spot(&mut store, at, BoxColor::Blue);
    let player = create_player(&mut store, at);
    assert_eq!((wall, floor, red, spot, player), (0, 1, 2, 3, 4));
    assert_eq!(store.len(), 5);
    for (id, z) in [(wall, 10), (floor, 5), (red, 10), (spot, 10), (player, 10)] {
        assert_eq!(store.position(id), Some(Position { x: 3, y: 4, z }));
    }
    let tags = |id: u32| {
        (store.is_wall(id), store.is_immovable(id), store.is_movable(id), store.is_player(id))
    };
    assert_eq!(tags(wall), (true, true, false, false));
    assert_eq!(tags(floor), (false, false, false, false));
    assert_eq!(tags(red), (false, false, true, false));
    assert_eq!(tags(spot), (false, false, false, false));
    assert_eq!(tags(player), (false, false, true, true));
    assert_eq!(store.the_box(red), Some(Box { color: BoxColor::Red }));
    assert_eq!(store.the_box(wall), None);
    assert_eq!(store.box_spot(spot), Some(BoxSpot { color: BoxColor::Blue }));
    assert_eq!(store.box_spot(red), None);
    let images = |id: u32| {
        let r = store.renderable(id).unwrap();
        (0..r.len()).map(|i| r.path(i)).collect::<Vec<String>>()
    };
    assert_eq!(images(wall), vec!["/images/wall.png"]);
    assert_eq!(images(floor), vec!["/images/floor.png"]);
    assert_eq!(images(red), vec!["/images/box_red_1.png", "/images/box_red_2.png"]);
    assert_eq!(images(spot), vec!["/images/box_spot_blue.png"]);
    assert_eq!(
        images(player),
        vec!["/images/player_1.png", "/images/player_2.png", "/images/player_3.png"]
    );
    assert_eq!(BoxColor::Red.to_string(), "red");
    assert_eq!(BoxColor::Blue.to_string(), "blue");
}

#[test]
fn store_answers_for_missing_entities() {
    let mut store = Store::new();
    assert_eq!(store.len(), 0);
    assert_eq!(store.position(0), None);
    assert!(store.renderable(0).is_none());
    assert!(!store.is_wall(0) && !store.is_player(0) && !store.is_movable(0));
    assert!(!store.set_position(0, Position { x: 1, y: 1, z: 1 }));
    let id = create_floor(&mut store, Position { x: 0, y: 0, z: 0 });
    assert!(store.set_position(id, Position { x: 6, y: 7, z: 8 }));
    assert_eq!(store.position(id), Some(Position { x: 6, y: 7, z: 8 }));
    assert_eq!(store.renderable(id).unwrap().path(0), "/images/floor.png");
}

#[test]
fn index_ignores_layers_and_keeps_the_last_entity() {
    let mut store = Store::new();
    let first = create_box(&mut store, Position { x: 200, y: 100, z: 0 }, BoxColor::Red);
    let second = create_box(&mut store, Position { x: 200, y: 100, z: 0 }, BoxColor::Blue);
    assert!(store.set_position(second, Position { x: 200, y: 100, z: 42 }));
    create_box(&mut store, Position { x: 100, y: 200, z: 0 }, BoxColor::Red);
    let index = positions_of(&store, Kind::Box);
    assert_eq!(index.get(200, 100), Some(second));
    assert!(first < second);
    assert_eq!(index.get(100, 200), Some(2));
    assert_eq!(index.get(200, 101), None);
    assert_eq!(positions_of(&store, Kind::BoxSpot).get(200, 100), None);
    assert_eq!(positions_of(&store, Kind::Immovable).get(200, 100), None);
    assert_eq!(positions_of(&store, Kind::Movable).get(200, 100), Some(second));
}
