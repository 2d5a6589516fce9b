use rust_sokoban::components::{BoxColor, Position, Renderable, RenderableKind};
use rust_sokoban::entities::{create_box, create_floor, create_player, create_wall};
use rust_sokoban::resources::Time;
use rust_sokoban::store::{Components, Store};
use rust_sokoban::systems::rendering_system::RenderingSystem;

fn here(x: u8, y: u8) -> Position {
    Position { x, y, z: 0 }
}

fn frames(n: usize) -> Renderable {
    Renderable::new_animated((0..n).map(|i| format!("frame{}", i)).collect())
}

#[test]
fn still_picture_shows_its_image_at_any_time() {
    let picture = Renderable::new_static(String::from("/images/wall.png"));
    for t in [0u128, 249, 250, 999, 1000, 123_456_789] {
        assert_eq!(RenderingSystem {}.get_image(&picture, t), "/images/wall.png");
    }
}

#[test]
fn animation_shows_four_frames_a_second() {
    let four = frames(4);
    for (t, frame) in [
        (0u128, "frame0"),
        (249, "frame0"),
        (250, "frame1"),
        (499, "frame1"),
        (500, "frame2"),
        (750, "frame3"),
        (999, "frame3"),
        (1000, "frame0"),
        (1250, "frame1"),
        (61_750, "frame3"),
    ] {
        assert_eq!(RenderingSystem {}.get_image(&four, t), frame);
    }
}

#[test]
fn frame_index_wraps_at_the_number_of_frames() {
    let two = frames(2);
    let three = frames(3);
    let five = frames(5);
    for (t, of_two, of_three, of_five) in [
        (0u128, "frame0", "frame0", "frame0"),
        (300, "frame1", "frame1", "frame1"),
        (600, "frame0", "frame2", "frame2"),
        (900, "frame1", "frame0", "frame3"),
        (1100, "frame0", "frame0", "frame0"),
    ] {
        assert_eq!(RenderingSystem {}.get_image(&two, t), of_two);
        assert_eq!(RenderingSystem {}.get_image(&three, t), of_three);
        assert_eq!(RenderingSystem {}.get_image(&five, t), of_five);
    }
}

#[test]
fn frame_is_the_same_whenever_it_is_asked_for() {
    let three = frames(3);
    let first = RenderingSystem {}.get_image(&three, 777);
    assert_eq!(first, "frame0");
    assert_eq!(RenderingSystem {}.get_image(&three, 777), first);
    assert_eq!(RenderingSystem {}.get_image(&three, 777 + 1000), first);
}

#[test]
fn lower_layers_are_drawn_first() {
    let mut store = Store::new();
    let wall = create_wall(&mut store, here(0, 0));
    let player = create_player(&mut store, here(1, 0));
    let floor_a = create_floor(&mut store, here(0, 0));
    let the_box = create_box(&mut store, here(2, 0), BoxColor::Blue);
    let floor_b = create_floor(&mut store, here(1, 0));
    let items = RenderingSystem {}.run(&store, &Time { delta_millis: 300 });
    let order: Vec<(u32, u8)> = items.iter().map(|i| (i.id, i.z)).collect();
    assert_eq!(
        order,
        vec![(floor_a, 5), (floor_b, 5), (wall, 10), (player, 10), (the_box, 10)]
    );
    let images: Vec<&str> = items.iter().map(|i| i.image.as_str()).collect();
    assert_eq!(
        images,
        vec![
            "/images/floor.png",
            "/images/floor.png",
            "/images/wall.png",
            "/images/player_2.png",
            "/images/box_blue_2.png",
        ]
    );
    let tiles: Vec<(u8, u8)> = items.iter().map(|i| (i.x, i.y)).collect();
    assert_eq!(tiles, vec![(0, 0), (1, 0), (0, 0), (1, 0), (2, 0)]);
}

#[test]
fn only_entities_with_position_and_images_are_drawn() {
    let mut store = Store::new();
    let mut unplaced = Components::none();
    unplaced.renderable = Some(Renderable::new_static(String::from("a.png")));
    store.create(unplaced);
    let mut blank = Components::none();
    blank.position = Some(Position { x: 1, y: 1, z: 3 });
    store.create(blank);
    let mut both = Components::none();
    both.position = Some(Position { x: 7, y: 8, z: 9 });
    both.renderable = Some(Renderable::new_static(String::from("b.png")));
    let id = store.create(both);
    let items = RenderingSystem {}.run(&store, &Time::default());
    assert_eq!(items.len(), 1);
    assert_eq!((items[0].id, items[0].x, items[0].y, items[0].z), (id, 7, 8, 9));
    assert_eq!(items[0].image, "b.png");
}

#[test]
fn empty_store_draws_nothing() {
    assert!(RenderingSystem {}.run(&Store::new(), &Time::default()).is_empty());
}

#[test]
fn renderable_kinds_and_paths() {
    let still = Renderable::new_static(String::from("one"));
    assert_eq!(still.kind(), RenderableKind::Static);
    assert_eq!(still.len(), 1);
    assert_eq!(still.path(0), "one");
    assert_eq!(still.path(5), "one");
    let moving = frames(3);
    assert_eq!(moving.kind(), RenderableKind::Animated);
    assert_eq!(moving.len(), 3);
    assert_eq!(moving.path(1), "frame1");
    assert_eq!(moving.path(3), "frame0");
    assert_eq!(moving.path(usize::MAX), format!("frame{}", usize::MAX % 3));
    let single = frames(1);
    assert_eq!(single.kind(), RenderableKind::Static);
}

#[test]
fn time_starts_at_zero() {
    assert_eq!(Time::default().delta_millis, 0);
}
