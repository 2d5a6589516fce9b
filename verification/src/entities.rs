use vstd::prelude::*;
use vstd::string::StringExecFns;
use crate::components::{Box, BoxColor, BoxSpot, Position, Renderable};
use crate::events::EntityId;
use crate::store::{Components, ComponentsView, Store};

verus! {

/// The draw layer of floors.
pub const FLOOR_LAYER: u8 = 5;

/// The draw layer of everything that stands on a floor.
pub const OBJECT_LAYER: u8 = 10;

/// A position moved to the draw layer `z`.
pub open spec fn on_layer(position: Position, z: u8) -> Position {
    Position { x: position.x, y: position.y, z }
}

/// An entity with a position and no other component.
pub open spec fn placed(position: Position) -> ComponentsView {
    ComponentsView {
        position: Some(position),
        renderable: None,
        wall: false,
        player: false,
        the_box: None,
        box_spot: None,
        movable: false,
        immovable: false,
    }
}

/// What a wall at `position` consists of.
pub open spec fn wall(position: Position) -> ComponentsView {
    ComponentsView {
        renderable: Some(seq!["/images/wall.png"@]),
        wall: true,
        immovable: true,
        ..placed(on_layer(position, OBJECT_LAYER))
    }
}

/// What a floor tile at `position` consists of.
pub open spec fn floor(position: Position) -> ComponentsView {
    ComponentsView {
        renderable: Some(seq!["/images/floor.png"@]),
        ..placed(on_layer(position, FLOOR_LAYER))
    }
}

/// The image of a box of `color` in animation frame `frame`.
pub open spec fn box_image(color: BoxColor, frame: Seq<char>) -> Seq<char> {
    "/images/box_"@ + color.name_spec() + "_"@ + frame + ".png"@
}

/// What a box of `color` at `position` consists of.
pub open spec fn colored_box(position: Position, color: BoxColor) -> ComponentsView {
    ComponentsView {
        renderable: Some(seq![box_image(color, "1"@), box_image(color, "2"@)]),
        the_box: Some(Box { color }),
        movable: true,
        ..placed(on_layer(position, OBJECT_LAYER))
    }
}

/// The image of a spot of `color`.
pub open spec fn box_spot_image(color: BoxColor) -> Seq<char> {
    "/images/box_spot_"@ + color.name_spec() + ".png"@
}

/// What a spot of `color` at `position` consists of.
pub open spec fn colored_spot(position: Position, color: BoxColor) -> ComponentsView {
    ComponentsView {
        renderable: Some(seq![box_spot_image(color)]),
        box_spot: Some(BoxSpot { color }),
        ..placed(on_layer(position, OBJECT_LAYER))
    }
}

/// What the player at `position` consists of.
pub open spec fn player(position: Position) -> ComponentsView {
    ComponentsView {
        renderable: Some(
            seq!["/images/player_1.png"@, "/images/player_2.png"@, "/images/player_3.png"@],
        ),
        player: true,
        movable: true,
        ..placed(on_layer(position, OBJECT_LAYER))
    }
}

fn placed_on(position: Position, z: u8) -> (c: Components)
    ensures
        c@ == placed(on_layer(position, z)),
{
    let mut c = Components::none();
    c.position = Some(Position { x: position.x, y: position.y, z });
    c
}

fn image_of_box(color: &BoxColor, frame: &str) -> (image: String)
    ensures
        image@ == box_image(*color, frame@),
{
    let name = color.to_string();
    String::from_str("/images/box_").concat(name.as_str()).concat("_").concat(frame).concat(
        ".png",
    )
}

pub fn create_wall(world: &mut Store, position: Position) -> (id: EntityId)
    requires
        old(world)@.len() < u32::MAX,
    ensures
        id == old(world)@.len(),
        final(world)@ == old(world)@.push(wall(position)),
{
    let mut c = placed_on(position, OBJECT_LAYER);
    c.renderable = Some(Renderable::new_static(String::from_str("/images/wall.png")));
    c.wall = true;
    c.immovable = true;
    world.create(c)
}

pub fn create_floor(world: &mut Store, position: Position) -> (id: EntityId)
    requires
        old(world)@.len() < u32::MAX,
    ensures
        id == old(world)@.len(),
        final(world)@ == old(world)@.push(floor(position)),
{
    let mut c = placed_on(position, FLOOR_LAYER);
    c.renderable = Some(Renderable::new_static(String::from_str("/images/floor.png")));
    world.create(c)
}

pub fn create_box(world: &mut Store, position: Position, color: BoxColor) -> (id: EntityId)
    requires
        old(world)@.len() < u32::MAX,
    ensures
        id == old(world)@.len(),
        final(world)@ == old(world)@.push(colored_box(position, color)),
{
    let mut c = placed_on(position, OBJECT_LAYER);
    let mut paths: Vec<String> = Vec::new();
    paths.push(image_of_box(&color, "1"));
    paths.push(image_of_box(&color, "2"));
    let renderable = Renderable::new_animated(paths);
    assert(renderable@ =~= seq![box_image(color, "1"@), box_image(color, "2"@)]);
    c.renderable = Some(renderable);
    c.the_box = Some(Box { color });
    c.movable = true;
    world.create(c)
}

pub fn create_box_spot(world: &mut Store, position: Position, color: BoxColor) -> (id: EntityId)
    requires
        old(world)@.len() < u32::MAX,
    ensures
        id == old(world)@.len(),
        final(world)@ == old(world)@.push(colored_spot(position, color)),
{
    let mut c = placed_on(position, OBJECT_LAYER);
    let name = color.to_string();
    let image = String::from_str("/images/box_spot_").concat(name.as_str()).concat(".png");
    c.renderable = Some(Renderable::new_static(image));
    c.box_spot = Some(BoxSpot { color });
    world.create(c)
}

pub fn create_player(world: &mut Store, position: Position) -> (id: EntityId)
    requires
        old(world)@.len() < u32::MAX,
    ensures
        id == old(world)@.len(),
        final(world)@ == old(world)@.push(player(position)),
{
    let mut c = placed_on(position, OBJECT_LAYER);
    let mut paths: Vec<String> = Vec::new();
    paths.push(String::from_str("/images/player_1.png"));
    paths.push(String::from_str("/images/player_2.png"));
    paths.push(String::from_str("/images/player_3.png"));
    let renderable = Renderable::new_animated(paths);
    assert(renderable@ =~= seq![
        "/images/player_1.png"@,
        "/images/player_2.png"@,
        "/images/player_3.png"@,
    ]);
    c.renderable = Some(renderable);
    c.player = true;
    c.movable = true;
    world.create(c)
}

} // verus!
