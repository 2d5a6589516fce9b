use vstd::prelude::*;
use std::collections::HashMap;
use crate::events::EntityId;
use crate::store::{ComponentsView, Store};

verus! {

broadcast use vstd::std_specs::hash::group_hash_axioms;

/// The component kinds by which tiles are indexed.
#[derive(Debug, Clone, Copy, PartialEq, Eq, Structural)]
pub enum Kind {
    Movable,
    Immovable,
    Box,
    BoxSpot,
}

/// Whether an entity carries the component `kind`.
pub open spec fn carries(e: ComponentsView, kind: Kind) -> bool {
    match kind {
        Kind::Movable => e.movable,
        Kind::Immovable => e.immovable,
        Kind::Box => e.the_box.is_some(),
        Kind::BoxSpot => e.box_spot.is_some(),
    }
}

/// Whether an entity carries `kind` and stands on tile `(x, y)`; the draw
/// layer plays no part.
pub open spec fn stands_on(e: ComponentsView, kind: Kind, x: u8, y: u8) -> bool {
    carries(e, kind) && e.position.is_some() && e.position.unwrap().x == x
        && e.position.unwrap().y == y
}

/// Among the first `n` entities, the last one that carries `kind` on tile
/// `(x, y)`.
pub open spec fn occupant_upto(s: Seq<ComponentsView>, kind: Kind, x: u8, y: u8, n: nat) -> Option<
    EntityId,
>
    decreases n,
{
    if n == 0 {
        None
    } else if stands_on(s[n - 1], kind, x, y) {
        Some((n - 1) as EntityId)
    } else {
        occupant_upto(s, kind, x, y, (n - 1) as nat)
    }
}

/// The entity that the index gives for tile `(x, y)`: of those that carry
/// `kind` there, the one created last.
pub open spec fn occupant(s: Seq<ComponentsView>, kind: Kind, x: u8, y: u8) -> Option<EntityId> {
    occupant_upto(s, kind, x, y, s.len())
}

/// The index as a map from tiles to entities.
pub open spec fn index_of(s: Seq<ComponentsView>, kind: Kind) -> Map<(u8, u8), EntityId> {
    Map::new(
        |t: (u8, u8)| occupant(s, kind, t.0, t.1).is_some(),
        |t: (u8, u8)| occupant(s, kind, t.0, t.1).unwrap(),
    )
}

/// An occupant is an entity of the store that carries the kind on that
/// tile, and no later entity does.
pub proof fn lemma_occupant_upto(s: Seq<ComponentsView>, kind: Kind, x: u8, y: u8, n: nat)
    requires
        n <= s.len(),
        s.len() <= u32::MAX,
    ensures
        match occupant_upto(s, kind, x, y, n) {
            Some(id) => id < n && stands_on(s[id as int], kind, x, y) && forall|j: int|
                id < j < n ==> !stands_on(#[trigger] s[j], kind, x, y),
            None => forall|j: int| 0 <= j < n ==> !stands_on(#[trigger] s[j], kind, x, y),
        },
    decreases n,
{
    if n > 0 && !stands_on(s[n - 1], kind, x, y) {
        lemma_occupant_upto(s, kind, x, y, (n - 1) as nat);
    }
}

/// The hash key of a tile.
pub open spec fn tile_key(x: u8, y: u8) -> u16 {
    (x as int * 256 + y as int) as u16
}

spec fn lookup(m: Map<u16, EntityId>, x: u8, y: u8) -> Option<EntityId> {
    if m.contains_key(tile_key(x, y)) {
        Some(m[tile_key(x, y)])
    } else {
        None
    }
}

fn key_of(x: u8, y: u8) -> (k: u16)
    ensures
        k == tile_key(x, y),
{
    (x as u16) * 256 + (y as u16)
}

/// For one component kind, which entity stands on which tile.
pub struct SpatialIndex {
    tiles: HashMap<u16, EntityId>,
}

impl View for SpatialIndex {
    type V = Map<(u8, u8), EntityId>;

    closed spec fn view(&self) -> Map<(u8, u8), EntityId> {
        Map::new(
            |t: (u8, u8)| lookup(self.tiles@, t.0, t.1).is_some(),
            |t: (u8, u8)| lookup(self.tiles@, t.0, t.1).unwrap(),
        )
    }
}

impl SpatialIndex {
    /// The entity indexed at tile `(x, y)`, if any.
    pub fn get(&self, x: u8, y: u8) -> (id: Option<EntityId>)
        ensures
            id == (if self@.contains_key((x, y)) {
                Some(self@[(x, y)])
            } else {
                None::<EntityId>
            }),
    {
        let k: u16 = key_of(x, y);
        match self.tiles.get(&k) {
            Some(id) => Some(*id),
            None => None,
        }
    }
}

fn has_kind(store: &Store, kind: Kind, id: EntityId) -> (b: bool)
    requires
        store.contains(id as int),
    ensures
        b == carries(store@[id as int], kind),
{
    match kind {
        Kind::Movable => store.is_movable(id),
        Kind::Immovable => store.is_immovable(id),
        Kind::Box => store.the_box(id).is_some(),
        Kind::BoxSpot => store.box_spot(id).is_some(),
    }
}

/// Scans the store once and indexes, by tile, the entities that carry
/// `kind` and have a position. Where several share a tile, the one created
/// last is indexed.
pub fn positions_of(store: &Store, kind: Kind) -> (index: SpatialIndex)
    ensures
        index@ == index_of(store@, kind),
{
    let mut tiles: HashMap<u16, EntityId> = HashMap::new();
    let n: u32 = store.len();
    let mut id: u32 = 0;
    while id < n
        invariant
            id <= n,
            n == store@.len(),
            forall|x: u8, y: u8| #[trigger]
                occupant_upto(store@, kind, x, y, id as nat) == lookup(tiles@, x, y),
        decreases n - id,
    {
        let ghost before = tiles@;
        let mut at: Option<(u8, u8)> = None;
        if has_kind(store, kind, id) {
            match store.position(id) {
                Some(p) => {
                    tiles.insert(key_of(p.x, p.y), id);
                    at = Some((p.x, p.y));
                },
                None => {},
            }
        }
        assert forall|x: u8, y: u8| #[trigger]
            occupant_upto(store@, kind, x, y, (id + 1) as nat) == lookup(tiles@, x, y) by {
            assert(occupant_upto(store@, kind, x, y, id as nat) == lookup(before, x, y));
            match at {
                Some(t) => {
                    assert(tile_key(x, y) == tile_key(t.0, t.1) <==> (x == t.0 && y == t.1));
                },
                None => {
                    assert(!stands_on(store@[id as int], kind, x, y));
                },
            }
        }
        id += 1;
    }
    let index = SpatialIndex { tiles };
    assert(index@ =~= index_of(store@, kind));
    index
}

} // verus!
