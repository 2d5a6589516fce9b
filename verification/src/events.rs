use vstd::prelude::*;

verus! {

/// Identifier of an entity: its index in the store.
pub type EntityId = u32;

/// A pushed entity has changed tile.
#[derive(Debug, Clone, Copy, PartialEq, Eq, Structural)]
pub struct EntityMoved {
    pub id: EntityId,
}

/// A box has come to rest on a spot, of its own colour or not.
#[derive(Debug, Clone, Copy, PartialEq, Eq, Structural)]
pub struct BoxPlacedOnSpot {
    pub is_correct_spot: bool,
}

/// What happened during a tick; no event outlives the tick that raised it.
#[derive(Debug, Clone, Copy, PartialEq, Eq, Structural)]
pub enum Event {
    PlayerHitObstacle,
    EntityMoved(EntityMoved),
    BoxPlacedOnSpot(BoxPlacedOnSpot),
}

} // verus!
