use vstd::prelude::*;
use crate::components::{Box, BoxSpot, Position, Renderable};
use crate::events::EntityId;

verus! {

/// The components that one entity is created with. An absent component is
/// `None`; a tag is present where its flag is set.
#[derive(Debug)]
pub struct Components {
    pub position: Option<Position>,
    pub renderable: Option<Renderable>,
    pub wall: bool,
    pub player: bool,
    pub the_box: Option<Box>,
    pub box_spot: Option<BoxSpot>,
    pub movable: bool,
    pub immovable: bool,
}

/// What the store holds of one entity.
pub struct ComponentsView {
    pub position: Option<Position>,
    pub renderable: Option<Seq<Seq<char>>>,
    pub wall: bool,
    pub player: bool,
    pub the_box: Option<Box>,
    pub box_spot: Option<BoxSpot>,
    pub movable: bool,
    pub immovable: bool,
}

/// The images of an optional renderable.
pub open spec fn renderable_view(r: Option<Renderable>) -> Option<Seq<Seq<char>>> {
    match r {
        Some(r) => Some(r@),
        None => None,
    }
}

impl View for Components {
    type V = ComponentsView;

    open spec fn view(&self) -> ComponentsView {
        ComponentsView {
            position: self.position,
            renderable: renderable_view(self.renderable),
            wall: self.wall,
            player: self.player,
            the_box: self.the_box,
            box_spot: self.box_spot,
            movable: self.movable,
            immovable: self.immovable,
        }
    }
}

impl Components {
    /// An entity without any component.
    pub fn none() -> (c: Self)
        ensures
            c@ == (ComponentsView {
                position: None,
                renderable: None,
                wall: false,
                player: false,
                the_box: None,
                box_spot: None,
                movable: false,
                immovable: false,
            }),
    {
        Components {
            position: None,
            renderable: None,
            wall: false,
            player: false,
            the_box: None,
            box_spot: None,
            movable: false,
            immovable: false,
        }
    }
}

/// One column per component kind, each indexed by entity id.
struct Columns {
    positions: Vec<Option<Position>>,
    renderables: Vec<Option<Renderable>>,
    walls: Vec<bool>,
    players: Vec<bool>,
    boxes: Vec<Option<Box>>,
    box_spots: Vec<Option<BoxSpot>>,
    movables: Vec<bool>,
    immovables: Vec<bool>,
}

impl Columns {
    spec fn aligned(&self) -> bool {
        let n = self.positions@.len();
        &&& n <= u32::MAX
        &&& self.renderables@.len() == n
        &&& self.walls@.len() == n
        &&& self.players@.len() == n
        &&& self.boxes@.len() == n
        &&& self.box_spots@.len() == n
        &&& self.movables@.len() == n
        &&& self.immovables@.len() == n
    }

    spec fn row(&self, i: int) -> ComponentsView {
        ComponentsView {
            position: self.positions@[i],
            renderable: renderable_view(self.renderables@[i]),
            wall: self.walls@[i],
            player: self.players@[i],
            the_box: self.boxes@[i],
            box_spot: self.box_spots@[i],
            movable: self.movables@[i],
            immovable: self.immovables@[i],
        }
    }

    spec fn rows(&self) -> Seq<ComponentsView> {
        Seq::new(self.positions@.len(), |i: int| self.row(i))
    }

    fn empty() -> (c: Self)
        ensures
            c.aligned(),
            c.rows() == Seq::<ComponentsView>::empty(),
    {
        let c = Columns {
            positions: Vec::new(),
            renderables: Vec::new(),
            walls: Vec::new(),
            players: Vec::new(),
            boxes: Vec::new(),
            box_spots: Vec::new(),
            movables: Vec::new(),
            immovables: Vec::new(),
        };
        assert(c.rows() =~= Seq::<ComponentsView>::empty());
        c
    }
}

/// The entity store: for every entity created so far, the components it
/// carries. Entities are numbered from zero in the order of their creation
/// and are never removed.
pub struct Store {
    columns: Columns,
}

impl View for Store {
    type V = Seq<ComponentsView>;

    /// The entities in order of creation; an entity's id is its index.
    closed spec fn view(&self) -> Seq<ComponentsView> {
        self.columns.rows()
    }
}

impl Store {
    #[verifier::type_invariant]
    spec fn aligned(&self) -> bool {
        self.columns.aligned()
    }

    /// Whether `id` names an entity of the store.
    pub open spec fn contains(&self, id: int) -> bool {
        0 <= id < self@.len()
    }

    /// The position of entity `id`, if it exists and has one.
    pub open spec fn position_of(&self, id: int) -> Option<Position> {
        if self.contains(id) {
            self@[id].position
        } else {
            None
        }
    }

    /// The box component of entity `id`, if it exists and has one.
    pub open spec fn box_of(&self, id: int) -> Option<Box> {
        if self.contains(id) {
            self@[id].the_box
        } else {
            None
        }
    }

    /// The spot component of entity `id`, if it exists and has one.
    pub open spec fn box_spot_of(&self, id: int) -> Option<BoxSpot> {
        if self.contains(id) {
            self@[id].box_spot
        } else {
            None
        }
    }

    /// The images of entity `id`, if it exists and has any.
    pub open spec fn renderable_of(&self, id: int) -> Option<Seq<Seq<char>>> {
        if self.contains(id) {
            self@[id].renderable
        } else {
            None
        }
    }

    /// Whether entity `id` exists and is tagged as the player.
    pub open spec fn player_at(&self, id: int) -> bool {
        self.contains(id) && self@[id].player
    }

    /// Whether entity `id` exists and is tagged as a wall.
    pub open spec fn wall_at(&self, id: int) -> bool {
        self.contains(id) && self@[id].wall
    }

    /// Whether entity `id` exists and is tagged movable.
    pub open spec fn movable_at(&self, id: int) -> bool {
        self.contains(id) && self@[id].movable
    }

    /// Whether entity `id` exists and is tagged immovable.
    pub open spec fn immovable_at(&self, id: int) -> bool {
        self.contains(id) && self@[id].immovable
    }

    /// A store without entities.
    pub fn new() -> (s: Self)
        ensures
            s@ == Seq::<ComponentsView>::empty(),
    {
        Store { columns: Columns::empty() }
    }

    /// Number of entities.
    pub fn len(&self) -> (n: u32)
        ensures
            n == self@.len(),
    {
        proof {
            use_type_invariant(self);
        }
        self.columns.positions.len() as u32
    }

    /// Adds an entity with the given components and returns its id. A full
    /// store (one that holds `u32::MAX` entities) takes no further entity.
    pub fn create(&mut self, components: Components) -> (id: EntityId)
        requires
            old(self)@.len() < u32::MAX,
        ensures
            id == old(self)@.len(),
            final(self)@ == old(self)@.push(components@),
    {
        proof {
            use_type_invariant(&*self);
        }
        let mut columns = Columns::empty();
        std::mem::swap(&mut columns, &mut self.columns);
        let id: u32 = columns.positions.len() as u32;
        let ghost before = columns.rows();
        columns.positions.push(components.position);
        columns.renderables.push(components.renderable);
        columns.walls.push(components.wall);
        columns.players.push(components.player);
        columns.boxes.push(components.the_box);
        columns.box_spots.push(components.box_spot);
        columns.movables.push(components.movable);
        columns.immovables.push(components.immovable);
        assert(columns.rows() =~= before.push(components@));
        self.columns = columns;
        id
    }

    pub fn position(&self, id: EntityId) -> (p: Option<Position>)
        ensures
            p == self.position_of(id as int),
    {
        proof {
            use_type_invariant(self);
        }
        if (id as usize) < self.columns.positions.len() {
            self.columns.positions[id as usize]
        } else {
            None
        }
    }

    /// Moves entity `id` to `position` if it exists and has a position
    /// already, and says whether it did. Nothing else changes.
    pub fn set_position(&mut self, id: EntityId, position: Position) -> (done: bool)
        ensures
            done == old(self).position_of(id as int).is_some(),
            done ==> final(self)@ == old(self)@.update(
                id as int,
                (ComponentsView { position: Some(position), ..old(self)@[id as int] }),
            ),
            !done ==> final(self)@ == old(self)@,
    {
        proof {
            use_type_invariant(&*self);
        }
        if (id as usize) < self.columns.positions.len() {
            if self.columns.positions[id as usize].is_some() {
                let mut columns = Columns::empty();
                std::mem::swap(&mut columns, &mut self.columns);
                let ghost before = columns.rows();
                columns.positions.set(id as usize, Some(position));
                assert(columns.rows() =~= before.update(
                    id as int,
                    (ComponentsView { position: Some(position), ..before[id as int] }),
                ));
                self.columns = columns;
                return true;
            }
        }
        false
    }

    pub fn renderable(&self, id: EntityId) -> (r: Option<&Renderable>)
        ensures
            renderable_view_ref(r) == self.renderable_of(id as int),
    {
        proof {
            use_type_invariant(self);
        }
        if (id as usize) < self.columns.renderables.len() {
            self.columns.renderables[id as usize].as_ref()
        } else {
            None
        }
    }

    pub fn the_box(&self, id: EntityId) -> (b: Option<Box>)
        ensures
            b == self.box_of(id as int),
    {
        proof {
            use_type_invariant(self);
        }
        if (id as usize) < self.columns.boxes.len() {
            self.columns.boxes[id as usize]
        } else {
            None
        }
    }

    pub fn box_spot(&self, id: EntityId) -> (s: Option<BoxSpot>)
        ensures
            s == self.box_spot_of(id as int),
    {
        proof {
            use_type_invariant(self);
        }
        if (id as usize) < self.columns.box_spots.len() {
            self.columns.box_spots[id as usize]
        } else {
            None
        }
    }

    pub fn is_player(&self, id: EntityId) -> (b: bool)
        ensures
            b == self.player_at(id as int),
    {
        proof {
            use_type_invariant(self);
        }
        (id as usize) < self.columns.players.len() && self.columns.players[id as usize]
    }

    pub fn is_wall(&self, id: EntityId) -> (b: bool)
        ensures
            b == self.wall_at(id as int),
    {
        proof {
            use_type_invariant(self);
        }
        (id as usize) < self.columns.walls.len() && self.columns.walls[id as usize]
    }

    pub fn is_movable(&self, id: EntityId) -> (b: bool)
        ensures
            b == self.movable_at(id as int),
    {
        proof {
            use_type_invariant(self);
        }
        (id as usize) < self.columns.movables.len() && self.columns.movables[id as usize]
    }

    pub fn is_immovable(&self, id: EntityId) -> (b: bool)
        ensures
            b == self.immovable_at(id as int),
    {
        proof {
            use_type_invariant(self);
        }
        (id as usize) < self.columns.immovables.len() && self.columns.immovables[id as usize]
    }
}

/// The images of an optional borrowed renderable.
pub open spec fn renderable_view_ref(r: Option<&Renderable>) -> Option<Seq<Seq<char>>> {
    match r {
        Some(r) => Some(r@),
        None => None,
    }
}

} // verus!
