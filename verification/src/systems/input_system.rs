use vstd::prelude::*;
use crate::components::Position;
use crate::constants::{MAP_HEIGHT, MAP_WIDTH};
use crate::events::{EntityId, EntityMoved, Event};
use crate::resources::{EventQueue, Gameplay, InputQueue, KeyCode};
use crate::spatial::{index_of, lemma_occupant_upto, occupant, positions_of, Kind, SpatialIndex};
use crate::store::{ComponentsView, Store};

verus! {

/// Whether a key asks for a move.
pub open spec fn is_direction(key: KeyCode) -> bool {
    key != KeyCode::Other
}

/// The tile `k` steps from `p` in the direction of `key`. It may lie off
/// the grid.
pub open spec fn tile(p: Position, key: KeyCode, k: int) -> (int, int) {
    match key {
        KeyCode::Up => (p.x as int, p.y - k),
        KeyCode::Down => (p.x as int, p.y + k),
        KeyCode::Left => (p.x - k, p.y as int),
        KeyCode::Right => (p.x + k, p.y as int),
        KeyCode::Other => (p.x as int, p.y as int),
    }
}

/// Whether a tile has coordinates that a position can hold.
pub open spec fn on_grid(t: (int, int)) -> bool {
    0 <= t.0 <= u8::MAX && 0 <= t.1 <= u8::MAX
}

/// How many tiles a push from `p` scans: those from the one next to `p` to
/// the edge of the map in the direction of `key`, both included. The far
/// edges are column `MAP_WIDTH` and row `MAP_HEIGHT`; a player on or beyond
/// an edge scans nothing.
pub open spec fn reach(p: Position, key: KeyCode) -> int {
    match key {
        KeyCode::Up => p.y as int,
        KeyCode::Left => p.x as int,
        KeyCode::Down => if p.y < MAP_HEIGHT {
            MAP_HEIGHT - p.y
        } else {
            0
        },
        KeyCode::Right => if p.x < MAP_WIDTH {
            MAP_WIDTH - p.x
        } else {
            0
        },
        KeyCode::Other => 0,
    }
}

/// The entity of `kind` that the spatial index gives for a tile.
pub open spec fn occupant_at(s: Seq<ComponentsView>, kind: Kind, t: (int, int)) -> Option<
    EntityId,
> {
    if on_grid(t) {
        occupant(s, kind, t.0 as u8, t.1 as u8)
    } else {
        None
    }
}

/// The scan of a push, taken up at the `k`-th tile from `p`: `Some(n)` when
/// the tiles up to the `n`-th hold movable entities and the scan ends on a
/// free tile or at the edge of the map, `None` when it ends on an immovable
/// entity. A tile that holds both counts as movable.
pub open spec fn chain_from(s: Seq<ComponentsView>, p: Position, key: KeyCode, k: int) -> Option<
    int,
>
    decreases reach(p, key) - k + 1,
{
    if k < 1 || k > reach(p, key) {
        Some(k - 1)
    } else if occupant_at(s, Kind::Movable, tile(p, key, k)).is_some() {
        chain_from(s, p, key, k + 1)
    } else if occupant_at(s, Kind::Immovable, tile(p, key, k)).is_some() {
        None
    } else {
        Some(k - 1)
    }
}

/// The length of the chain that a push from `p` would displace, or `None`
/// when an immovable entity blocks it.
pub open spec fn chain(s: Seq<ComponentsView>, p: Position, key: KeyCode) -> Option<int> {
    chain_from(s, p, key, 1)
}

/// How many steps from `p` in the direction of `key` the position `q` lies.
pub open spec fn steps_to(p: Position, q: Position, key: KeyCode) -> int {
    match key {
        KeyCode::Up => p.y - q.y,
        KeyCode::Down => q.y - p.y,
        KeyCode::Left => p.x - q.x,
        KeyCode::Right => q.x - p.x,
        KeyCode::Other => 0,
    }
}

/// Whether entity `id` is one of the first `n` links of the chain in front
/// of `p`: it is the movable entity indexed at its tile, and that tile is
/// among the first `n` in the direction of `key`.
pub open spec fn chain_member(
    s: Seq<ComponentsView>,
    p: Position,
    key: KeyCode,
    n: int,
    id: int,
) -> bool {
    &&& 0 <= id < s.len()
    &&& s[id].position.is_some()
    &&& {
        let q = s[id].position.unwrap();
        &&& 1 <= steps_to(p, q, key) <= n
        &&& tile(p, key, steps_to(p, q, key)) == (q.x as int, q.y as int)
        &&& occupant(s, Kind::Movable, q.x, q.y) == Some(id as EntityId)
    }
}

/// A position one tile further in the direction of `key`, on the same
/// layer.
pub open spec fn advanced(p: Position, key: KeyCode) -> Position {
    Position { x: tile(p, key, 1).0 as u8, y: tile(p, key, 1).1 as u8, z: p.z }
}

/// An entity moved one tile in the direction of `key`.
pub open spec fn shifted(e: ComponentsView, key: KeyCode) -> ComponentsView {
    match e.position {
        Some(p) => ComponentsView { position: Some(advanced(p, key)), ..e },
        None => e,
    }
}

/// The store after the player and the first `n` links of the chain in front
/// of `p` have each moved one tile.
pub open spec fn push_applied(
    s: Seq<ComponentsView>,
    player: int,
    p: Position,
    key: KeyCode,
    n: int,
) -> Seq<ComponentsView> {
    Seq::new(
        s.len(),
        |i: int|
            if i == player || chain_member(s, p, key, n, i) {
                shifted(s[i], key)
            } else {
                s[i]
            },
    )
}

/// Whether the push of entity `player` in the direction of `key` goes
/// through: the entity has a position, the key is a direction, no immovable
/// entity ends the chain, and the tile behind the last link exists.
pub open spec fn push_accepted(s: Seq<ComponentsView>, player: int, key: KeyCode) -> bool {
    &&& 0 <= player < s.len()
    &&& s[player].position.is_some()
    &&& is_direction(key)
    &&& {
        let p = s[player].position.unwrap();
        &&& chain(s, p, key).is_some()
        &&& on_grid(tile(p, key, chain(s, p, key).unwrap() + 1))
    }
}

/// The store after entity `player` has pushed in the direction of `key`:
/// all of the chain and the player one tile further, or nothing changed.
pub open spec fn push_result(s: Seq<ComponentsView>, player: int, key: KeyCode) -> Seq<
    ComponentsView,
> {
    if push_accepted(s, player, key) {
        let p = s[player].position.unwrap();
        push_applied(s, player, p, key, chain(s, p, key).unwrap())
    } else {
        s
    }
}

/// The entities that an accepted push displaces besides the player, nearest
/// first.
pub open spec fn pushed_ids(s: Seq<ComponentsView>, player: int, key: KeyCode) -> Seq<EntityId> {
    if push_accepted(s, player, key) {
        let p = s[player].position.unwrap();
        Seq::new(
            chain(s, p, key).unwrap() as nat,
            |i: int| occupant_at(s, Kind::Movable, tile(p, key, i + 1)).unwrap(),
        )
    } else {
        Seq::empty()
    }
}

fn reach_of(p: Position, key: KeyCode) -> (r: u8)
    ensures
        r == reach(p, key),
{
    match key {
        KeyCode::Up => p.y,
        KeyCode::Left => p.x,
        KeyCode::Down => if p.y < MAP_HEIGHT {
            MAP_HEIGHT - p.y
        } else {
            0
        },
        KeyCode::Right => if p.x < MAP_WIDTH {
            MAP_WIDTH - p.x
        } else {
            0
        },
        KeyCode::Other => 0,
    }
}

fn tile_of(p: Position, key: KeyCode, k: u8) -> (t: (u8, u8))
    requires
        1 <= k <= reach(p, key),
    ensures
        (t.0 as int, t.1 as int) == tile(p, key, k as int),
{
    match key {
        KeyCode::Up => (p.x, p.y - k),
        KeyCode::Down => (p.x, p.y + k),
        KeyCode::Left => (p.x - k, p.y),
        KeyCode::Right => (p.x + k, p.y),
        KeyCode::Other => (p.x, p.y),
    }
}

/// Whether the tile `k` steps from `p` has coordinates a position can hold.
fn tile_exists(p: Position, key: KeyCode, k: u16) -> (b: bool)
    requires
        k <= 256,
    ensures
        b == on_grid(tile(p, key, k as int)),
{
    match key {
        KeyCode::Up => k <= p.y as u16,
        KeyCode::Left => k <= p.x as u16,
        KeyCode::Down => p.y as u16 + k <= 255,
        KeyCode::Right => p.x as u16 + k <= 255,
        KeyCode::Other => true,
    }
}

fn step(q: Position, key: KeyCode) -> (r: Position)
    requires
        on_grid(tile(q, key, 1)),
    ensures
        r == advanced(q, key),
{
    match key {
        KeyCode::Up => Position { x: q.x, y: q.y - 1, z: q.z },
        KeyCode::Down => Position { x: q.x, y: q.y + 1, z: q.z },
        KeyCode::Left => Position { x: q.x - 1, y: q.y, z: q.z },
        KeyCode::Right => Position { x: q.x + 1, y: q.y, z: q.z },
        KeyCode::Other => q,
    }
}

/// Walks the tiles in front of `p` and collects the chain of movable
/// entities, nearest first; `None` when an immovable entity ends the walk.
fn scan_chain(
    store: &Store,
    movables: &SpatialIndex,
    immovables: &SpatialIndex,
    p: Position,
    key: KeyCode,
) -> (found: Option<Vec<EntityId>>)
    requires
        movables@ == index_of(store@, Kind::Movable),
        immovables@ == index_of(store@, Kind::Immovable),
    ensures
        found.is_some() == chain(store@, p, key).is_some(),
        found matches Some(v) ==> {
            &&& v@.len() == chain(store@, p, key).unwrap()
            &&& forall|i: int|
                0 <= i < v@.len() ==> occupant_at(store@, Kind::Movable, tile(p, key, i + 1))
                    == Some(#[trigger] v@[i])
        },
{
    let ghost s = store@;
    let r: u8 = reach_of(p, key);
    let mut to_move: Vec<EntityId> = Vec::new();
    let mut k: u8 = 0;
    let mut scanning: bool = true;
    while scanning && k < r
        invariant
            k <= r,
            r == reach(p, key),
            s == store@,
            movables@ == index_of(s, Kind::Movable),
            immovables@ == index_of(s, Kind::Immovable),
            scanning ==> chain(s, p, key) == chain_from(s, p, key, k + 1),
            !scanning ==> chain(s, p, key) == Some(k as int),
            to_move@.len() == k,
            forall|i: int|
                0 <= i < k ==> occupant_at(s, Kind::Movable, tile(p, key, i + 1)) == Some(
                    #[trigger] to_move@[i],
                ),
        decreases (r - k) + (if scanning { 1int } else { 0int }),
    {
        let t: (u8, u8) = tile_of(p, key, k + 1);
        match movables.get(t.0, t.1) {
            Some(id) => {
                to_move.push(id);
                k = k + 1;
            },
            None => {
                match immovables.get(t.0, t.1) {
                    Some(_) => {
                        return None;
                    },
                    None => {
                        scanning = false;
                    },
                }
            },
        }
    }
    Some(to_move)
}

/// Resolves one push: entity `player` tries to move one tile in the
/// direction of `key`, displacing the chain of movable entities in front of
/// it. The push goes through as a whole or not at all. Returns the displaced
/// entities, nearest first, when it went through.
pub fn resolve_push(store: &mut Store, player: EntityId, key: KeyCode) -> (pushed: Option<
    Vec<EntityId>,
>)
    ensures
        pushed.is_some() == push_accepted(old(store)@, player as int, key),
        final(store)@ == push_result(old(store)@, player as int, key),
        pushed matches Some(v) ==> v@ == pushed_ids(old(store)@, player as int, key),
{
    let ghost s = store@;
    let entities: u32 = store.len();
    if player >= entities {
        return None;
    }
    let p: Position = match store.position(player) {
        Some(p) => p,
        None => {
            return None;
        },
    };
    match key {
        KeyCode::Other => {
            return None;
        },
        _ => {},
    }
    let movables = positions_of(store, Kind::Movable);
    let immovables = positions_of(store, Kind::Immovable);
    let to_move: Vec<EntityId> = match scan_chain(store, &movables, &immovables, p, key) {
        Some(v) => v,
        None => {
            return None;
        },
    };
    let n: usize = to_move.len();
    proof {
        lemma_chain_bounds(s, p, key, 1);
    }
    if !tile_exists(p, key, (n + 1) as u16) {
        return None;
    }
    store.set_position(player, step(p, key));
    assert(store@ =~= push_applied(s, player as int, p, key, 0));
    let mut j: usize = 0;
    while j < n
        invariant
            j <= n,
            n == to_move@.len(),
            n == chain(s, p, key).unwrap(),
            chain(s, p, key).is_some(),
            n <= reach(p, key),
            s.len() == entities,
            0 <= player < s.len(),
            s[player as int].position == Some(p),
            is_direction(key),
            on_grid(tile(p, key, n + 1)),
            forall|i: int|
                0 <= i < n ==> occupant_at(s, Kind::Movable, tile(p, key, i + 1)) == Some(
                    #[trigger] to_move@[i],
                ),
            store@ == push_applied(s, player as int, p, key, j as int),
        decreases n - j,
    {
        let id: EntityId = to_move[j];
        proof {
            let t = tile(p, key, j + 1);
            assert(occupant_at(s, Kind::Movable, t) == Some(to_move@[j as int]));
            lemma_occupant_upto(s, Kind::Movable, t.0 as u8, t.1 as u8, s.len());
            assert(!chain_member(s, p, key, j as int, id as int));
        }
        if let Some(q) = store.position(id) {
            store.set_position(id, step(q, key));
        }
        proof {
            let after = push_applied(s, player as int, p, key, j + 1);
            assert forall|i: int| 0 <= i < s.len() implies store@[i] == after[i] by {
                if i == id {
                    assert(chain_member(s, p, key, j + 1, i));
                } else if chain_member(s, p, key, j + 1, i) {
                    assert(chain_member(s, p, key, j as int, i));
                }
            }
            assert(store@ =~= after);
        }
        j += 1;
    }
    proof {
        assert(to_move@ =~= pushed_ids(s, player as int, key));
    }
    Some(to_move)
}

/// A scan never runs past the edge of the map.
pub proof fn lemma_chain_bounds(s: Seq<ComponentsView>, p: Position, key: KeyCode, k: int)
    requires
        1 <= k <= reach(p, key) + 1,
    ensures
        chain_from(s, p, key, k) matches Some(n) ==> k - 1 <= n <= reach(p, key),
    decreases reach(p, key) - k + 1,
{
    if k <= reach(p, key) && occupant_at(s, Kind::Movable, tile(p, key, k)).is_some() {
        lemma_chain_bounds(s, p, key, k + 1);
    }
}

/// The events that report the displaced entities, in the same order.
pub open spec fn moved_events(ids: Seq<EntityId>) -> Seq<Event> {
    Seq::new(ids.len(), |i: int| Event::EntityMoved(EntityMoved { id: ids[i] }))
}

/// What a tick of the input system works on.
pub struct Tick {
    pub entities: Seq<ComponentsView>,
    pub keys: Seq<KeyCode>,
    pub moves: int,
    pub events: Seq<Event>,
}

/// Whether entity `id` takes a turn: it is tagged as the player and has a
/// position.
pub open spec fn takes_turn(s: Seq<ComponentsView>, id: int) -> bool {
    0 <= id < s.len() && s[id].player && s[id].position.is_some()
}

/// The turn of entity `id`. A player with a position consumes the most
/// recent key, if there is one; where its push goes through, the move is
/// counted once and every displaced entity is reported.
pub open spec fn turn(t: Tick, id: int) -> Tick {
    if !takes_turn(t.entities, id) || t.keys.len() == 0 {
        t
    } else if push_accepted(t.entities, id, t.keys.last()) {
        Tick {
            entities: push_result(t.entities, id, t.keys.last()),
            keys: t.keys.drop_last(),
            moves: t.moves + 1,
            events: t.events + moved_events(pushed_ids(t.entities, id, t.keys.last())),
        }
    } else {
        Tick { keys: t.keys.drop_last(), ..t }
    }
}

/// The turns of the first `n` entities, in order of their ids.
pub open spec fn turns(t: Tick, n: nat) -> Tick
    decreases n,
{
    if n == 0 {
        t
    } else {
        turn(turns(t, (n - 1) as nat), n - 1)
    }
}

/// Turns neither add nor remove entities, and count at most one move each.
pub proof fn lemma_turns_bounds(t: Tick, n: nat)
    ensures
        turns(t, n).entities.len() == t.entities.len(),
        t.moves <= turns(t, n).moves <= t.moves + n,
    decreases n,
{
    if n > 0 {
        lemma_turns_bounds(t, (n - 1) as nat);
    }
}

/// Turns the most recent key press into a move of the player.
#[derive(Debug, Clone, Copy, PartialEq, Eq, Structural)]
pub struct InputSystem {}

impl InputSystem {
    /// Runs one tick: every player entity, in order of ids, takes its turn.
    /// The move counter cannot count beyond `u32::MAX`.
    pub fn run(
        &mut self,
        input_queue: &mut InputQueue,
        store: &mut Store,
        gameplay: &mut Gameplay,
        event_queue: &mut EventQueue,
    )
        requires
            old(gameplay).moves_count + old(store)@.len() <= u32::MAX,
        ensures
            ({
                let start = Tick {
                    entities: old(store)@,
                    keys: old(input_queue).keys_pressed@,
                    moves: old(gameplay).moves_count as int,
                    events: old(event_queue).events@,
                };
                let end = turns(start, old(store)@.len());
                &&& final(store)@ == end.entities
                &&& final(input_queue).keys_pressed@ == end.keys
                &&& final(gameplay).moves_count == end.moves
                &&& final(gameplay).state == old(gameplay).state
                &&& final(event_queue).events@ == end.events
            }),
    {
        let ghost start = Tick {
            entities: store@,
            keys: input_queue.keys_pressed@,
            moves: gameplay.moves_count as int,
            events: event_queue.events@,
        };
        let n: u32 = store.len();
        let mut id: u32 = 0;
        while id < n
            invariant
                id <= n,
                n == start.entities.len(),
                start.moves + n <= u32::MAX,
                store@ == turns(start, id as nat).entities,
                input_queue.keys_pressed@ == turns(start, id as nat).keys,
                gameplay.moves_count == turns(start, id as nat).moves,
                gameplay.state == old(gameplay).state,
                event_queue.events@ == turns(start, id as nat).events,
            decreases n - id,
        {
            proof {
                lemma_turns_bounds(start, id as nat);
            }
            let ghost t = turns(start, id as nat);
            if store.is_player(id) && store.position(id).is_some() {
                match input_queue.pop() {
                    Some(key) => {
                        match resolve_push(store, id, key) {
                            Some(pushed) => {
                                gameplay.moves_count = gameplay.moves_count + 1;
                                report_moves(event_queue, &pushed);
                            },
                            None => {},
                        }
                    },
                    None => {},
                }
            }
            assert(store@ == turn(t, id as int).entities);
            assert(input_queue.keys_pressed@ == turn(t, id as int).keys);
            assert(event_queue.events@ == turn(t, id as int).events);
            id += 1;
        }
    }
}

/// Appends one `EntityMoved` event per displaced entity.
fn report_moves(event_queue: &mut EventQueue, pushed: &Vec<EntityId>)
    ensures
        final(event_queue).events@ == old(event_queue).events@ + moved_events(pushed@),
{
    let mut i: usize = 0;
    while i < pushed.len()
        invariant
            i <= pushed@.len(),
            event_queue.events@ == old(event_queue).events@ + moved_events(pushed@.take(i as int)),
        decreases pushed@.len() - i,
    {
        event_queue.events.push(Event::EntityMoved(EntityMoved { id: pushed[i] }));
        assert(moved_events(pushed@.take(i + 1)) =~= moved_events(pushed@.take(i as int)).push(
            Event::EntityMoved(EntityMoved { id: pushed@[i as int] }),
        ));
        i += 1;
    }
    assert(pushed@.take(pushed@.len() as int) =~= pushed@);
}

/// Whether the tiles from the `k`-th to the `n`-th in front of `p` each hold
/// a movable entity.
pub open spec fn movable_run(s: Seq<ComponentsView>, p: Position, key: KeyCode, k: int, n: int) -> bool {
    forall|j: int| k <= j <= n ==> (#[trigger] occupant_at(s, Kind::Movable, tile(p, key, j))).is_some()
}

/// Whether a tile holds neither a movable nor an immovable entity.
pub open spec fn free(s: Seq<ComponentsView>, t: (int, int)) -> bool {
    occupant_at(s, Kind::Movable, t).is_none() && occupant_at(s, Kind::Immovable, t).is_none()
}

/// Whether an immovable entity, and no movable one, stands on a tile.
pub open spec fn blocked(s: Seq<ComponentsView>, t: (int, int)) -> bool {
    occupant_at(s, Kind::Movable, t).is_none() && occupant_at(s, Kind::Immovable, t).is_some()
}

/// A scan passes over a run of movable entities.
pub proof fn lemma_chain_skips(s: Seq<ComponentsView>, p: Position, key: KeyCode, k: int, n: int)
    requires
        1 <= k <= n + 1,
        n <= reach(p, key),
        movable_run(s, p, key, k, n),
    ensures
        chain_from(s, p, key, k) == chain_from(s, p, key, n + 1),
    decreases n + 1 - k,
{
    if k <= n {
        assert(occupant_at(s, Kind::Movable, tile(p, key, k)).is_some());
        lemma_chain_skips(s, p, key, k + 1, n);
    }
}

/// Push atomicity. Where `n` movable entities in a row stand in front of
/// the player and an immovable entity stands behind them, within the map,
/// the push changes no entity, and the player's turn counts no move and
/// reports none; it only consumes the key.
pub proof fn law_blocked_push_moves_nothing(t: Tick, player: int, n: int)
    requires
        takes_turn(t.entities, player),
        t.keys.len() > 0,
        is_direction(t.keys.last()),
        0 <= n < reach(t.entities[player].position.unwrap(), t.keys.last()),
        movable_run(t.entities, t.entities[player].position.unwrap(), t.keys.last(), 1, n),
        blocked(t.entities, tile(t.entities[player].position.unwrap(), t.keys.last(), n + 1)),
    ensures
        !push_accepted(t.entities, player, t.keys.last()),
        push_result(t.entities, player, t.keys.last()) == t.entities,
        turn(t, player).entities == t.entities,
        turn(t, player).moves == t.moves,
        turn(t, player).events == t.events,
{
    let p = t.entities[player].position.unwrap();
    lemma_chain_skips(t.entities, p, t.keys.last(), 1, n);
}

/// Push success. Where `n` movable entities in a row stand in front of the
/// player and the tile behind them is free, or lies past the scanned range
/// but on the grid, the player and each of the `n` entities end one tile
/// further in the direction of the push, every other entity stays as it
/// was, no entity changes in anything but its tile, and the player's turn
/// counts exactly one move.
pub proof fn law_clear_push_moves_chain(t: Tick, player: int, n: int)
    requires
        t.entities.len() <= u32::MAX,
        takes_turn(t.entities, player),
        t.keys.len() > 0,
        is_direction(t.keys.last()),
        0 <= n <= reach(t.entities[player].position.unwrap(), t.keys.last()),
        movable_run(t.entities, t.entities[player].position.unwrap(), t.keys.last(), 1, n),
        on_grid(tile(t.entities[player].position.unwrap(), t.keys.last(), n + 1)),
        n < reach(t.entities[player].position.unwrap(), t.keys.last()) ==> free(
            t.entities,
            tile(t.entities[player].position.unwrap(), t.keys.last(), n + 1),
        ),
    ensures
        ({
            let s = t.entities;
            let key = t.keys.last();
            let p = s[player].position.unwrap();
            let after = turn(t, player);
            &&& push_accepted(s, player, key)
            &&& after.entities == push_result(s, player, key)
            &&& after.moves == t.moves + 1
            &&& after.entities.len() == s.len()
            &&& after.entities[player].position == Some(advanced(p, key))
            &&& forall|k: int|
                1 <= k <= n ==> {
                    let id = (#[trigger] occupant_at(s, Kind::Movable, tile(p, key, k))).unwrap();
                    &&& 0 <= id < s.len()
                    &&& s[id as int].position.unwrap().x == tile(p, key, k).0
                    &&& s[id as int].position.unwrap().y == tile(p, key, k).1
                    &&& after.entities[id as int].position.unwrap().x == tile(p, key, k + 1).0
                    &&& after.entities[id as int].position.unwrap().y == tile(p, key, k + 1).1
                }
            &&& forall|i: int|
                0 <= i < s.len() && i != player && !chain_member(s, p, key, n, i)
                    ==> #[trigger] after.entities[i] == s[i]
            &&& forall|i: int|
                0 <= i < s.len() ==> #[trigger] after.entities[i] == (ComponentsView {
                    position: after.entities[i].position,
                    ..s[i]
                })
            &&& forall|i: int|
                0 <= i < s.len() && s[i].position.is_some() ==> (
                #[trigger] after.entities[i].position.unwrap()).z == s[i].position.unwrap().z
        }),
{
    let s = t.entities;
    let key = t.keys.last();
    let p = s[player].position.unwrap();
    lemma_chain_skips(s, p, key, 1, n);
    assert(chain(s, p, key) == Some(n));
    let after = turn(t, player);
    assert forall|k: int| 1 <= k <= n implies {
        let id = (#[trigger] occupant_at(s, Kind::Movable, tile(p, key, k))).unwrap();
        &&& 0 <= id < s.len()
        &&& s[id as int].position.unwrap().x == tile(p, key, k).0
        &&& s[id as int].position.unwrap().y == tile(p, key, k).1
        &&& after.entities[id as int].position.unwrap().x == tile(p, key, k + 1).0
        &&& after.entities[id as int].position.unwrap().y == tile(p, key, k + 1).1
    } by {
        let tk = tile(p, key, k);
        assert(occupant_at(s, Kind::Movable, tk).is_some());
        lemma_occupant_upto(s, Kind::Movable, tk.0 as u8, tk.1 as u8, s.len());
        let id = occupant_at(s, Kind::Movable, tk).unwrap();
        assert(chain_member(s, p, key, n, id as int));
    }
}

/// Nothing to push. Where the tile in front of the player is free, or the
/// player stands at the edge of the scanned range with a tile of the grid
/// in front, the push moves the player alone.
pub proof fn law_free_tile_moves_player_alone(s: Seq<ComponentsView>, player: int, key: KeyCode)
    requires
        s.len() <= u32::MAX,
        0 <= player < s.len(),
        s[player].position.is_some(),
        is_direction(key),
        on_grid(tile(s[player].position.unwrap(), key, 1)),
        0 < reach(s[player].position.unwrap(), key) ==> free(
            s,
            tile(s[player].position.unwrap(), key, 1),
        ),
    ensures
        push_accepted(s, player, key),
        pushed_ids(s, player, key) == Seq::<EntityId>::empty(),
        push_result(s, player, key) == s.update(player, shifted(s[player], key)),
{
    let p = s[player].position.unwrap();
    assert(chain(s, p, key) == Some(0int));
    assert(push_result(s, player, key) =~= s.update(player, shifted(s[player], key)));
    assert(pushed_ids(s, player, key) =~= Seq::<EntityId>::empty());
}

} // verus!
