use vstd::prelude::*;
use crate::events::{BoxPlacedOnSpot, EntityId, EntityMoved, Event};
use crate::resources::EventQueue;
use crate::spatial::{lemma_occupant_upto, occupant, positions_of, Kind};
use crate::store::{ComponentsView, Store};

verus! {

/// A cue for the audio player.
#[derive(Debug, Clone, Copy, PartialEq, Eq, Structural)]
pub enum Sound {
    Correct,
    Incorrect,
    Wall,
}

impl Sound {
    /// The name under which the sound is stored.
    pub open spec fn name_spec(self) -> Seq<char> {
        match self {
            Sound::Correct => "correct"@,
            Sound::Incorrect => "incorrect"@,
            Sound::Wall => "wall"@,
        }
    }

    pub fn name(&self) -> (s: &'static str)
        ensures
            s@ == self.name_spec(),
    {
        match self {
            Sound::Correct => "correct",
            Sound::Incorrect => "incorrect",
            Sound::Wall => "wall",
        }
    }
}

/// What follows from the move of entity `id`: where it is a box that now
/// stands on the tile of a spot, the placement, correct exactly when box
/// and spot have the same colour; otherwise nothing.
pub open spec fn placement(s: Seq<ComponentsView>, id: EntityId) -> Option<Event> {
    if id < s.len() && s[id as int].the_box.is_some() && s[id as int].position.is_some() {
        let p = s[id as int].position.unwrap();
        match occupant(s, Kind::BoxSpot, p.x, p.y) {
            Some(spot) => Some(
                Event::BoxPlacedOnSpot(
                    BoxPlacedOnSpot {
                        is_correct_spot: s[spot as int].box_spot.unwrap().color
                            == s[id as int].the_box.unwrap().color,
                    },
                ),
            ),
            None => None,
        }
    } else {
        None
    }
}

/// The event that an event gives rise to, if any.
pub open spec fn derive(s: Seq<ComponentsView>, e: Event) -> Option<Event> {
    match e {
        Event::EntityMoved(moved) => placement(s, moved.id),
        Event::BoxPlacedOnSpot(_) => None,
        Event::PlayerHitObstacle => None,
    }
}

/// The sound that an event calls for, if any.
pub open spec fn cue(e: Event) -> Option<Sound> {
    match e {
        Event::EntityMoved(_) => None,
        Event::BoxPlacedOnSpot(placed) => Some(
            if placed.is_correct_spot {
                Sound::Correct
            } else {
                Sound::Incorrect
            },
        ),
        Event::PlayerHitObstacle => Some(Sound::Wall),
    }
}

/// The events that the first `n` of `events` give rise to, in order.
pub open spec fn derived_upto(s: Seq<ComponentsView>, events: Seq<Event>, n: nat) -> Seq<Event>
    decreases n,
{
    if n == 0 {
        Seq::empty()
    } else {
        let before = derived_upto(s, events, (n - 1) as nat);
        match derive(s, events[n - 1]) {
            Some(e) => before.push(e),
            None => before,
        }
    }
}

/// The sounds that the first `n` of `events` call for, in order.
pub open spec fn cues_upto(events: Seq<Event>, n: nat) -> Seq<Sound>
    decreases n,
{
    if n == 0 {
        Seq::empty()
    } else {
        let before = cues_upto(events, (n - 1) as nat);
        match cue(events[n - 1]) {
            Some(c) => before.push(c),
            None => before,
        }
    }
}

/// The events that `events` give rise to.
pub open spec fn derived(s: Seq<ComponentsView>, events: Seq<Event>) -> Seq<Event> {
    derived_upto(s, events, events.len())
}

/// The sounds that `events` call for.
pub open spec fn cues(events: Seq<Event>) -> Seq<Sound> {
    cues_upto(events, events.len())
}

/// Colour correctness. Where the move of a box onto the tile of a spot
/// gives rise to a placement, the placement is correct if the colours of
/// box and spot are equal, and incorrect if they differ; a box on a tile
/// without a spot gives rise to nothing.
pub proof fn law_placement_correct_iff_same_color(s: Seq<ComponentsView>, id: EntityId)
    requires
        id < s.len(),
        s[id as int].the_box.is_some(),
        s[id as int].position.is_some(),
    ensures
        ({
            let p = s[id as int].position.unwrap();
            let the_box = s[id as int].the_box.unwrap();
            match occupant(s, Kind::BoxSpot, p.x, p.y) {
                Some(spot) => {
                    let box_spot = s[spot as int].box_spot.unwrap();
                    &&& box_spot.color == the_box.color ==> placement(s, id) == Some(
                        Event::BoxPlacedOnSpot(BoxPlacedOnSpot { is_correct_spot: true }),
                    )
                    &&& box_spot.color != the_box.color ==> placement(s, id) == Some(
                        Event::BoxPlacedOnSpot(BoxPlacedOnSpot { is_correct_spot: false }),
                    )
                },
                None => placement(s, id).is_none(),
            }
        }),
{
}

/// Derived events are placements, and a placement gives rise to nothing.
pub proof fn lemma_derived_is_terminal(s: Seq<ComponentsView>, events: Seq<Event>, n: nat)
    ensures
        forall|i: int|
            0 <= i < derived_upto(s, events, n).len() ==> derive(
                s,
                #[trigger] derived_upto(s, events, n)[i],
            ).is_none(),
    decreases n,
{
    if n > 0 {
        lemma_derived_is_terminal(s, events, (n - 1) as nat);
    }
}

/// Events that give rise to nothing leave nothing to process.
pub proof fn lemma_terminal_derives_nothing(s: Seq<ComponentsView>, events: Seq<Event>, n: nat)
    requires
        n <= events.len(),
        forall|i: int| 0 <= i < events.len() ==> derive(s, #[trigger] events[i]).is_none(),
    ensures
        derived_upto(s, events, n) == Seq::<Event>::empty(),
    decreases n,
{
    if n > 0 {
        lemma_terminal_derives_nothing(s, events, (n - 1) as nat);
    }
}

/// Derives secondary events from the events of a tick and turns the
/// terminal ones into sounds.
#[derive(Debug, Clone, Copy, PartialEq, Eq, Structural)]
pub struct EventSystem {}

impl EventSystem {
    /// The event that follows from the move of entity `id`.
    pub fn placed_on_spot(store: &Store, id: EntityId) -> (e: Option<Event>)
        ensures
            e == placement(store@, id),
    {
        let entities: u32 = store.len();
        if id >= entities {
            return None;
        }
        let the_box = match store.the_box(id) {
            Some(b) => b,
            None => {
                return None;
            },
        };
        let position = match store.position(id) {
            Some(p) => p,
            None => {
                return None;
            },
        };
        let box_spots_with_positions = positions_of(store, Kind::BoxSpot);
        proof {
            lemma_occupant_upto(store@, Kind::BoxSpot, position.x, position.y, store@.len());
        }
        match box_spots_with_positions.get(position.x, position.y) {
            Some(spot) => match store.box_spot(spot) {
                Some(box_spot) => Some(
                    Event::BoxPlacedOnSpot(
                        BoxPlacedOnSpot { is_correct_spot: box_spot.color == the_box.color },
                    ),
                ),
                None => None,
            },
            None => None,
        }
    }

    /// Handles `events` in order: collects the sound of each terminal event
    /// and returns the events derived from the others.
    fn process(store: &Store, events: &Vec<Event>, sounds: &mut Vec<Sound>) -> (new_events: Vec<
        Event,
    >)
        ensures
            final(sounds)@ == old(sounds)@ + cues(events@),
            new_events@ == derived(store@, events@),
    {
        let mut new_events: Vec<Event> = Vec::new();
        let mut i: usize = 0;
        while i < events.len()
            invariant
                i <= events@.len(),
                sounds@ == old(sounds)@ + cues_upto(events@, i as nat),
                new_events@ == derived_upto(store@, events@, i as nat),
            decreases events@.len() - i,
        {
            match events[i] {
                Event::BoxPlacedOnSpot(BoxPlacedOnSpot { is_correct_spot }) => {
                    if is_correct_spot {
                        sounds.push(Sound::Correct);
                    } else {
                        sounds.push(Sound::Incorrect);
                    }
                },
                Event::EntityMoved(EntityMoved { id }) => {
                    match Self::placed_on_spot(store, id) {
                        Some(e) => {
                            new_events.push(e);
                        },
                        None => {},
                    }
                },
                Event::PlayerHitObstacle => {
                    sounds.push(Sound::Wall);
                },
            }
            assert(sounds@ =~= old(sounds)@ + cues_upto(events@, (i + 1) as nat));
            i += 1;
        }
        new_events
    }

    /// Drains the queue: handles the events of the tick in the order they
    /// were raised, then the events derived from them, until none is left.
    /// Returns the sounds to play, in the order they came up.
    pub fn run(&mut self, event_queue: &mut EventQueue, store: &Store) -> (sounds: Vec<Sound>)
        ensures
            final(event_queue).events@ == Seq::<Event>::empty(),
            sounds@ == cues(old(event_queue).events@) + cues(
                derived(store@, old(event_queue).events@),
            ),
    {
        let mut sounds: Vec<Sound> = Vec::new();
        let mut pending: Vec<Event> = Vec::new();
        std::mem::swap(&mut pending, &mut event_queue.events);
        let derived_events = Self::process(store, &pending, &mut sounds);
        let rest = Self::process(store, &derived_events, &mut sounds);
        proof {
            lemma_derived_is_terminal(store@, pending@, pending@.len());
            lemma_terminal_derives_nothing(store@, derived_events@, derived_events@.len());
            assert(sounds@ =~= cues(pending@) + cues(derived_events@));
        }
        event_queue.events = rest;
        sounds
    }
}

} // verus!
