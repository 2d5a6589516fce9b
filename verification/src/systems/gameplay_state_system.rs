use vstd::prelude::*;
use crate::components::Position;
use crate::resources::{Gameplay, GameplayState};
use crate::spatial::{index_of, lemma_occupant_upto, occupant, positions_of, stands_on, Kind};
use crate::store::{ComponentsView, Store};

verus! {

/// Whether entity `i` leaves the level unsolved: it is a spot with a
/// position, and the box indexed at its tile is missing or of another
/// colour. An entity that is no spot, or has no position, never does.
pub open spec fn spot_unmatched(s: Seq<ComponentsView>, i: int) -> bool {
    &&& s[i].box_spot.is_some()
    &&& s[i].position.is_some()
    &&& {
        let p = s[i].position.unwrap();
        match occupant(s, Kind::Box, p.x, p.y) {
            Some(b) => s[b as int].the_box.unwrap().color != s[i].box_spot.unwrap().color,
            None => true,
        }
    }
}

/// Whether every spot holds a box of its own colour. Boxes that stand on
/// no spot are not looked at.
pub open spec fn all_spots_matched(s: Seq<ComponentsView>) -> bool {
    forall|i: int| 0 <= i < s.len() ==> !spot_unmatched(s, i)
}

/// The state that the store calls for.
pub open spec fn evaluate(s: Seq<ComponentsView>) -> GameplayState {
    if all_spots_matched(s) {
        GameplayState::Won
    } else {
        GameplayState::Playing
    }
}

/// Decides whether the level is solved.
#[derive(Debug, Clone, Copy, PartialEq, Eq, Structural)]
pub struct GameplayStateSystem {}

impl GameplayStateSystem {
    /// Sets the state to `Won` if every spot holds a box of its colour and
    /// to `Playing` otherwise, whatever it was before. The move counter
    /// stays.
    pub fn run(&mut self, gameplay: &mut Gameplay, store: &Store)
        ensures
            final(gameplay).state == evaluate(store@),
            final(gameplay).moves_count == old(gameplay).moves_count,
    {
        let boxes_by_position = positions_of(store, Kind::Box);
        let n: u32 = store.len();
        let mut id: u32 = 0;
        while id < n
            invariant
                id <= n,
                n == store@.len(),
                boxes_by_position@ == index_of(store@, Kind::Box),
                forall|i: int| 0 <= i < id ==> !spot_unmatched(store@, i),
                gameplay.moves_count == old(gameplay).moves_count,
            decreases n - id,
        {
            match (store.box_spot(id), store.position(id)) {
                (Some(box_spot), Some(position)) => {
                    proof {
                        lemma_occupant_upto(
                            store@,
                            Kind::Box,
                            position.x,
                            position.y,
                            store@.len(),
                        );
                    }
                    let matched: bool = match boxes_by_position.get(position.x, position.y) {
                        Some(b) => match store.the_box(b) {
                            Some(the_box) => the_box.color == box_spot.color,
                            None => false,
                        },
                        None => false,
                    };
                    if !matched {
                        assert(spot_unmatched(store@, id as int));
                        gameplay.state = GameplayState::Playing;
                        return ;
                    }
                },
                _ => {},
            }
            id += 1;
        }
        gameplay.state = GameplayState::Won;
    }
}

/// A solved level stays solved however often it is evaluated: the verdict
/// depends on the store alone.
pub proof fn law_won_is_stable(s: Seq<ComponentsView>)
    requires
        all_spots_matched(s),
    ensures
        evaluate(s) == GameplayState::Won,
{
}

/// Taking the box off a spot unsolves the level. Where the box `b` indexed
/// at the tile of spot `spot` is another entity than the spot, is the only
/// box on that tile, and moves to another tile, the next evaluation yields
/// `Playing`.
pub proof fn law_box_off_spot_is_playing(
    s: Seq<ComponentsView>,
    spot: int,
    b: int,
    to: Position,
)
    requires
        s.len() <= u32::MAX,
        0 <= spot < s.len(),
        s[spot].box_spot.is_some(),
        s[spot].position.is_some(),
        0 <= b < s.len(),
        b != spot,
        occupant(s, Kind::Box, s[spot].position.unwrap().x, s[spot].position.unwrap().y) == Some(
            b as u32,
        ),
        forall|j: int|
            0 <= j < s.len() && j != b ==> !stands_on(
                #[trigger] s[j],
                Kind::Box,
                s[spot].position.unwrap().x,
                s[spot].position.unwrap().y,
            ),
        to.x != s[spot].position.unwrap().x || to.y != s[spot].position.unwrap().y,
    ensures
        evaluate(s.update(b, (ComponentsView { position: Some(to), ..s[b] })))
            == GameplayState::Playing,
{
    let p = s[spot].position.unwrap();
    let after = s.update(b, (ComponentsView { position: Some(to), ..s[b] }));
    lemma_occupant_upto(after, Kind::Box, p.x, p.y, after.len());
    match occupant(after, Kind::Box, p.x, p.y) {
        Some(id) => {
            assert(stands_on(after[id as int], Kind::Box, p.x, p.y));
            if id != b {
                assert(stands_on(s[id as int], Kind::Box, p.x, p.y));
            }
        },
        None => {},
    }
    assert(spot_unmatched(after, spot));
}

} // verus!
