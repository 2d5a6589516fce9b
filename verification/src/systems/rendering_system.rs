use vstd::prelude::*;
use itertools::Itertools;
use crate::components::{Renderable, RenderableKind};
use crate::events::EntityId;
use crate::resources::Time;
use crate::store::{ComponentsView, Store};

verus! {

/// One image to draw: which entity it shows, the image, the tile, and the
/// layer.
#[derive(Debug)]
pub struct DrawItem {
    pub id: EntityId,
    pub image: String,
    pub x: u8,
    pub y: u8,
    pub z: u8,
}

/// A draw item with its image reference as characters.
pub struct DrawItemView {
    pub id: EntityId,
    pub image: Seq<char>,
    pub x: u8,
    pub y: u8,
    pub z: u8,
}

impl View for DrawItem {
    type V = DrawItemView;

    open spec fn view(&self) -> DrawItemView {
        DrawItemView { id: self.id, image: self.image@, x: self.x, y: self.y, z: self.z }
    }
}

/// The views of a list of draw items.
pub open spec fn views(items: Seq<DrawItem>) -> Seq<DrawItemView> {
    Seq::new(items.len(), |i: int| items[i]@)
}

/// The animation frame at a time: four frames a second, every second
/// alike.
pub open spec fn frame_index(delta_millis: u128) -> int {
    (delta_millis as int % 1000) / 250
}

/// The image that shows at a time: the only one of a still picture, and of
/// an animation the frame of that time, counted cyclically.
pub open spec fn image_at(images: Seq<Seq<char>>, delta_millis: u128) -> Seq<char> {
    if images.len() == 1 {
        images[0]
    } else {
        images[frame_index(delta_millis) % images.len() as int]
    }
}

/// Whether an entity is drawn: it has a position and images.
pub open spec fn drawn(e: ComponentsView) -> bool {
    e.position.is_some() && e.renderable.is_some()
}

/// The draw item of entity `id` at a time.
pub open spec fn draw_item(s: Seq<ComponentsView>, id: int, delta_millis: u128) -> DrawItemView {
    DrawItemView {
        id: id as EntityId,
        image: image_at(s[id].renderable.unwrap(), delta_millis),
        x: s[id].position.unwrap().x,
        y: s[id].position.unwrap().y,
        z: s[id].position.unwrap().z,
    }
}

/// Draw order: lower layers first, and within a layer the entity created
/// first.
pub open spec fn before(a: (u8, EntityId), b: (u8, EntityId)) -> bool {
    a.0 < b.0 || (a.0 == b.0 && a.1 < b.1)
}

/// Draw order, or the same place in it.
pub open spec fn not_after(a: (u8, EntityId), b: (u8, EntityId)) -> bool {
    a.0 < b.0 || (a.0 == b.0 && a.1 <= b.1)
}

/// Whether `list` is the draw list of the store at a time: it holds the
/// item of every drawn entity, holds nothing else, and is in draw order.
pub open spec fn is_draw_list(
    s: Seq<ComponentsView>,
    delta_millis: u128,
    list: Seq<DrawItemView>,
) -> bool {
    &&& forall|i: int|
        0 <= i < list.len() ==> {
            &&& (#[trigger] list[i]).id < s.len()
            &&& drawn(s[list[i].id as int])
            &&& list[i] == draw_item(s, list[i].id as int, delta_millis)
        }
    &&& forall|id: int|
        0 <= id < s.len() && drawn(#[trigger] s[id]) ==> exists|i: int|
            0 <= i < list.len() && (#[trigger] list[i]).id == id
    &&& forall|i: int, j: int|
        0 <= i < j < list.len() ==> before(
            ((#[trigger] list[i]).z, list[i].id),
            ((#[trigger] list[j]).z, list[j].id),
        )
}

proof fn lemma_draw_lists_agree(
    s: Seq<ComponentsView>,
    delta_millis: u128,
    a: Seq<DrawItemView>,
    b: Seq<DrawItemView>,
    n: int,
)
    requires
        is_draw_list(s, delta_millis, a),
        is_draw_list(s, delta_millis, b),
        0 <= n <= a.len(),
        n <= b.len(),
    ensures
        forall|j: int| 0 <= j < n ==> a[j] == b[j],
    decreases n,
{
    if n > 0 {
        lemma_draw_lists_agree(s, delta_millis, a, b, n - 1);
        let i = n - 1;
        let e = a[i].id as int;
        let f = b[i].id as int;
        assert(drawn(s[e]));
        assert(drawn(s[f]));
        let k = choose|k: int| 0 <= k < b.len() && (#[trigger] b[k]).id == e;
        let m = choose|m: int| 0 <= m < a.len() && (#[trigger] a[m]).id == f;
        assert(b[k] == a[i]);
        assert(a[m] == b[i]);
        if k < i {
            assert(a[k] == b[k]);
            assert(before((a[k].z, a[k].id), (a[i].z, a[i].id)));
        } else if k > i {
            assert(before((b[i].z, b[i].id), (b[k].z, b[k].id)));
            if m < i {
                assert(a[m] == b[m]);
                assert(before((b[m].z, b[m].id), (b[i].z, b[i].id)));
            } else if m > i {
                assert(before((a[i].z, a[i].id), (a[m].z, a[m].id)));
            }
        }
    }
}

/// A store has one draw list at a time: the three conditions leave no
/// choice.
pub proof fn law_draw_list_is_unique(
    s: Seq<ComponentsView>,
    delta_millis: u128,
    a: Seq<DrawItemView>,
    b: Seq<DrawItemView>,
)
    requires
        is_draw_list(s, delta_millis, a),
        is_draw_list(s, delta_millis, b),
    ensures
        a == b,
{
    let n = if a.len() <= b.len() {
        a.len() as int
    } else {
        b.len() as int
    };
    lemma_draw_lists_agree(s, delta_millis, a, b, n);
    if a.len() < b.len() {
        let f = b[n].id as int;
        assert(drawn(s[f]));
        let m = choose|m: int| 0 <= m < a.len() && (#[trigger] a[m]).id == f;
        assert(a[m] == b[m]);
        assert(before((b[m].z, b[m].id), (b[n].z, b[n].id)));
    } else if b.len() < a.len() {
        let e = a[n].id as int;
        assert(drawn(s[e]));
        let k = choose|k: int| 0 <= k < b.len() && (#[trigger] b[k]).id == e;
        assert(a[k] == b[k]);
        assert(before((a[k].z, a[k].id), (a[n].z, a[n].id)));
    }
    assert(a =~= b);
}

/// The layer and id of an entity.
pub open spec fn draw_key(s: Seq<ComponentsView>, id: int) -> (u8, EntityId) {
    (s[id].position.unwrap().z, id as EntityId)
}

/// Whether `keys` holds the key of every drawn entity among the first `n`,
/// and nothing else, in order of ids.
spec fn keys_of(s: Seq<ComponentsView>, keys: Seq<(u8, EntityId)>, n: int) -> bool {
    &&& forall|j: int|
        0 <= j < keys.len() ==> {
            &&& (#[trigger] keys[j]).1 < n
            &&& drawn(s[keys[j].1 as int])
            &&& keys[j] == draw_key(s, keys[j].1 as int)
        }
    &&& forall|id: int| 0 <= id < n && drawn(#[trigger] s[id]) ==> keys.contains(draw_key(s, id))
    &&& forall|i: int, j: int|
        0 <= i < j < keys.len() ==> (#[trigger] keys[i]).1 < (#[trigger] keys[j]).1
}

/// Lists that hold the same keys equally often hold the same keys.
proof fn lemma_same_keys(a: Seq<(u8, EntityId)>, b: Seq<(u8, EntityId)>, key: (u8, EntityId))
    requires
        a.to_multiset() == b.to_multiset(),
        a.contains(key),
    ensures
        b.contains(key),
{
    vstd::seq_lib::to_multiset_contains(a, key);
    vstd::seq_lib::to_multiset_contains(b, key);
}

/// Sorts the keys with `Itertools::sorted`, which collects the items, sorts
/// them ascending by the order of their type and hands them out again. For
/// pairs of integers that order is by the first, then by the second. The
/// result holds the same keys as often as the argument.
#[verifier::external_body]
fn sorted_keys(keys: Vec<(u8, EntityId)>) -> (sorted: Vec<(u8, EntityId)>)
    ensures
        sorted@.to_multiset() == keys@.to_multiset(),
        forall|i: int, j: int|
            0 <= i < j < sorted@.len() ==> not_after(#[trigger] sorted@[i], #[trigger] sorted@[j]),
{
    keys.into_iter().sorted().collect()
}

/// Produces what is to be drawn, without drawing it.
#[derive(Debug, Clone, Copy, PartialEq, Eq, Structural)]
pub struct RenderingSystem {}

impl RenderingSystem {
    /// The image of `renderable` at the elapsed time.
    pub fn get_image(&self, renderable: &Renderable, delta_millis: u128) -> (image: String)
        ensures
            image@ == image_at(renderable@, delta_millis),
    {
        let path_index: usize = match renderable.kind() {
            RenderableKind::Static => 0,
            RenderableKind::Animated => ((delta_millis % 1000) / 250) as usize,
        };
        renderable.path(path_index)
    }

    /// The draw list of the store at the elapsed time: one item per entity
    /// that has a position and images, lower layers first.
    pub fn run(&self, store: &Store, time: &Time) -> (items: Vec<DrawItem>)
        ensures
            is_draw_list(store@, time.delta_millis, views(items@)),
    {
        let ghost s = store@;
        let n: u32 = store.len();
        let mut keys: Vec<(u8, EntityId)> = Vec::new();
        let mut id: u32 = 0;
        while id < n
            invariant
                id <= n,
                n == s.len(),
                s == store@,
                keys_of(s, keys@, id as int),
            decreases n - id,
        {
            let ghost before_push = keys@;
            match (store.position(id), store.renderable(id)) {
                (Some(position), Some(_)) => {
                    keys.push((position.z, id));
                    assert(keys@[keys@.len() - 1] == draw_key(s, id as int));
                    assert forall|e: int| 0 <= e < id + 1 && drawn(#[trigger] s[e]) implies keys@.contains(
                        draw_key(s, e),
                    ) by {
                        if e < id {
                            let j = choose|j: int|
                                0 <= j < before_push.len() && before_push[j] == draw_key(s, e);
                            assert(keys@[j] == draw_key(s, e));
                        }
                    }
                },
                _ => {},
            }
            id += 1;
        }
        let ghost unsorted = keys@;
        let sorted = sorted_keys(keys);
        proof {
            unsorted.lemma_multiset_has_no_duplicates();
            sorted@.lemma_multiset_has_no_duplicates_conv();
            assert forall|i: int| 0 <= i < sorted@.len() implies unsorted.contains(
                #[trigger] sorted@[i],
            ) by {
                assert(sorted@.contains(sorted@[i]));
                lemma_same_keys(sorted@, unsorted, sorted@[i]);
            }
        }
        let mut items: Vec<DrawItem> = Vec::new();
        let mut i: usize = 0;
        while i < sorted.len()
            invariant
                i <= sorted@.len(),
                items@.len() == i,
                s == store@,
                keys_of(s, unsorted, s.len() as int),
                forall|k: int| 0 <= k < sorted@.len() ==> unsorted.contains(#[trigger] sorted@[k]),
                forall|k: int|
                    0 <= k < i ==> (#[trigger] items@[k])@ == draw_item(
                        s,
                        sorted@[k].1 as int,
                        time.delta_millis,
                    ),
            decreases sorted@.len() - i,
        {
            let key: (u8, EntityId) = sorted[i];
            proof {
                assert(unsorted.contains(sorted@[i as int]));
                let j = choose|j: int| 0 <= j < unsorted.len() && unsorted[j] == key;
                assert(unsorted[j].1 < s.len());
            }
            match (store.position(key.1), store.renderable(key.1)) {
                (Some(position), Some(renderable)) => {
                    let image = self.get_image(renderable, time.delta_millis);
                    items.push(
                        DrawItem { id: key.1, image, x: position.x, y: position.y, z: position.z },
                    );
                },
                _ => {},
            }
            i += 1;
        }
        proof {
            let list = views(items@);
            assert forall|k: int| 0 <= k < list.len() implies {
                &&& (#[trigger] list[k]).id < s.len()
                &&& drawn(s[list[k].id as int])
                &&& list[k] == draw_item(s, list[k].id as int, time.delta_millis)
                &&& (list[k].z, list[k].id) == sorted@[k]
            } by {
                assert(unsorted.contains(sorted@[k]));
                let j = choose|j: int| 0 <= j < unsorted.len() && unsorted[j] == sorted@[k];
                assert(unsorted[j].1 < s.len());
            }
            assert forall|e: int| 0 <= e < s.len() && drawn(#[trigger] s[e]) implies exists|k: int|
                0 <= k < list.len() && (#[trigger] list[k]).id == e by {
                assert(unsorted.contains(draw_key(s, e)));
                lemma_same_keys(unsorted, sorted@, draw_key(s, e));
                let k = choose|k: int| 0 <= k < sorted@.len() && sorted@[k] == draw_key(s, e);
                assert(list[k].id == e);
            }
            assert forall|a: int, b: int| 0 <= a < b < list.len() implies before(
                ((#[trigger] list[a]).z, list[a].id),
                ((#[trigger] list[b]).z, list[b].id),
            ) by {
                assert(not_after(sorted@[a], sorted@[b]));
                assert(sorted@[a] != sorted@[b]);
            }
        }
        items
    }
}

} // verus!
