//! The layers of a frame as the contracts see them, and what a drain makes
//! of them.

use crate::id::Id;
use crate::layer_id::{LayerId, Order, ORDER_COUNT};
use crate::paint_list::transformed_range;
use crate::shape::ClippedShape;
use epaint::emath::TSTransform;
use vstd::prelude::*;

verus! {

/// A layer as the contracts see it: its id and the entries of its list.
pub struct LayerContent {
    pub id: Id,
    pub entries: Seq<ClippedShape>,
}

/// Whether one of `layers` has the id `id`.
pub open spec fn has_layer(layers: Seq<LayerContent>, id: Id) -> bool {
    exists|i: int| 0 <= i < layers.len() && #[trigger] layers[i].id == id
}

/// The position in `layers` of the layer with the id `id`, where there is
/// one.
pub open spec fn layer_position(layers: Seq<LayerContent>, id: Id) -> int {
    choose|i: int| 0 <= i < layers.len() && #[trigger] layers[i].id == id
}

/// No two of `layers` have the same id.
pub open spec fn distinct_ids(layers: Seq<LayerContent>) -> bool {
    forall|i: int, j: int|
        0 <= i < j < layers.len() ==> #[trigger] layers[i].id != #[trigger] layers[j].id
}

/// The entries of the layer with the id `id`; none where there is no such
/// layer.
pub open spec fn entries_of(layers: Seq<LayerContent>, id: Id) -> Seq<ClippedShape> {
    if has_layer(layers, id) {
        layers[layer_position(layers, id)].entries
    } else {
        Seq::empty()
    }
}

/// `layers` with `entries` as the entries of the layer with the id `id`. A
/// layer that is not there yet is added behind all others.
pub open spec fn with_entries(
    layers: Seq<LayerContent>,
    id: Id,
    entries: Seq<ClippedShape>,
) -> Seq<LayerContent> {
    if has_layer(layers, id) {
        layers.update(layer_position(layers, id), LayerContent { id, entries })
    } else {
        layers.push(LayerContent { id, entries })
    }
}

/// Whether a layer holds at least one entry.
pub open spec fn in_use() -> spec_fn(LayerContent) -> bool {
    |layer: LayerContent| layer.entries.len() > 0
}

/// The layers that a drain keeps: those that hold at least one entry, in
/// their order. A layer that got nothing since the drain before is dropped.
pub open spec fn surviving(layers: Seq<LayerContent>) -> Seq<LayerContent> {
    layers.filter(in_use())
}

/// The same layers, each with no entry.
pub open spec fn emptied(layers: Seq<LayerContent>) -> Seq<LayerContent> {
    Seq::new(layers.len(), |i: int| LayerContent { id: layers[i].id, entries: Seq::empty() })
}

/// What a layer hands to the output: its entries, taken to global space
/// where a transform is registered for the layer.
pub open spec fn emitted(
    layer_id: LayerId,
    entries: Seq<ClippedShape>,
    to_global: Map<LayerId, TSTransform>,
) -> Seq<ClippedShape> {
    if to_global.contains_key(layer_id) {
        transformed_range(entries, 0, entries.len() as int, to_global[layer_id])
    } else {
        entries
    }
}

/// Whether `layer_id` stands among the first `n` of `area_order`.
pub open spec fn named_within(area_order: Seq<LayerId>, n: int, layer_id: LayerId) -> bool {
    exists|j: int| 0 <= j < n && j < area_order.len() && #[trigger] area_order[j] == layer_id
}

/// What position `j` of `area_order` adds to the output of the category
/// `order`: the entries of the layer named there, if it is of this category,
/// has survived, and was not named at an earlier position.
pub open spec fn named_chunk(
    order: Order,
    survivors: Seq<LayerContent>,
    area_order: Seq<LayerId>,
    j: int,
    to_global: Map<LayerId, TSTransform>,
) -> Seq<ClippedShape> {
    let layer_id = area_order[j];
    if layer_id.order == order && has_layer(survivors, layer_id.id) && !named_within(
        area_order,
        j,
        layer_id,
    ) {
        emitted(layer_id, entries_of(survivors, layer_id.id), to_global)
    } else {
        Seq::empty()
    }
}

/// The output of the first `n` positions of `area_order` for the category
/// `order`.
pub open spec fn named_output(
    order: Order,
    survivors: Seq<LayerContent>,
    area_order: Seq<LayerId>,
    n: int,
    to_global: Map<LayerId, TSTransform>,
) -> Seq<ClippedShape>
    decreases n,
{
    if n <= 0 {
        Seq::empty()
    } else {
        named_output(order, survivors, area_order, n - 1, to_global) + named_chunk(
            order,
            survivors,
            area_order,
            n - 1,
            to_global,
        )
    }
}

/// What the survivor at position `k` adds to the output after the named
/// layers: its entries, unless `area_order` names it.
pub open spec fn unnamed_chunk(
    order: Order,
    survivors: Seq<LayerContent>,
    area_order: Seq<LayerId>,
    k: int,
    to_global: Map<LayerId, TSTransform>,
) -> Seq<ClippedShape> {
    let layer_id = LayerId { order, id: survivors[k].id };
    if named_within(area_order, area_order.len() as int, layer_id) {
        Seq::empty()
    } else {
        emitted(layer_id, survivors[k].entries, to_global)
    }
}

/// The output of the first `n` survivors that `area_order` does not name.
pub open spec fn unnamed_output(
    order: Order,
    survivors: Seq<LayerContent>,
    area_order: Seq<LayerId>,
    n: int,
    to_global: Map<LayerId, TSTransform>,
) -> Seq<ClippedShape>
    decreases n,
{
    if n <= 0 {
        Seq::empty()
    } else {
        unnamed_output(order, survivors, area_order, n - 1, to_global) + unnamed_chunk(
            order,
            survivors,
            area_order,
            n - 1,
            to_global,
        )
    }
}

/// The state of a category while `area_order` is walked: a layer named
/// among the first `n` positions is empty, every other layer is as it was.
pub open spec fn named_taken(
    order: Order,
    survivors: Seq<LayerContent>,
    area_order: Seq<LayerId>,
    n: int,
) -> Seq<LayerContent> {
    Seq::new(
        survivors.len(),
        |k: int|
            if named_within(area_order, n, LayerId { order, id: survivors[k].id }) {
                LayerContent { id: survivors[k].id, entries: Seq::empty() }
            } else {
                survivors[k]
            },
    )
}

/// The output of one category: first the layers that `area_order` names, in
/// the order in which it names them, then the others in creation order.
pub open spec fn category_output(
    order: Order,
    layers: Seq<LayerContent>,
    area_order: Seq<LayerId>,
    to_global: Map<LayerId, TSTransform>,
) -> Seq<ClippedShape> {
    let survivors = surviving(layers);
    named_output(order, survivors, area_order, area_order.len() as int, to_global)
        + unnamed_output(order, survivors, area_order, survivors.len() as int, to_global)
}

/// The output of the first `n` categories in paint order.
pub open spec fn output_of_categories(
    state: Seq<Seq<LayerContent>>,
    area_order: Seq<LayerId>,
    to_global: Map<LayerId, TSTransform>,
    n: int,
) -> Seq<ClippedShape>
    decreases n,
{
    if n <= 0 {
        Seq::empty()
    } else {
        output_of_categories(state, area_order, to_global, n - 1) + category_output(
            Order::of_rank((n - 1) as nat),
            state[n - 1],
            area_order,
            to_global,
        )
    }
}

/// What a drain returns: the output of all categories, from the background
/// to the debug layer.
pub open spec fn drain_output(
    state: Seq<Seq<LayerContent>>,
    area_order: Seq<LayerId>,
    to_global: Map<LayerId, TSTransform>,
) -> Seq<ClippedShape> {
    output_of_categories(state, area_order, to_global, ORDER_COUNT as int)
}

/// What a drain leaves behind: in each category the layers that held
/// something, each with no entry.
pub open spec fn drained(state: Seq<Seq<LayerContent>>) -> Seq<Seq<LayerContent>> {
    Seq::new(state.len(), |rank: int| emptied(surviving(state[rank])))
}

/// The number of entries that `layers` hold together.
pub open spec fn entry_count(layers: Seq<LayerContent>) -> nat
    decreases layers.len(),
{
    if layers.len() == 0 {
        0
    } else {
        entry_count(layers.drop_last()) + layers.last().entries.len()
    }
}

/// The number of entries that the layers of the first `n` categories hold
/// together.
pub open spec fn entries_in_categories(state: Seq<Seq<LayerContent>>, n: int) -> nat
    decreases n,
{
    if n <= 0 {
        0
    } else {
        entries_in_categories(state, n - 1) + entry_count(state[n - 1])
    }
}

/// What holds of the layers of a frame at all times: there are five
/// categories, and within a category no two layers have the same id.
pub open spec fn well_formed(state: Seq<Seq<LayerContent>>) -> bool {
    &&& state.len() == ORDER_COUNT
    &&& forall|rank: int| 0 <= rank < ORDER_COUNT ==> distinct_ids(#[trigger] state[rank])
}

/// In a sequence without duplicate ids, the layer with a given id is found
/// at one position only.
pub proof fn lemma_position_is_unique(layers: Seq<LayerContent>, k: int)
    requires
        distinct_ids(layers),
        0 <= k < layers.len(),
    ensures
        has_layer(layers, layers[k].id),
        layer_position(layers, layers[k].id) == k,
{
    let p = layer_position(layers, layers[k].id);
    assert(layers[p].id == layers[k].id);
}

/// Writing new entries into a layer, or adding a layer, keeps ids distinct.
pub proof fn lemma_with_entries_distinct(
    layers: Seq<LayerContent>,
    id: Id,
    entries: Seq<ClippedShape>,
)
    requires
        distinct_ids(layers),
    ensures
        distinct_ids(with_entries(layers, id, entries)),
{
    let after = with_entries(layers, id, entries);
    assert forall|i: int, j: int| 0 <= i < j < after.len() implies #[trigger] after[i].id
        != #[trigger] after[j].id by {
        if has_layer(layers, id) {
            assert(after[i].id == layers[i].id && after[j].id == layers[j].id);
        } else if j < layers.len() {
            assert(after[i].id == layers[i].id && after[j].id == layers[j].id);
        } else {
            assert(after[i].id == layers[i].id && after[j].id == id);
        }
    }
}

/// Dropping the layers that hold nothing keeps ids distinct.
pub proof fn lemma_surviving_distinct(layers: Seq<LayerContent>)
    requires
        distinct_ids(layers),
    ensures
        distinct_ids(surviving(layers)),
        forall|k: int|
            0 <= k < surviving(layers).len() ==> has_layer(
                layers,
                (#[trigger] surviving(layers)[k]).id,
            ) && surviving(layers)[k].entries.len() > 0,
    decreases layers.len(),
{
    reveal(Seq::filter);
    if layers.len() > 0 {
        lemma_surviving_distinct(layers.drop_last());
    }
}

/// What a drain leaves behind is well formed.
pub proof fn lemma_drained_well_formed(state: Seq<Seq<LayerContent>>)
    requires
        well_formed(state),
    ensures
        well_formed(drained(state)),
{
    assert forall|rank: int| 0 <= rank < ORDER_COUNT implies distinct_ids(
        #[trigger] drained(state)[rank],
    ) by {
        lemma_surviving_distinct(state[rank]);
    }
}

/// Where no layer has survived, `area_order` brings nothing to the output.
proof fn lemma_nothing_named(
    order: Order,
    area_order: Seq<LayerId>,
    n: int,
    to_global: Map<LayerId, TSTransform>,
)
    ensures
        named_output(order, Seq::empty(), area_order, n, to_global) == Seq::<
            ClippedShape,
        >::empty(),
    decreases n,
{
    if n > 0 {
        lemma_nothing_named(order, area_order, n - 1, to_global);
    }
}

/// Layers without entries do not survive.
proof fn lemma_emptied_do_not_survive(layers: Seq<LayerContent>)
    ensures
        surviving(emptied(layers)) == Seq::<LayerContent>::empty(),
    decreases layers.len(),
{
    reveal(Seq::filter);
    if layers.len() > 0 {
        lemma_emptied_do_not_survive(layers.drop_last());
        assert(emptied(layers).drop_last() =~= emptied(layers.drop_last()));
    }
}

/// A layer that holds nothing when the drain starts is gone after it, and
/// asking for it again gives a fresh empty list behind the layers that
/// stayed.
pub proof fn lemma_unused_layer_is_dropped(layers: Seq<LayerContent>, id: Id)
    requires
        distinct_ids(layers),
        entries_of(layers, id).len() == 0,
    ensures
        !has_layer(emptied(surviving(layers)), id),
        entries_of(emptied(surviving(layers)), id) == Seq::<ClippedShape>::empty(),
        forall|entries: Seq<ClippedShape>| #[trigger]
            with_entries(emptied(surviving(layers)), id, entries) == emptied(
                surviving(layers),
            ).push(LayerContent { id, entries }),
{
    let after = emptied(surviving(layers));
    if has_layer(after, id) {
        let survivor = surviving(layers)[layer_position(after, id)];
        lemma_surviving_distinct(layers);
        assert(survivor.id == id && survivor.entries.len() > 0);
        layers.lemma_filter_contains_rev(in_use(), survivor);
        let p = choose|p: int| 0 <= p < layers.len() && layers[p] == survivor;
        lemma_position_is_unique(layers, p);
    }
}

/// A layer that holds something when the drain starts is still there after
/// it, and holds nothing.
pub proof fn lemma_used_layer_stays(layers: Seq<LayerContent>, id: Id)
    requires
        distinct_ids(layers),
        entries_of(layers, id).len() > 0,
    ensures
        has_layer(emptied(surviving(layers)), id),
        entries_of(emptied(surviving(layers)), id) == Seq::<ClippedShape>::empty(),
{
    let p = layer_position(layers, id);
    layers.lemma_filter_contains(in_use(), p);
    let survivors = surviving(layers);
    let k = choose|k: int| 0 <= k < survivors.len() && survivors[k] == layers[p];
    assert(emptied(survivors)[k].id == id);
}

/// Once every category is drained, the first `n` categories bring nothing
/// to the output of another drain.
proof fn lemma_no_output_after_drain(
    state: Seq<Seq<LayerContent>>,
    area_order: Seq<LayerId>,
    to_global: Map<LayerId, TSTransform>,
    n: int,
)
    requires
        0 <= n <= state.len(),
    ensures
        output_of_categories(drained(state), area_order, to_global, n) == Seq::<
            ClippedShape,
        >::empty(),
    decreases n,
{
    if n > 0 {
        lemma_no_output_after_drain(state, area_order, to_global, n - 1);
        lemma_emptied_do_not_survive(surviving(state[n - 1]));
        lemma_nothing_named(
            Order::of_rank((n - 1) as nat),
            area_order,
            area_order.len() as int,
            to_global,
        );
    }
}

/// Draining twice in a row, with nothing painted in between, gives an empty
/// output the second time, whatever order and transforms the second drain is
/// given, and leaves no layer behind.
pub proof fn lemma_second_drain_is_empty(
    state: Seq<Seq<LayerContent>>,
    area_order: Seq<LayerId>,
    to_global: Map<LayerId, TSTransform>,
)
    requires
        state.len() == ORDER_COUNT,
    ensures
        drain_output(drained(state), area_order, to_global) == Seq::<ClippedShape>::empty(),
        forall|rank: int|
            0 <= rank < ORDER_COUNT ==> (#[trigger] drained(drained(state))[rank]).len() == 0,
{
    lemma_no_output_after_drain(state, area_order, to_global, ORDER_COUNT as int);
    assert forall|rank: int| 0 <= rank < ORDER_COUNT implies (#[trigger] drained(
        drained(state),
    )[rank]).len() == 0 by {
        lemma_emptied_do_not_survive(surviving(state[rank]));
    }
}

/// The layers that are dropped held nothing, so the survivors hold as many
/// entries as all layers did.
proof fn lemma_survivors_hold_all(layers: Seq<LayerContent>)
    ensures
        entry_count(surviving(layers)) == entry_count(layers),
    decreases layers.len(),
{
    reveal(Seq::filter);
    if layers.len() > 0 {
        lemma_survivors_hold_all(layers.drop_last());
        if in_use()(layers.last()) {
            assert(surviving(layers).drop_last() =~= surviving(layers.drop_last()));
        }
    }
}

/// Emptying the layer at position `k` takes its entries off the count.
proof fn lemma_count_without(layers: Seq<LayerContent>, k: int)
    requires
        0 <= k < layers.len(),
    ensures
        entry_count(layers.update(k, LayerContent { id: layers[k].id, entries: Seq::empty() }))
            + layers[k].entries.len() == entry_count(layers),
    decreases layers.len(),
{
    let gone = LayerContent { id: layers[k].id, entries: Seq::empty() };
    let after = layers.update(k, gone);
    if k == layers.len() - 1 {
        assert(after.drop_last() =~= layers.drop_last());
    } else {
        lemma_count_without(layers.drop_last(), k);
        assert(after.drop_last() =~= layers.drop_last().update(k, gone));
    }
}

/// While `area_order` is walked, what was emitted and what the layers still
/// hold make up what the survivors held.
proof fn lemma_named_count(
    order: Order,
    survivors: Seq<LayerContent>,
    area_order: Seq<LayerId>,
    n: int,
    to_global: Map<LayerId, TSTransform>,
)
    requires
        distinct_ids(survivors),
        0 <= n <= area_order.len(),
    ensures
        named_output(order, survivors, area_order, n, to_global).len() + entry_count(
            named_taken(order, survivors, area_order, n),
        ) == entry_count(survivors),
    decreases n,
{
    if n == 0 {
        assert(named_taken(order, survivors, area_order, 0) =~= survivors);
    } else {
        lemma_named_count(order, survivors, area_order, n - 1, to_global);
        let layer_id = area_order[n - 1];
        let before = named_taken(order, survivors, area_order, n - 1);
        let after = named_taken(order, survivors, area_order, n);
        if layer_id.order == order && has_layer(survivors, layer_id.id) && !named_within(
            area_order,
            n - 1,
            layer_id,
        ) {
            let k = layer_position(survivors, layer_id.id);
            assert(after =~= before.update(
                k,
                LayerContent { id: before[k].id, entries: Seq::empty() },
            ));
            lemma_count_without(before, k);
        } else {
            assert(after =~= before);
        }
    }
}

/// After `area_order` is walked, the other layers bring what is left.
proof fn lemma_unnamed_count(
    order: Order,
    survivors: Seq<LayerContent>,
    area_order: Seq<LayerId>,
    m: int,
    to_global: Map<LayerId, TSTransform>,
)
    requires
        0 <= m <= survivors.len(),
    ensures
        unnamed_output(order, survivors, area_order, m, to_global).len() == entry_count(
            named_taken(order, survivors, area_order, area_order.len() as int).take(m),
        ),
    decreases m,
{
    let left = named_taken(order, survivors, area_order, area_order.len() as int);
    if m > 0 {
        lemma_unnamed_count(order, survivors, area_order, m - 1, to_global);
        assert(left.take(m).drop_last() =~= left.take(m - 1));
    }
}

/// A category brings as many entries to the output as its layers hold.
proof fn lemma_category_count(
    order: Order,
    layers: Seq<LayerContent>,
    area_order: Seq<LayerId>,
    to_global: Map<LayerId, TSTransform>,
)
    requires
        distinct_ids(layers),
    ensures
        category_output(order, layers, area_order, to_global).len() == entry_count(layers),
{
    let survivors = surviving(layers);
    let left = named_taken(order, survivors, area_order, area_order.len() as int);
    lemma_surviving_distinct(layers);
    lemma_survivors_hold_all(layers);
    lemma_named_count(order, survivors, area_order, area_order.len() as int, to_global);
    lemma_unnamed_count(order, survivors, area_order, survivors.len() as int, to_global);
    assert(left.take(survivors.len() as int) =~= left);
}

/// The first `n` categories bring as many entries to the output as their
/// layers hold.
proof fn lemma_categories_count(
    state: Seq<Seq<LayerContent>>,
    area_order: Seq<LayerId>,
    to_global: Map<LayerId, TSTransform>,
    n: int,
)
    requires
        well_formed(state),
        0 <= n <= ORDER_COUNT,
    ensures
        output_of_categories(state, area_order, to_global, n).len() == entries_in_categories(
            state,
            n,
        ),
    decreases n,
{
    if n > 0 {
        lemma_categories_count(state, area_order, to_global, n - 1);
        lemma_category_count(Order::of_rank((n - 1) as nat), state[n - 1], area_order, to_global);
    }
}

/// A drain returns as many entries as the layers hold when it starts,
/// whatever `area_order` names, twice or not at all, and whatever transforms
/// are registered.
pub proof fn lemma_drain_emits_every_entry(
    state: Seq<Seq<LayerContent>>,
    area_order: Seq<LayerId>,
    to_global: Map<LayerId, TSTransform>,
)
    requires
        well_formed(state),
    ensures
        drain_output(state, area_order, to_global).len() == entries_in_categories(
            state,
            ORDER_COUNT as int,
        ),
{
    lemma_categories_count(state, area_order, to_global, ORDER_COUNT as int);
}

} // verus!
