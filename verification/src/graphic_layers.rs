//! All paint lists of a frame, one per layer, and their flattening into one
//! paint-ready sequence.

use crate::id::Id;
use crate::layer_id::{LayerId, Order, ORDER_COUNT};
use crate::layer_model::{
    category_output, distinct_ids, drain_output, drained, emitted, emptied, entries_of, has_layer,
    in_use, layer_position, lemma_drained_well_formed, lemma_position_is_unique,
    lemma_surviving_distinct, lemma_with_entries_distinct, named_output, named_taken,
    output_of_categories, surviving, unnamed_output, well_formed, with_entries, LayerContent,
};
use crate::layer_transforms::LayerTransforms;
use crate::paint_list::PaintList;
use crate::shape::ClippedShape;
use vstd::prelude::*;

verus! {

struct Layer {
    id: Id,
    list: PaintList,
}

impl Layer {
    spec fn content(self) -> LayerContent {
        LayerContent { id: self.id, entries: self.list@ }
    }
}

spec fn contents(layers: Seq<Layer>) -> Seq<LayerContent> {
    Seq::new(layers.len(), |i: int| layers[i].content())
}

/// Where painted shapes end up during a frame: one [`PaintList`] per layer.
///
/// The layers of a category are kept in the order in which they were
/// created, and no two of them have the same id. A layer that a drain has
/// dropped and that is asked for again is created anew, behind the others.
pub struct GraphicLayers {
    categories: [Vec<Layer>; 5],
}

impl View for GraphicLayers {
    type V = Seq<Seq<LayerContent>>;

    /// For each category, by its rank, the layers in creation order.
    closed spec fn view(&self) -> Seq<Seq<LayerContent>> {
        Seq::new(5, |rank: int| contents(self.categories@[rank]@))
    }
}

/// Removes the layers that hold nothing.
fn prune(layers: &mut Vec<Layer>)
    ensures
        contents(final(layers)@) == surviving(contents(old(layers)@)),
{
    let mut all: Vec<Layer> = Vec::new();
    core::mem::swap(layers, &mut all);
    let ghost before = all@;
    proof {
        reveal(Seq::filter);
    }
    for layer in it: all
        invariant
            it.seq() == before,
            contents(layers@) == surviving(contents(before.take(it.index() as int))),
    {
        proof {
            let i = it.index() as int;
            assert(contents(before.take(i + 1)) =~= contents(before.take(i)).push(
                layer.content(),
            ));
            contents(before.take(i)).lemma_filter_push(layer.content(), in_use());
        }
        if !layer.list.is_empty() {
            layers.push(layer);
        }
    }
    assert(before.take(before.len() as int) =~= before);
}

/// Moves the entries of `layer` to the end of `out`, taken to global space
/// where a transform is registered for the layer.
fn emit_layer(
    layer: &mut Layer,
    order: Order,
    to_global: &LayerTransforms,
    out: &mut Vec<ClippedShape>,
)
    ensures
        final(layer).id == old(layer).id,
        final(layer).list@ == Seq::<ClippedShape>::empty(),
        final(out)@ == old(out)@ + emitted(
            LayerId { order, id: old(layer).id },
            old(layer).list@,
            to_global@,
        ),
{
    if let Some(transform) = to_global.get(LayerId::new(order, layer.id)) {
        layer.list.transform(transform);
    }
    layer.list.move_into(out);
}

/// Drains one category: drops the layers that hold nothing, then moves the
/// entries of the others to the end of `out`.
fn drain_category(
    layers: &mut Vec<Layer>,
    order: Order,
    area_order: &[LayerId],
    to_global: &LayerTransforms,
    out: &mut Vec<ClippedShape>,
)
    requires
        distinct_ids(contents(old(layers)@)),
    ensures
        contents(final(layers)@) == emptied(surviving(contents(old(layers)@))),
        final(out)@ == old(out)@ + category_output(
            order,
            contents(old(layers)@),
            area_order@,
            to_global@,
        ),
{
    prune(layers);
    let ghost survivors = contents(layers@);
    let ghost out_before = out@;
    proof {
        lemma_surviving_distinct(contents(old(layers)@));
    }
    let mut j: usize = 0;
    while j < area_order.len()
        invariant
            j <= area_order@.len(),
            distinct_ids(survivors),
            contents(layers@) == named_taken(order, survivors, area_order@, j as int),
            out@ == out_before + named_output(order, survivors, area_order@, j as int, to_global@),
        decreases area_order@.len() - j,
    {
        let layer_id = area_order[j];
        let ghost taken = named_taken(order, survivors, area_order@, j as int);
        proof {
            assert(has_layer(taken, layer_id.id) <==> has_layer(survivors, layer_id.id)) by {
                if has_layer(taken, layer_id.id) {
                    let p = layer_position(taken, layer_id.id);
                    assert(survivors[p].id == layer_id.id);
                }
                if has_layer(survivors, layer_id.id) {
                    let p = layer_position(survivors, layer_id.id);
                    assert(taken[p].id == layer_id.id);
                }
            }
        }
        let mut found: Option<usize> = None;
        if layer_id.order == order {
            found = position_of(layers, layer_id.id);
        }
        if let Some(k) = found {
            emit_layer(&mut layers[k], order, to_global, out);
            proof {
                assert forall|i: int| 0 <= i < survivors.len() implies #[trigger] contents(
                    layers@,
                )[i] == named_taken(order, survivors, area_order@, j + 1)[i] by {
                    if i != k {
                        assert(layers@[i].content() == taken[i]);
                    }
                }
            }
        }
        j += 1;
    }
    let ghost named = named_output(
        order,
        survivors,
        area_order@,
        area_order@.len() as int,
        to_global@,
    );
    let ghost taken = named_taken(order, survivors, area_order@, area_order@.len() as int);
    let mut k: usize = 0;
    while k < layers.len()
        invariant
            k <= layers@.len(),
            layers@.len() == survivors.len(),
            forall|i: int| 0 <= i < k ==> #[trigger] contents(layers@)[i] == emptied(survivors)[i],
            forall|i: int| k <= i < survivors.len() ==> #[trigger] contents(layers@)[i] == taken[i],
            taken == named_taken(order, survivors, area_order@, area_order@.len() as int),
            out@ == out_before + named + unnamed_output(
                order,
                survivors,
                area_order@,
                k as int,
                to_global@,
            ),
        decreases layers@.len() - k,
    {
        let ghost before = layers@;
        proof {
            assert(contents(layers@)[k as int] == taken[k as int]);
        }
        emit_layer(&mut layers[k], order, to_global, out);
        proof {
            assert forall|i: int| 0 <= i < k + 1 implies #[trigger] contents(layers@)[i]
                == emptied(survivors)[i] by {
                if i < k {
                    assert(contents(before)[i] == emptied(survivors)[i]);
                }
            }
            assert forall|i: int| k + 1 <= i < survivors.len() implies #[trigger] contents(
                layers@,
            )[i] == taken[i] by {
                assert(contents(before)[i] == taken[i]);
            }
        }
        k += 1;
    }
}

/// The position in `layers` of the layer with the id `id`.
fn position_of(layers: &Vec<Layer>, id: Id) -> (position: Option<usize>)
    requires
        distinct_ids(contents(layers@)),
    ensures
        position is Some <==> has_layer(contents(layers@), id),
        position matches Some(k) ==> k < layers@.len() && k == layer_position(
            contents(layers@),
            id,
        ),
{
    let mut k: usize = 0;
    while k < layers.len()
        invariant
            k <= layers@.len(),
            distinct_ids(contents(layers@)),
            forall|i: int| 0 <= i < k ==> (#[trigger] contents(layers@)[i]).id != id,
        decreases layers@.len() - k,
    {
        if layers[k].id == id {
            proof {
                lemma_position_is_unique(contents(layers@), k as int);
            }
            return Some(k);
        }
        k += 1;
    }
    None
}

/// The paint list of the layer at position `k`, which has the id `id`.
fn list_at(layers: &mut Vec<Layer>, id: Id, k: usize) -> (list: &mut PaintList)
    requires
        distinct_ids(contents(old(layers)@)),
        k < old(layers)@.len(),
        old(layers)@[k as int].id == id,
    ensures
        list@ == old(layers)@[k as int].list@,
        contents(final(layers)@) == with_entries(contents(old(layers)@), id, final(list)@),
{
    proof {
        lemma_position_is_unique(contents(layers@), k as int);
    }
    &mut layers[k].list
}

/// The paint list of the layer with the id `id` among `layers`. A layer that
/// is not there yet is added, with an empty list.
fn list_of(layers: &mut Vec<Layer>, id: Id) -> (list: &mut PaintList)
    requires
        distinct_ids(contents(old(layers)@)),
    ensures
        list@ == entries_of(contents(old(layers)@), id),
        contents(final(layers)@) == with_entries(contents(old(layers)@), id, final(list)@),
{
    match position_of(layers, id) {
        Some(k) => list_at(layers, id, k),
        None => {
            let ghost before = contents(layers@);
            layers.push(Layer { id, list: PaintList::default() });
            let k = layers.len() - 1;
            proof {
                assert(contents(layers@) =~= with_entries(before, id, Seq::empty()));
                lemma_position_is_unique(contents(layers@), k as int);
            }
            list_at(layers, id, k)
        },
    }
}

/// A copy of the layers of one category.
fn clone_category(layers: &Vec<Layer>) -> (copy: Vec<Layer>)
    ensures
        contents(copy@) == contents(layers@),
{
    let mut copy: Vec<Layer> = Vec::new();
    let mut k: usize = 0;
    while k < layers.len()
        invariant
            k <= layers@.len(),
            copy@.len() == k,
            contents(copy@) == contents(layers@.take(k as int)),
        decreases layers@.len() - k,
    {
        let ghost before = copy@;
        let layer = &layers[k];
        let twin = Layer { id: layer.id, list: layer.list.clone() };
        copy.push(twin);
        assert forall|i: int| 0 <= i < k + 1 implies #[trigger] contents(copy@)[i] == contents(
            layers@.take(k + 1),
        )[i] by {
            if i < k {
                assert(contents(before)[i] == contents(layers@.take(k as int))[i]);
            }
        }
        k += 1;
    }
    copy
}

impl Default for GraphicLayers {
    fn default() -> (layers: Self)
        ensures
            layers.wf(),
            forall|rank: int| 0 <= rank < ORDER_COUNT ==> (#[trigger] layers@[rank]).len() == 0,
    {
        GraphicLayers::new()
    }
}

impl Clone for GraphicLayers {
    fn clone(&self) -> (copy: Self)
        ensures
            copy@ == self@,
    {
        GraphicLayers {
            categories: [
                clone_category(&self.categories[0]),
                clone_category(&self.categories[1]),
                clone_category(&self.categories[2]),
                clone_category(&self.categories[3]),
                clone_category(&self.categories[4]),
            ],
        }
    }
}

impl GraphicLayers {
    /// The layers of the category `order`, in creation order.
    pub open spec fn layers(&self, order: Order) -> Seq<LayerContent> {
        self@[order.rank() as int]
    }

    /// The invariant of the structure.
    pub open spec fn wf(&self) -> bool {
        well_formed(self@)
    }

    /// What keeps the structure well formed when the entries of one layer
    /// change: the ids of every category are distinct, and stay so in the
    /// category of `layer_id` whatever its entries become.
    proof fn lemma_stays_well_formed(self, layer_id: LayerId)
        requires
            self.wf(),
        ensures
            forall|rank: int|
                0 <= rank < ORDER_COUNT ==> distinct_ids(
                    #[trigger] contents(self.categories@[rank]@),
                ),
            forall|entries: Seq<ClippedShape>|
                distinct_ids(
                    #[trigger] with_entries(
                        contents(self.categories@[layer_id.order.rank() as int]@),
                        layer_id.id,
                        entries,
                    ),
                ),
    {
        assert forall|rank: int| 0 <= rank < ORDER_COUNT implies distinct_ids(
            #[trigger] contents(self.categories@[rank]@),
        ) by {
            assert(self@[rank] == contents(self.categories@[rank]@));
        }
        assert forall|entries: Seq<ClippedShape>|
            distinct_ids(
                #[trigger] with_entries(
                    contents(self.categories@[layer_id.order.rank() as int]@),
                    layer_id.id,
                    entries,
                ),
            ) by {
            lemma_with_entries_distinct(
                contents(self.categories@[layer_id.order.rank() as int]@),
                layer_id.id,
                entries,
            );
        }
    }

    /// No layer at all.
    pub fn new() -> (layers: Self)
        ensures
            layers.wf(),
            forall|rank: int| 0 <= rank < ORDER_COUNT ==> (#[trigger] layers@[rank]).len() == 0,
    {
        GraphicLayers { categories: [Vec::new(), Vec::new(), Vec::new(), Vec::new(), Vec::new()] }
    }

    /// The paint list of `layer_id`. One that is not there yet is created
    /// empty.
    pub fn entry(&mut self, layer_id: LayerId) -> (list: &mut PaintList)
        requires
            old(self).wf(),
        ensures
            list@ == entries_of(old(self).layers(layer_id.order), layer_id.id),
            final(self)@ == old(self)@.update(
                layer_id.order.rank() as int,
                with_entries(old(self).layers(layer_id.order), layer_id.id, final(list)@),
            ),
            final(self).wf(),
    {
        let rank = layer_id.order.index();
        proof {
            self.lemma_stays_well_formed(layer_id);
        }
        list_of(&mut self.categories[rank], layer_id.id)
    }

    /// The paint list of `layer_id`, which is at position `k` of its
    /// category.
    fn entry_at(&mut self, layer_id: LayerId, k: usize) -> (list: &mut PaintList)
        requires
            old(self).wf(),
            k < old(self).layers(layer_id.order).len(),
            old(self).layers(layer_id.order)[k as int].id == layer_id.id,
        ensures
            list@ == entries_of(old(self).layers(layer_id.order), layer_id.id),
            final(self)@ == old(self)@.update(
                layer_id.order.rank() as int,
                with_entries(old(self).layers(layer_id.order), layer_id.id, final(list)@),
            ),
            final(self).wf(),
    {
        let rank = layer_id.order.index();
        proof {
            self.lemma_stays_well_formed(layer_id);
        }
        list_at(&mut self.categories[rank], layer_id.id, k)
    }

    /// The paint list of `layer_id`, if the layer is there.
    pub fn get(&self, layer_id: LayerId) -> (found: Option<&PaintList>)
        requires
            self.wf(),
        ensures
            found is Some <==> has_layer(self.layers(layer_id.order), layer_id.id),
            found matches Some(list) ==> list@ == entries_of(
                self.layers(layer_id.order),
                layer_id.id,
            ),
    {
        let rank = layer_id.order.index();
        assert(self@[rank as int] == contents(self.categories@[rank as int]@));
        let category = &self.categories[rank];
        match position_of(category, layer_id.id) {
            Some(k) => Some(&category[k].list),
            None => None,
        }
    }

    /// The paint list of `layer_id`, if the layer is there, for changing it.
    pub fn get_mut(&mut self, layer_id: LayerId) -> (found: Option<&mut PaintList>)
        requires
            old(self).wf(),
        ensures
            found is Some <==> has_layer(old(self).layers(layer_id.order), layer_id.id),
            found matches Some(list) ==> list@ == entries_of(
                old(self).layers(layer_id.order),
                layer_id.id,
            ),
            found matches Some(list) ==> final(self)@ == old(self)@.update(
                layer_id.order.rank() as int,
                with_entries(old(self).layers(layer_id.order), layer_id.id, final(list)@),
            ),
            found is None ==> final(self)@ == old(self)@,
            final(self).wf(),
    {
        let rank = layer_id.order.index();
        assert(old(self)@[rank as int] == contents(self.categories@[rank as int]@));
        match position_of(&self.categories[rank], layer_id.id) {
            Some(k) => Some(self.entry_at(layer_id, k)),
            None => None,
        }
    }

    /// Ends the frame: returns all shapes in paint order and leaves every
    /// remaining layer empty.
    ///
    /// The categories come in paint order. Within a category, a layer that
    /// holds nothing, because nothing was painted to it since the drain
    /// before, is dropped. Then come the layers that `area_order` names, in
    /// the order in which it names them, and after them the other layers in
    /// the order of their creation. Where `to_global` has a transform for a
    /// layer, the clip rectangle and the shape of each of its entries are
    /// taken to global space by it.
    pub fn drain(&mut self, area_order: &[LayerId], to_global: &LayerTransforms) -> (shapes: Vec<
        ClippedShape,
    >)
        requires
            old(self).wf(),
        ensures
            shapes@ == drain_output(old(self)@, area_order@, to_global@),
            final(self)@ == drained(old(self)@),
            final(self).wf(),
    {
        let mut all_shapes: Vec<ClippedShape> = Vec::new();
        let mut rank: usize = 0;
        proof {
            lemma_drained_well_formed(old(self)@);
        }
        while rank < ORDER_COUNT
            invariant
                rank <= ORDER_COUNT,
                old(self).wf(),
                self@.len() == ORDER_COUNT,
                forall|r: int| 0 <= r < rank ==> #[trigger] self@[r] == drained(old(self)@)[r],
                forall|r: int| rank <= r < ORDER_COUNT ==> #[trigger] self@[r] == old(self)@[r],
                all_shapes@ == output_of_categories(
                    old(self)@,
                    area_order@,
                    to_global@,
                    rank as int,
                ),
            decreases ORDER_COUNT - rank,
        {
            let ghost before = self@;
            let ghost shapes_before = all_shapes@;
            assert(self@[rank as int] == contents(self.categories@[rank as int]@));
            drain_category(
                &mut self.categories[rank],
                Order::from_index(rank),
                area_order,
                to_global,
                &mut all_shapes,
            );
            proof {
                assert forall|r: int| 0 <= r < rank + 1 implies #[trigger] self@[r] == drained(
                    old(self)@,
                )[r] by {
                    if r < rank {
                        assert(self@[r] == before[r]);
                    }
                }
                assert forall|r: int| rank + 1 <= r < ORDER_COUNT implies #[trigger] self@[r]
                    == old(self)@[r] by {
                    assert(self@[r] == before[r]);
                }
            }
            rank += 1;
        }
        all_shapes
    }
}

} // verus!
