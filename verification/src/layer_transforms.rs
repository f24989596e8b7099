//! The placement of layers in the shared global space.

use crate::id::Id;
use crate::layer_id::LayerId;
use epaint::emath::TSTransform;
use std::collections::HashMap;
use vstd::prelude::*;

verus! {

broadcast use vstd::std_specs::hash::group_hash_axioms;

/// For each layer that lives in a space of its own, the transform that takes
/// its space to the global one. A layer without a transform is in global
/// space already.
pub struct LayerTransforms {
    by_order: [HashMap<u64, TSTransform>; 5],
}

impl View for LayerTransforms {
    type V = Map<LayerId, TSTransform>;

    closed spec fn view(&self) -> Map<LayerId, TSTransform> {
        Map::new(
            |layer_id: LayerId|
                self.by_order@[layer_id.order.rank() as int]@.contains_key(layer_id.id@),
            |layer_id: LayerId| self.by_order@[layer_id.order.rank() as int]@[layer_id.id@],
        )
    }
}

impl Default for LayerTransforms {
    fn default() -> (transforms: Self)
        ensures
            transforms@ == Map::<LayerId, TSTransform>::empty(),
    {
        LayerTransforms::new()
    }
}

impl LayerTransforms {
    /// No layer has a transform.
    pub fn new() -> (transforms: Self)
        ensures
            transforms@ == Map::<LayerId, TSTransform>::empty(),
    {
        LayerTransforms {
            by_order: [
                HashMap::new(),
                HashMap::new(),
                HashMap::new(),
                HashMap::new(),
                HashMap::new(),
            ],
        }
    }

    /// Registers `transform` for `layer_id` and returns the transform that
    /// was registered for it before, if any.
    pub fn insert(&mut self, layer_id: LayerId, transform: TSTransform) -> (previous: Option<
        TSTransform,
    >)
        ensures
            final(self)@ == old(self)@.insert(layer_id, transform),
            previous == (if old(self)@.contains_key(layer_id) {
                Some(old(self)@[layer_id])
            } else {
                None::<TSTransform>
            }),
    {
        broadcast use Id::lemma_same_value_same_id;

        self.by_order[layer_id.order.index()].insert(layer_id.id.value(), transform)
    }

    /// The transform registered for `layer_id`, if any.
    pub fn get(&self, layer_id: LayerId) -> (transform: Option<TSTransform>)
        ensures
            transform == (if self@.contains_key(layer_id) {
                Some(self@[layer_id])
            } else {
                None::<TSTransform>
            }),
    {
        let key = layer_id.id.value();
        match self.by_order[layer_id.order.index()].get(&key) {
            Some(transform) => Some(*transform),
            None => None,
        }
    }
}

} // verus!
