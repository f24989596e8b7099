//! The shapes of one layer, in the order they were painted.

use crate::shape::{
    noop_shape, rect_transformed, shape_is_noop, shape_transformed, ClippedShape,
};
use epaint::emath::TSTransform;
use epaint::{Rect, Shape};
use vstd::prelude::*;

verus! {

/// The position of a shape in the [`PaintList`] that handed it out.
///
/// It stays valid for that list until the list is emptied.
#[derive(Clone, Copy, Debug, PartialEq, Eq, Structural)]
pub struct ShapeIdx(pub usize);

/// A list of shapes, each paired with a clip rectangle.
///
/// Entries keep their position: adding never moves an earlier entry.
pub struct PaintList(Vec<ClippedShape>);

impl View for PaintList {
    type V = Seq<ClippedShape>;

    closed spec fn view(&self) -> Seq<ClippedShape> {
        self.0@
    }
}

/// `entries` with `transform` applied to every entry from `start` up to, but
/// not including, `end`.
pub open spec fn transformed_range(
    entries: Seq<ClippedShape>,
    start: int,
    end: int,
    transform: TSTransform,
) -> Seq<ClippedShape> {
    Seq::new(
        entries.len(),
        |i: int|
            if start <= i < end {
                entries[i].transformed(transform)
            } else {
                entries[i]
            },
    )
}

/// The index that the next shape added to a list with `entries` gets.
pub open spec fn next_index(entries: Seq<ClippedShape>) -> nat {
    entries.len()
}

/// What an empty list holds after each of `added` was added to it, one after
/// the other.
pub open spec fn after_adds(added: Seq<ClippedShape>) -> Seq<ClippedShape>
    decreases added.len(),
{
    if added.len() == 0 {
        Seq::empty()
    } else {
        after_adds(added.drop_last()).push(added.last())
    }
}

/// Adding to an empty list one after the other: the index that the `n`-th
/// addition gets is the next index just before it, and it is `n - 1`. What
/// was added earlier stays where it is.
pub proof fn lemma_nth_add_gets_index(added: Seq<ClippedShape>, n: int)
    requires
        1 <= n <= added.len(),
    ensures
        next_index(after_adds(added.take(n - 1))) == n - 1,
        after_adds(added.take(n)) == after_adds(added.take(n - 1)).push(added[n - 1]),
        after_adds(added.take(n)) == added.take(n),
    decreases n,
{
    assert(added.take(n).drop_last() =~= added.take(n - 1));
    if n > 1 {
        lemma_nth_add_gets_index(added, n - 1);
    }
}

/// `shapes`, each clipped by `clip_rect`.
pub open spec fn clipped_by(clip_rect: Rect, shapes: Seq<Shape>) -> Seq<ClippedShape> {
    Seq::new(shapes.len(), |i: int| ClippedShape { clip_rect, shape: shapes[i] })
}

impl Default for PaintList {
    fn default() -> (list: Self)
        ensures
            list@ == Seq::<ClippedShape>::empty(),
    {
        PaintList(Vec::new())
    }
}

impl Clone for PaintList {
    fn clone(&self) -> (copy: Self)
        ensures
            copy@ == self@,
    {
        let mut entries: Vec<ClippedShape> = Vec::new();
        let mut i: usize = 0;
        while i < self.0.len()
            invariant
                i <= self.0.len(),
                entries@ == self.0@.subrange(0, i as int),
            decreases self.0.len() - i,
        {
            entries.push(self.0[i].clone());
            i += 1;
        }
        PaintList(entries)
    }
}

impl PaintList {
    /// True iff the list holds no entry.
    pub fn is_empty(&self) -> (empty: bool)
        ensures
            empty == (self@.len() == 0),
    {
        self.0.is_empty()
    }

    /// The index that the next [`PaintList::add`] will return.
    pub fn next_idx(&self) -> (idx: ShapeIdx)
        ensures
            idx.0 == next_index(self@),
    {
        ShapeIdx(self.0.len())
    }

    /// Appends one shape and returns its index, for use with
    /// [`PaintList::set`].
    pub fn add(&mut self, clip_rect: Rect, shape: Shape) -> (idx: ShapeIdx)
        ensures
            idx.0 == next_index(old(self)@),
            final(self)@ == old(self)@.push(ClippedShape { clip_rect, shape }),
            next_index(final(self)@) == idx.0 + 1,
    {
        let idx = self.next_idx();
        self.0.push(ClippedShape { clip_rect, shape });
        idx
    }

    /// Appends every shape of `shapes`, in order, each with the same clip
    /// rectangle.
    pub fn extend(&mut self, clip_rect: Rect, shapes: Vec<Shape>)
        ensures
            final(self)@ == old(self)@ + clipped_by(clip_rect, shapes@),
    {
        let ghost before = self@;
        let ghost all = shapes@;
        for shape in it: shapes
            invariant
                it.seq() == all,
                self@ == before + clipped_by(clip_rect, all.subrange(0, it.index() as int)),
        {
            self.0.push(ClippedShape { clip_rect, shape });
        }
    }

    /// Replaces the entry at `idx`.
    ///
    /// This fills a slot that was reserved earlier with a placeholder, for a
    /// shape whose size is known only after what it frames has been painted.
    /// An index that is out of bounds changes nothing.
    pub fn set(&mut self, idx: ShapeIdx, clip_rect: Rect, shape: Shape)
        ensures
            idx.0 < old(self)@.len() ==> final(self)@ == old(self)@.update(
                idx.0 as int,
                ClippedShape { clip_rect, shape },
            ),
            idx.0 >= old(self)@.len() ==> final(self)@ == old(self)@,
            final(self)@.len() == old(self)@.len(),
            idx.0 < old(self)@.len() ==> final(self)@[idx.0 as int] == (ClippedShape {
                clip_rect,
                shape,
            }),
            forall|i: int|
                0 <= i < old(self)@.len() && i != idx.0 ==> final(self)@[i] == old(self)@[i],
    {
        if self.0.len() <= idx.0 {
            return;
        }
        self.0[idx.0] = ClippedShape { clip_rect, shape };
    }

    /// Replaces the shape at `idx` with the shape that paints nothing, and
    /// keeps its clip rectangle.
    pub fn reset_shape(&mut self, idx: ShapeIdx)
        requires
            idx.0 < old(self)@.len(),
        ensures
            final(self)@.len() == old(self)@.len(),
            final(self)@[idx.0 as int].clip_rect == old(self)@[idx.0 as int].clip_rect,
            shape_is_noop(final(self)@[idx.0 as int].shape),
            forall|i: int|
                0 <= i < old(self)@.len() && i != idx.0 ==> final(self)@[i] == old(self)@[i],
    {
        self.0[idx.0].shape = noop_shape();
    }

    /// Lets `f` edit the entry at `idx` in place. Where `idx` is out of
    /// bounds, `f` is not called and nothing changes.
    pub fn mutate_shape<F: FnOnce(&mut ClippedShape)>(&mut self, idx: ShapeIdx, f: F)
        requires
            idx.0 < old(self)@.len() ==> forall|entry: &mut ClippedShape|
                *entry == old(self)@[idx.0 as int] ==> call_requires(f, (entry,)),
        ensures
            idx.0 >= old(self)@.len() ==> final(self)@ == old(self)@,
            idx.0 < old(self)@.len() ==> exists|entry: &mut ClippedShape|
                {
                    &&& *entry == old(self)@[idx.0 as int]
                    &&& #[trigger] call_ensures(f, (entry,), ())
                    &&& final(self)@ == old(self)@.update(idx.0 as int, *final(entry))
                },
    {
        if idx.0 < self.0.len() {
            f(&mut self.0[idx.0]);
        }
    }

    /// Applies `transform` to the clip rectangle and the shape of every entry.
    pub fn transform(&mut self, transform: TSTransform)
        ensures
            final(self)@ == transformed_range(
                old(self)@,
                0,
                old(self)@.len() as int,
                transform,
            ),
            final(self)@.len() == old(self)@.len(),
            forall|i: int|
                0 <= i < old(self)@.len() ==> {
                    &&& (#[trigger] final(self)@[i]).clip_rect == rect_transformed(
                        transform,
                        old(self)@[i].clip_rect,
                    )
                    &&& final(self)@[i].shape == shape_transformed(old(self)@[i].shape, transform)
                },
    {
        let end = self.next_idx();
        self.transform_range(ShapeIdx(0), end, transform);
    }

    /// Applies `transform` to the clip rectangle and the shape of every entry
    /// from `start` up to, but not including, `end`.
    pub fn transform_range(&mut self, start: ShapeIdx, end: ShapeIdx, transform: TSTransform)
        requires
            start.0 <= end.0 <= old(self)@.len(),
        ensures
            final(self)@ == transformed_range(
                old(self)@,
                start.0 as int,
                end.0 as int,
                transform,
            ),
            final(self)@.len() == old(self)@.len(),
            forall|i: int|
                start.0 <= i < end.0 ==> #[trigger] final(self)@[i] == old(self)@[i].transformed(
                    transform,
                ),
            forall|i: int|
                0 <= i < old(self)@.len() && !(start.0 <= i < end.0) ==> {
                    #[trigger] final(self)@[i] == old(self)@[i]
                },
    {
        let mut i: usize = start.0;
        while i < end.0
            invariant
                start.0 <= i <= end.0 <= self@.len(),
                self@ == transformed_range(old(self)@, start.0 as int, i as int, transform),
            decreases end.0 - i,
        {
            self.0[i].transform(transform);
            i += 1;
        }
    }

    /// Moves all entries to the end of `out`, in order, and leaves the list
    /// empty.
    pub(crate) fn move_into(&mut self, out: &mut Vec<ClippedShape>)
        ensures
            final(self)@ == Seq::<ClippedShape>::empty(),
            final(out)@ == old(out)@ + old(self)@,
    {
        out.append(&mut self.0);
    }

    /// All entries, in the order they were added.
    pub fn all_entries(&self) -> (entries: &[ClippedShape])
        ensures
            entries@ == self@,
    {
        self.0.as_slice()
    }
}

} // verus!
