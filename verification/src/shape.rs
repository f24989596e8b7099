//! The drawable payload of a paint list and the geometry that moves it.
//!
//! Shapes, rectangles and transforms are `epaint` values. The verifier does
//! not look inside them: it carries them through and knows of the two
//! geometric operations only that each is a function of its arguments.

use epaint::emath::TSTransform;
use epaint::{Rect, Shape};
use vstd::prelude::*;

verus! {

/// `epaint::Shape`, a paint primitive such as a circle or a piece of text.
/// Nothing inside it is visible to the verifier.
#[verifier::external_type_specification]
#[verifier::external_body]
pub struct ExShape(epaint::Shape);

/// `epaint::emath::Rect`, a rectangle given by two corners. Nothing inside
/// it is visible to the verifier.
#[verifier::external_type_specification]
#[verifier::external_body]
pub struct ExRect(epaint::emath::Rect);

/// `epaint::emath::TSTransform`, a scaling followed by a shift. Nothing
/// inside it is visible to the verifier.
#[verifier::external_type_specification]
#[verifier::external_body]
pub struct ExTSTransform(epaint::emath::TSTransform);

/// The rectangle that `TSTransform::mul_rect` gives for `rect` under
/// `transform`.
pub uninterp spec fn rect_transformed(transform: TSTransform, rect: Rect) -> Rect;

/// The shape that `Shape::transform` leaves behind when it is applied to
/// `shape` with `transform`.
pub uninterp spec fn shape_transformed(shape: Shape, transform: TSTransform) -> Shape;

/// `TSTransform::mul_rect` scales and then shifts both corners of the
/// rectangle. The contract only names that result.
pub assume_specification[ TSTransform::mul_rect ](transform: &TSTransform, rect: Rect) -> (moved:
    Rect)
    ensures
        moved == rect_transformed(*transform, rect),
;

/// `Shape::transform` moves and scales a shape in place. The contract only
/// names what it leaves behind.
pub assume_specification[ Shape::transform ](shape: &mut Shape, transform: TSTransform)
    ensures
        *final(shape) == shape_transformed(*old(shape), transform),
;

/// Whether `shape` is the shape that paints nothing, `Shape::Noop`.
pub uninterp spec fn shape_is_noop(shape: Shape) -> bool;

/// Builds `Shape::Noop`, the placeholder that paints nothing.
#[verifier::external_body]
pub(crate) fn noop_shape() -> (shape: Shape)
    ensures
        shape_is_noop(shape),
{
    Shape::Noop
}

/// Cloning a shape gives an equal shape: `Clone` is derived for `Shape` and
/// for everything it holds.
pub assume_specification[ <Shape as Clone>::clone ](shape: &Shape) -> (copy: Shape)
    ensures
        copy == *shape,
;

/// A shape together with the rectangle that clips it.
#[derive(Debug, PartialEq)]
pub struct ClippedShape {
    /// Only the part of the shape inside this rectangle is shown.
    pub clip_rect: Rect,
    /// The shape itself.
    pub shape: Shape,
}

impl Clone for ClippedShape {
    fn clone(&self) -> (copy: Self)
        ensures
            copy == *self,
    {
        ClippedShape { clip_rect: self.clip_rect, shape: self.shape.clone() }
    }
}

impl ClippedShape {
    /// What this entry is after `transform` has been applied to both its clip
    /// rectangle and its shape.
    pub open spec fn transformed(self, transform: TSTransform) -> ClippedShape {
        ClippedShape {
            clip_rect: rect_transformed(transform, self.clip_rect),
            shape: shape_transformed(self.shape, transform),
        }
    }

    /// Applies `transform` to the clip rectangle and to the shape, in place.
    pub fn transform(&mut self, transform: TSTransform)
        ensures
            *final(self) == old(self).transformed(transform),
    {
        self.clip_rect = transform.mul_rect(self.clip_rect);
        self.shape.transform(transform);
    }
}

} // verus!
