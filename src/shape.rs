use vstd::prelude::*;
use crate::point::Point;
use crate::rectangle::Rectangle;

verus! {

/// A shape that can lie inside another.
pub trait Within<T> {
    fn within(&self, other: T) -> bool;
}

/// A shape with a position.
pub trait Coordinate<T> {
    type X;
    type Y;

    fn position(&self) -> (T, T);
}

/// A shape with an extent.
pub trait Dimension<T> {
    type Width;
    type Height;
}

impl Within<Rectangle<i32>> for Point<i32> {
    /// Whether the point lies inside `other`.
    fn within(&self, other: Rectangle<i32>) -> bool {
        other.contains_point(*self)
    }
}

impl Within<Rectangle<i32>> for Rectangle<i32> {
    /// Whether this rectangle lies wholly inside `other`.
    fn within(&self, other: Rectangle<i32>) -> bool {
        other.contains_rectangle(*self)
    }
}

impl Coordinate<i32> for Point<i32> {
    type X = i32;
    type Y = i32;

    fn position(&self) -> (i32, i32) {
        (self.x, self.y)
    }
}

impl Coordinate<i32> for Rectangle<i32> {
    type X = i32;
    type Y = i32;

    fn position(&self) -> (i32, i32) {
        (self.x, self.y)
    }
}

impl Dimension<i32> for Rectangle<i32> {
    type Width = i32;
    type Height = i32;
}

} // verus!
