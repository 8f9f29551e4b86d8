use vstd::prelude::*;
use crate::point::{Point, in_i32, trunc_div, div_toward_zero};
use crate::size::Size;

verus! {

/// An axis-aligned rectangle: its top-left corner and its extent.
#[derive(Debug, Copy, Clone, PartialEq, Eq, Structural)]
pub struct Rectangle<T> {
    pub x: T,
    pub y: T,
    pub width: T,
    pub height: T,
}

impl<T> Rectangle<T> {
    pub fn new(x: T, y: T, width: T, height: T) -> (r: Self)
        ensures
            r == (Rectangle { x, y, width, height }),
    {
        Self { x, y, width, height }
    }

    pub fn from_point(point: Point<T>, width: T, height: T) -> (r: Self)
        ensures
            r == (Rectangle { x: point.x, y: point.y, width, height }),
    {
        Self { x: point.x, y: point.y, width, height }
    }

    pub fn from_size(x: T, y: T, size: Size<T>) -> (r: Self)
        ensures
            r == (Rectangle { x, y, width: size.width, height: size.height }),
    {
        Self { x, y, width: size.width, height: size.height }
    }

    pub fn from_point_size(point: Point<T>, size: Size<T>) -> (r: Self)
        ensures
            r == (Rectangle { x: point.x, y: point.y, width: size.width, height: size.height }),
    {
        Self { x: point.x, y: point.y, width: size.width, height: size.height }
    }
}

impl<T: Copy> Rectangle<T> {
    pub fn size(&self) -> (r: Size<T>)
        ensures
            r.width == self.width,
            r.height == self.height,
    {
        Size { width: self.width, height: self.height }
    }
}

impl Rectangle<i32> {
    pub open spec fn right(self) -> int {
        self.x + self.width
    }

    pub open spec fn bottom(self) -> int {
        self.y + self.height
    }

    pub open spec fn area_spec(self) -> int {
        self.width * self.height
    }

    /// True when the point lies inside, the right and bottom edges excluded.
    pub open spec fn holds_point(self, p: Point<i32>) -> bool {
        self.x <= p.x < self.right() && self.y <= p.y < self.bottom()
    }

    /// True when `r` lies wholly inside.
    pub open spec fn holds_rectangle(self, r: Rectangle<i32>) -> bool {
        self.x <= r.x && self.y <= r.y && r.right() <= self.right() && r.bottom() <= self.bottom()
    }

    pub fn contains_point(&self, point: Point<i32>) -> (r: bool)
        ensures
            r == self.holds_point(point),
    {
        let right = self.x as i64 + self.width as i64;
        let bottom = self.y as i64 + self.height as i64;
        point.x >= self.x && point.y >= self.y && (point.x as i64) < right && (point.y as i64) < bottom
    }

    pub fn contains_rectangle(&self, rectangle: Rectangle<i32>) -> (r: bool)
        ensures
            r == self.holds_rectangle(rectangle),
    {
        let right = self.x as i64 + self.width as i64;
        let bottom = self.y as i64 + self.height as i64;
        rectangle.x >= self.x && rectangle.y >= self.y
            && rectangle.x as i64 + rectangle.width as i64 <= right
            && rectangle.y as i64 + rectangle.height as i64 <= bottom
    }

    /// What `intersection` returns: the overlap of the two rectangles, or an
    /// empty rectangle at `self`'s corner when they are apart.
    pub open spec fn intersection_spec(self, o: Rectangle<i32>) -> Rectangle<i32> {
        if o.x > self.right() || o.right() < self.x || o.y > self.bottom() || o.bottom() < self.y {
            Rectangle { x: self.x, y: self.y, width: 0, height: 0 }
        } else {
            let x = if self.x >= o.x { self.x } else { o.x };
            let y = if self.y >= o.y { self.y } else { o.y };
            let r = if self.right() <= o.right() { self.right() } else { o.right() };
            let b = if self.bottom() <= o.bottom() { self.bottom() } else { o.bottom() };
            Rectangle { x, y, width: (r - x) as i32, height: (b - y) as i32 }
        }
    }

    pub fn intersection(&self, other: Rectangle<i32>) -> (r: Rectangle<i32>)
        requires
            in_i32(self.right()),
            in_i32(self.bottom()),
            in_i32(other.right()),
            in_i32(other.bottom()),
        ensures
            r == self.intersection_spec(other),
    {
        let right = self.x as i64 + self.width as i64;
        let bottom = self.y as i64 + self.height as i64;
        let other_right = other.x as i64 + other.width as i64;
        let other_bottom = other.y as i64 + other.height as i64;
        if other.x as i64 > right || other_right < self.x as i64 || other.y as i64 > bottom
            || other_bottom < self.y as i64 {
            return Rectangle { x: self.x, y: self.y, width: 0, height: 0 };
        }
        let x = if self.x >= other.x { self.x } else { other.x };
        let y = if self.y >= other.y { self.y } else { other.y };
        let r = if right <= other_right { right } else { other_right };
        let b = if bottom <= other_bottom { bottom } else { other_bottom };
        Rectangle { x, y, width: (r - x as i64) as i32, height: (b - y as i64) as i32 }
    }

    pub fn area(&self) -> (r: i32)
        requires
            in_i32(self.area_spec()),
        ensures
            r == self.area_spec(),
    {
        self.width * self.height
    }
}

impl core::ops::Add for Rectangle<i32> {
    type Output = Self;

    fn add(self, o: Self) -> (r: Self) {
        Self {
            x: self.x + o.x,
            y: self.y + o.y,
            width: self.width + o.width,
            height: self.height + o.height,
        }
    }
}

impl vstd::std_specs::ops::AddSpecImpl for Rectangle<i32> {
    open spec fn obeys_add_spec() -> bool {
        true
    }

    open spec fn add_req(self, o: Self) -> bool {
        in_i32(self.x + o.x) && in_i32(self.y + o.y) && in_i32(self.width + o.width)
            && in_i32(self.height + o.height)
    }

    open spec fn add_spec(self, o: Self) -> Self {
        Rectangle {
            x: (self.x + o.x) as i32,
            y: (self.y + o.y) as i32,
            width: (self.width + o.width) as i32,
            height: (self.height + o.height) as i32,
        }
    }
}

impl core::ops::Sub for Rectangle<i32> {
    type Output = Self;

    fn sub(self, o: Self) -> (r: Self) {
        Self {
            x: self.x - o.x,
            y: self.y - o.y,
            width: self.width - o.width,
            height: self.height - o.height,
        }
    }
}

impl vstd::std_specs::ops::SubSpecImpl for Rectangle<i32> {
    open spec fn obeys_sub_spec() -> bool {
        true
    }

    open spec fn sub_req(self, o: Self) -> bool {
        in_i32(self.x - o.x) && in_i32(self.y - o.y) && in_i32(self.width - o.width)
            && in_i32(self.height - o.height)
    }

    open spec fn sub_spec(self, o: Self) -> Self {
        Rectangle {
            x: (self.x - o.x) as i32,
            y: (self.y - o.y) as i32,
            width: (self.width - o.width) as i32,
            height: (self.height - o.height) as i32,
        }
    }
}

impl core::ops::Mul for Rectangle<i32> {
    type Output = Self;

    fn mul(self, o: Self) -> (r: Self) {
        Self {
            x: self.x * o.x,
            y: self.y * o.y,
            width: self.width * o.width,
            height: self.height * o.height,
        }
    }
}

impl vstd::std_specs::ops::MulSpecImpl for Rectangle<i32> {
    open spec fn obeys_mul_spec() -> bool {
        true
    }

    open spec fn mul_req(self, o: Self) -> bool {
        in_i32(self.x * o.x) && in_i32(self.y * o.y) && in_i32(self.width * o.width)
            && in_i32(self.height * o.height)
    }

    open spec fn mul_spec(self, o: Self) -> Self {
        Rectangle {
            x: (self.x * o.x) as i32,
            y: (self.y * o.y) as i32,
            width: (self.width * o.width) as i32,
            height: (self.height * o.height) as i32,
        }
    }
}

impl core::ops::Div for Rectangle<i32> {
    type Output = Self;

    fn div(self, o: Self) -> (r: Self) {
        Self {
            x: div_toward_zero(self.x, o.x),
            y: div_toward_zero(self.y, o.y),
            width: div_toward_zero(self.width, o.width),
            height: div_toward_zero(self.height, o.height),
        }
    }
}

/// For rectangles of non-negative size, the intersection holds exactly the
/// points that both rectangles hold.
pub proof fn lemma_intersection_holds_common_points(a: Rectangle<i32>, b: Rectangle<i32>, p: Point<i32>)
    requires
        a.width >= 0,
        a.height >= 0,
        b.width >= 0,
        b.height >= 0,
        in_i32(a.right()),
        in_i32(a.bottom()),
        in_i32(b.right()),
        in_i32(b.bottom()),
    ensures
        a.intersection_spec(b).holds_point(p) <==> a.holds_point(p) && b.holds_point(p),
{
}

/// `a / b` is defined on `i32` and does not overflow.
pub open spec fn divisible(a: i32, b: i32) -> bool {
    b != 0 && !(a == i32::MIN && b == -1)
}

impl vstd::std_specs::ops::DivSpecImpl for Rectangle<i32> {
    open spec fn obeys_div_spec() -> bool {
        true
    }

    open spec fn div_req(self, o: Self) -> bool {
        divisible(self.x, o.x) && divisible(self.y, o.y) && divisible(self.width, o.width)
            && divisible(self.height, o.height)
    }

    open spec fn div_spec(self, o: Self) -> Self {
        Rectangle {
            x: trunc_div(self.x as int, o.x as int) as i32,
            y: trunc_div(self.y as int, o.y as int) as i32,
            width: trunc_div(self.width as int, o.width as int) as i32,
            height: trunc_div(self.height as int, o.height as int) as i32,
        }
    }
}

} // verus!
