use vstd::prelude::*;
use crate::point::{Point, in_i32, trunc_div, div_toward_zero};

verus! {

/// A width and a height.
#[derive(Debug, Copy, Clone, PartialEq, Eq, Structural)]
pub struct Size<T> {
    pub width: T,
    pub height: T,
}

impl<T> Size<T> {
    pub fn new(width: T, height: T) -> (r: Self)
        ensures
            r.width == width,
            r.height == height,
    {
        Self { width, height }
    }
}

/// Relies on num::abs, which for a signed integer returns `-v` when `v` is
/// negative and `v` otherwise; it overflows on the smallest value.
#[verifier::external_body]
fn abs_i64(v: i64) -> (r: i64)
    requires
        v != i64::MIN,
    ensures
        r == if v < 0 { -v } else { v as int },
{
    num::abs(v)
}

impl Size<i32> {
    /// The size of the box spanned by two corner points.
    pub fn from_points(first: Point<i32>, second: Point<i32>) -> (r: Self)
        requires
            in_i32(first.x - second.x),
            in_i32(first.y - second.y),
            first.x - second.x != i32::MIN,
            first.y - second.y != i32::MIN,
        ensures
            r.width == vstd::math::abs(first.x - second.x),
            r.height == vstd::math::abs(first.y - second.y),
    {
        let width = abs_i64(first.x as i64 - second.x as i64);
        let height = abs_i64(first.y as i64 - second.y as i64);
        Self { width: width as i32, height: height as i32 }
    }

    pub open spec fn area_spec(self) -> int {
        self.width * self.height
    }

    pub fn area(&self) -> (r: i32)
        requires
            in_i32(self.area_spec()),
        ensures
            r == self.area_spec(),
    {
        self.width * self.height
    }
}

impl core::ops::Add for Size<i32> {
    type Output = Self;

    fn add(self, other: Self) -> (r: Self) {
        Self { width: self.width + other.width, height: self.height + other.height }
    }
}

impl vstd::std_specs::ops::AddSpecImpl for Size<i32> {
    open spec fn obeys_add_spec() -> bool {
        true
    }

    open spec fn add_req(self, other: Self) -> bool {
        in_i32(self.width + other.width) && in_i32(self.height + other.height)
    }

    open spec fn add_spec(self, other: Self) -> Self {
        Size { width: (self.width + other.width) as i32, height: (self.height + other.height) as i32 }
    }
}

impl core::ops::Sub for Size<i32> {
    type Output = Self;

    fn sub(self, other: Self) -> (r: Self) {
        Self { width: self.width - other.width, height: self.height - other.height }
    }
}

impl vstd::std_specs::ops::SubSpecImpl for Size<i32> {
    open spec fn obeys_sub_spec() -> bool {
        true
    }

    open spec fn sub_req(self, other: Self) -> bool {
        in_i32(self.width - other.width) && in_i32(self.height - other.height)
    }

    open spec fn sub_spec(self, other: Self) -> Self {
        Size { width: (self.width - other.width) as i32, height: (self.height - other.height) as i32 }
    }
}

impl core::ops::Mul for Size<i32> {
    type Output = Self;

    fn mul(self, other: Self) -> (r: Self) {
        Self { width: self.width * other.width, height: self.height * other.height }
    }
}

impl vstd::std_specs::ops::MulSpecImpl for Size<i32> {
    open spec fn obeys_mul_spec() -> bool {
        true
    }

    open spec fn mul_req(self, other: Self) -> bool {
        in_i32(self.width * other.width) && in_i32(self.height * other.height)
    }

    open spec fn mul_spec(self, other: Self) -> Self {
        Size { width: (self.width * other.width) as i32, height: (self.height * other.height) as i32 }
    }
}

impl core::ops::Div for Size<i32> {
    type Output = Self;

    fn div(self, other: Self) -> (r: Self) {
        Self {
            width: div_toward_zero(self.width, other.width),
            height: div_toward_zero(self.height, other.height),
        }
    }
}

impl vstd::std_specs::ops::DivSpecImpl for Size<i32> {
    open spec fn obeys_div_spec() -> bool {
        true
    }

    open spec fn div_req(self, other: Self) -> bool {
        other.width != 0 && other.height != 0 && !(self.width == i32::MIN && other.width == -1)
            && !(self.height == i32::MIN && other.height == -1)
    }

    open spec fn div_spec(self, other: Self) -> Self {
        Size {
            width: trunc_div(self.width as int, other.width as int) as i32,
            height: trunc_div(self.height as int, other.height as int) as i32,
        }
    }
}

} // verus!
