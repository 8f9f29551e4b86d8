use vstd::prelude::*;
use vstd::math::abs;

verus! {

/// A position in 2D space.
#[derive(Debug, Copy, Clone, PartialEq, Eq, Structural)]
pub struct Point<T> {
    pub x: T,
    pub y: T,
}

impl<T> Point<T> {
    pub fn new(x: T, y: T) -> (r: Self)
        ensures
            r.x == x,
            r.y == y,
    {
        Self { x, y }
    }
}

/// True when `v` fits in an `i32`.
pub open spec fn in_i32(v: int) -> bool {
    i32::MIN <= v <= i32::MAX
}

impl core::ops::Add for Point<i32> {
    type Output = Self;

    fn add(self, other: Self) -> (r: Self) {
        Self { x: self.x + other.x, y: self.y + other.y }
    }
}

impl vstd::std_specs::ops::AddSpecImpl for Point<i32> {
    open spec fn obeys_add_spec() -> bool {
        true
    }

    open spec fn add_req(self, other: Self) -> bool {
        in_i32(self.x + other.x) && in_i32(self.y + other.y)
    }

    open spec fn add_spec(self, other: Self) -> Self {
        Point { x: (self.x + other.x) as i32, y: (self.y + other.y) as i32 }
    }
}

impl core::ops::Div for Point<i32> {
    type Output = Self;

    fn div(self, other: Self) -> (r: Self) {
        Self { x: div_toward_zero(self.x, other.x), y: div_toward_zero(self.y, other.y) }
    }
}

impl vstd::std_specs::ops::DivSpecImpl for Point<i32> {
    open spec fn obeys_div_spec() -> bool {
        true
    }

    open spec fn div_req(self, other: Self) -> bool {
        other.x != 0 && other.y != 0 && !(self.x == i32::MIN && other.x == -1)
            && !(self.y == i32::MIN && other.y == -1)
    }

    open spec fn div_spec(self, other: Self) -> Self {
        Point { x: trunc_div(self.x as int, other.x as int) as i32, y: trunc_div(self.y as int, other.y as int) as i32 }
    }
}

/// Integer division rounding toward zero, as Rust's `/` on signed integers.
pub open spec fn trunc_div(a: int, b: int) -> int {
    let q = (abs(a) / abs(b)) as int;
    if (a < 0) != (b < 0) { -q } else { q }
}

/// `a / b` rounded toward zero, computed on magnitudes.
pub fn div_toward_zero(a: i32, b: i32) -> (r: i32)
    requires
        b != 0,
        !(a == i32::MIN && b == -1),
    ensures
        r == trunc_div(a as int, b as int),
{
    let ua: i64 = if a < 0 { -(a as i64) } else { a as i64 };
    let ub: i64 = if b < 0 { -(b as i64) } else { b as i64 };
    let q: i64 = ua / ub;
    proof {
        assert(q <= ua) by (nonlinear_arith)
            requires
                q == ua / ub,
                ua >= 0,
                ub >= 1,
            ;
        assert(q >= 0) by (nonlinear_arith)
            requires
                q == ua / ub,
                ua >= 0,
                ub >= 1,
            ;
        if ua == 0x8000_0000 && (a < 0) == (b < 0) {
            assert(q <= ua / 2) by (nonlinear_arith)
                requires
                    q == ua / ub,
                    ua >= 0,
                    ub >= 2,
                ;
        }
    }
    if (a < 0) != (b < 0) { (-q) as i32 } else { q as i32 }
}

impl core::ops::Sub for Point<i32> {
    type Output = Self;

    fn sub(self, other: Self) -> (r: Self) {
        Self { x: self.x - other.x, y: self.y - other.y }
    }
}

impl vstd::std_specs::ops::SubSpecImpl for Point<i32> {
    open spec fn obeys_sub_spec() -> bool {
        true
    }

    open spec fn sub_req(self, other: Self) -> bool {
        in_i32(self.x - other.x) && in_i32(self.y - other.y)
    }

    open spec fn sub_spec(self, other: Self) -> Self {
        Point { x: (self.x - other.x) as i32, y: (self.y - other.y) as i32 }
    }
}

impl core::ops::Mul for Point<i32> {
    type Output = Self;

    fn mul(self, other: Self) -> (r: Self) {
        Self { x: self.x * other.x, y: self.y * other.y }
    }
}

impl vstd::std_specs::ops::MulSpecImpl for Point<i32> {
    open spec fn obeys_mul_spec() -> bool {
        true
    }

    open spec fn mul_req(self, other: Self) -> bool {
        in_i32(self.x * other.x) && in_i32(self.y * other.y)
    }

    open spec fn mul_spec(self, other: Self) -> Self {
        Point { x: (self.x * other.x) as i32, y: (self.y * other.y) as i32 }
    }
}

} // verus!
