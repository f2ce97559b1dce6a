//! Rectangles and the integer arithmetic shared by the layouts.
use vstd::prelude::*;
use vstd::arithmetic::mul::lemma_mul_inequality;

verus! {

/// Fixed-point unit: a ratio or an offset `f` is stored as `f * UNIT`.
pub const UNIT: i64 = 1_000_000;

/// Quotient of `a / d` rounded toward zero.
pub open spec fn div_trunc(a: int, d: int) -> int {
    if a >= 0 {
        a / d
    } else {
        -((-a) / d)
    }
}

/// `x` saturated into the range of `i32`.
pub open spec fn clamp_i32(x: int) -> int {
    if x < i32::MIN {
        i32::MIN as int
    } else if x > i32::MAX {
        i32::MAX as int
    } else {
        x
    }
}

pub open spec fn fits_i32(x: int) -> bool {
    i32::MIN <= x <= i32::MAX
}

/// A width or height that a rectangle can carry.
pub open spec fn fits_extent(x: int) -> bool {
    0 <= x <= u32::MAX
}

/// The placement of one window.
#[derive(Clone, Copy, Debug, PartialEq, Eq, Structural)]
pub struct Rectangle {
    pub x: i32,
    pub y: i32,
    pub width: u32,
    pub height: u32,
}

/// A rectangle over unbounded integers, before it is checked to fit.
pub struct Rect {
    pub x: int,
    pub y: int,
    pub width: int,
    pub height: int,
}

impl Rectangle {
    pub open spec fn is(self, r: Rect) -> bool {
        self.x == r.x && self.y == r.y && self.width == r.width && self.height == r.height
    }
}

impl Rect {
    pub open spec fn fits(self) -> bool {
        fits_i32(self.x) && fits_i32(self.y) && fits_extent(self.width) && fits_extent(
            self.height,
        )
    }
}

/// The answer to one layout request.
pub struct GeneratedLayout {
    pub layout_name: String,
    pub views: Vec<Rectangle>,
}

/// Largest magnitude that the wide arithmetic below is used with.
pub const WIDE: i128 = 0x1_0000_0000_0000_0000_0000_0000_0000;

/// A product of two bounded factors is bounded by the product of the bounds.
pub proof fn lemma_mul_bound(a: int, b: int, x: int, y: int)
    requires
        -x <= a <= x,
        -y <= b <= y,
    ensures
        -(x * y) <= a * b <= x * y,
{
    let aa = if a >= 0 { a } else { -a };
    let bb = if b >= 0 { b } else { -b };
    lemma_mul_inequality(aa, x, bb);
    lemma_mul_inequality(bb, y, x);
    assert(x * bb == bb * x) by (nonlinear_arith);
    assert(a * b == aa * bb || a * b == -(aa * bb)) by (nonlinear_arith)
        requires
            aa == (if a >= 0 { a } else { -a }),
            bb == (if b >= 0 { b } else { -b }),
    ;
    assert(aa * bb >= 0) by (nonlinear_arith)
        requires
            aa >= 0,
            bb >= 0,
    ;
    assert(y * x == x * y) by (nonlinear_arith);
}

pub fn div_trunc_wide(a: i128, d: i128) -> (q: i128)
    requires
        d > 0,
        -WIDE <= a <= WIDE,
    ensures
        q == div_trunc(a as int, d as int),
        a >= 0 ==> 0 <= q <= a,
        a < 0 ==> a <= q <= 0,
{
    if a >= 0 {
        let q = (a as u128) / (d as u128);
        assert(q <= a) by (nonlinear_arith)
            requires
                q == (a as u128) / (d as u128),
                d > 0,
                a >= 0,
        ;
        q as i128
    } else {
        let m = (-a) as u128;
        let q = m / (d as u128);
        assert(q <= m) by (nonlinear_arith)
            requires
                q == m / (d as u128),
                d > 0,
        ;
        -(q as i128)
    }
}

pub fn clamp_i32_wide(x: i128) -> (r: i32)
    ensures
        r == clamp_i32(x as int),
{
    if x < i32::MIN as i128 {
        i32::MIN
    } else if x > i32::MAX as i128 {
        i32::MAX
    } else {
        x as i32
    }
}

} // verus!
