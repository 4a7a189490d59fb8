use vstd::prelude::*;

verus! {

/// A point or displacement in the plane, with exact integer coordinates.
///
/// Coordinates follow the y-up convention: a counter-clockwise turn has a
/// positive cross product.
#[derive(Debug, Clone, Copy, PartialEq, Eq, Structural)]
pub struct Vec2(pub i32, pub i32);

/// Whether an integer fits in `i32`.
pub open spec fn fits_i32(v: int) -> bool {
    i32::MIN <= v <= i32::MAX
}

/// Division that rounds toward zero, as Rust's `/` does on signed integers.
pub open spec fn trunc_div(a: int, b: int) -> int {
    if a >= 0 {
        a / b
    } else {
        -((-a) / b)
    }
}

/// Twice the signed area of the triangle `a, b, c`: positive when the
/// three points turn counter-clockwise, negative when they turn clockwise.
#[verifier::opaque]
pub open spec fn cross(a: Vec2, b: Vec2, c: Vec2) -> int {
    (b.0 - a.0) * (c.1 - a.1) - (b.1 - a.1) * (c.0 - a.0)
}

/// The exact squared Euclidean distance between two points.
pub open spec fn dist_sq(a: Vec2, b: Vec2) -> int {
    (b.0 - a.0) * (b.0 - a.0) + (b.1 - a.1) * (b.1 - a.1)
}

impl Vec2 {
    /// The vector turned a quarter turn counter-clockwise: `(-y, x)`.
    pub fn perpendicular(&self) -> (r: Vec2)
        requires
            self.1 != i32::MIN,
        ensures
            r.0 == -self.1,
            r.1 == self.0,
            r == perp(*self),
    {
        Vec2(-self.1, self.0)
    }

    /// The exact squared distance between `self` and `other`.
    pub fn distance_squared(&self, other: &Vec2) -> (r: i128)
        ensures
            r == dist_sq(*self, *other),
    {
        let d_x: i128 = other.0 as i128 - self.0 as i128;
        let d_y: i128 = other.1 as i128 - self.1 as i128;
        assert(0 <= d_x * d_x <= 0x1_0000_0000 * 0x1_0000_0000) by (nonlinear_arith)
            requires
                -0x1_0000_0000 <= d_x <= 0x1_0000_0000,
        ;
        assert(0 <= d_y * d_y <= 0x1_0000_0000 * 0x1_0000_0000) by (nonlinear_arith)
            requires
                -0x1_0000_0000 <= d_y <= 0x1_0000_0000,
        ;
        d_x * d_x + d_y * d_y
    }
}

/// The turn made by three ordered points, in y-up coordinates: a
/// negative cross product is `Clockwise`, a positive one
/// `CounterClockwise`, zero `Collinear`.
#[derive(Debug, Clone, Copy, PartialEq, Eq, Structural)]
pub enum Linearity {
    Clockwise,
    CounterClockwise,
    Collinear,
}

/// The turn that `a, b, c` make, by the sign of their cross product.
pub open spec fn linearity_of(a: Vec2, b: Vec2, c: Vec2) -> Linearity {
    if cross(a, b, c) < 0 {
        Linearity::Clockwise
    } else if cross(a, b, c) > 0 {
        Linearity::CounterClockwise
    } else {
        Linearity::Collinear
    }
}

/// The turn in the opposite direction; `Collinear` stays.
pub open spec fn reversed(l: Linearity) -> Linearity {
    match l {
        Linearity::Clockwise => Linearity::CounterClockwise,
        Linearity::CounterClockwise => Linearity::Clockwise,
        Linearity::Collinear => Linearity::Collinear,
    }
}

impl Linearity {
    /// Classifies the turn `a -> b -> c` exactly.
    pub fn linearity(a: Vec2, b: Vec2, c: Vec2) -> (r: Linearity)
        ensures
            r == linearity_of(a, b, c),
    {
        let ab_x: i128 = b.0 as i128 - a.0 as i128;
        let ab_y: i128 = b.1 as i128 - a.1 as i128;
        let ac_x: i128 = c.0 as i128 - a.0 as i128;
        let ac_y: i128 = c.1 as i128 - a.1 as i128;
        proof {
            reveal(cross);
            lemma_product_bound(ab_x, ac_y);
            lemma_product_bound(ab_y, ac_x);
        }
        let c: i128 = ab_x * ac_y - ab_y * ac_x;
        if c < 0 {
            Linearity::Clockwise
        } else if c > 0 {
            Linearity::CounterClockwise
        } else {
            Linearity::Collinear
        }
    }
}

/// A product of two differences of `i32` values stays within `2^64`.
proof fn lemma_product_bound(a: i128, b: i128)
    requires
        -0x1_0000_0000 <= a <= 0x1_0000_0000,
        -0x1_0000_0000 <= b <= 0x1_0000_0000,
    ensures
        -0x1_0000_0000_0000_0000 <= a * b <= 0x1_0000_0000_0000_0000,
{
    assert(-0x1_0000_0000_0000_0000 <= a * b <= 0x1_0000_0000_0000_0000) by (nonlinear_arith)
        requires
            -0x1_0000_0000 <= a <= 0x1_0000_0000,
            -0x1_0000_0000 <= b <= 0x1_0000_0000,
    ;
}

/// Swapping the last two points reverses the turn.
pub proof fn lemma_linearity_antisymmetric(a: Vec2, b: Vec2, c: Vec2)
    ensures
        linearity_of(a, c, b) == reversed(linearity_of(a, b, c)),
{
    reveal(cross);
    let (ax, ay, bx, by, cx, cy) = (a.0 as int, a.1 as int, b.0 as int, b.1 as int, c.0 as int, c.1 as int);
    assert((cx - ax) * (by - ay) - (cy - ay) * (bx - ax) == -((bx - ax) * (cy - ay) - (by - ay) * (cx - ax)))
        by (nonlinear_arith);
}

impl core::ops::Neg for Vec2 {
    type Output = Vec2;

    fn neg(self) -> (r: Vec2) {
        Vec2(-self.0, -self.1)
    }
}

impl vstd::std_specs::ops::NegSpecImpl for Vec2 {
    open spec fn obeys_neg_spec() -> bool {
        true
    }

    open spec fn neg_req(self) -> bool {
        self.0 != i32::MIN && self.1 != i32::MIN
    }

    open spec fn neg_spec(self) -> Vec2 {
        Vec2((-self.0) as i32, (-self.1) as i32)
    }
}

impl core::ops::Add for Vec2 {
    type Output = Vec2;

    fn add(self, rhs: Vec2) -> (r: Vec2) {
        Vec2(self.0 + rhs.0, self.1 + rhs.1)
    }
}

impl vstd::std_specs::ops::AddSpecImpl for Vec2 {
    open spec fn obeys_add_spec() -> bool {
        true
    }

    open spec fn add_req(self, rhs: Vec2) -> bool {
        fits_i32(self.0 + rhs.0) && fits_i32(self.1 + rhs.1)
    }

    open spec fn add_spec(self, rhs: Vec2) -> Vec2 {
        Vec2((self.0 + rhs.0) as i32, (self.1 + rhs.1) as i32)
    }
}

impl<'a> core::ops::Add<&'a Vec2> for Vec2 {
    type Output = Vec2;

    fn add(self, rhs: &'a Vec2) -> (r: Vec2) {
        Vec2(self.0 + rhs.0, self.1 + rhs.1)
    }
}

impl<'a> vstd::std_specs::ops::AddSpecImpl<&'a Vec2> for Vec2 {
    open spec fn obeys_add_spec() -> bool {
        true
    }

    open spec fn add_req(self, rhs: &'a Vec2) -> bool {
        fits_i32(self.0 + rhs.0) && fits_i32(self.1 + rhs.1)
    }

    open spec fn add_spec(self, rhs: &'a Vec2) -> Vec2 {
        Vec2((self.0 + rhs.0) as i32, (self.1 + rhs.1) as i32)
    }
}

impl core::ops::Sub for Vec2 {
    type Output = Vec2;

    fn sub(self, rhs: Vec2) -> (r: Vec2) {
        Vec2(self.0 - rhs.0, self.1 - rhs.1)
    }
}

impl vstd::std_specs::ops::SubSpecImpl for Vec2 {
    open spec fn obeys_sub_spec() -> bool {
        true
    }

    open spec fn sub_req(self, rhs: Vec2) -> bool {
        fits_i32(self.0 - rhs.0) && fits_i32(self.1 - rhs.1)
    }

    open spec fn sub_spec(self, rhs: Vec2) -> Vec2 {
        Vec2((self.0 - rhs.0) as i32, (self.1 - rhs.1) as i32)
    }
}

impl<'a, 'b> core::ops::Sub<&'b Vec2> for &'a Vec2 {
    type Output = Vec2;

    fn sub(self, rhs: &'b Vec2) -> (r: Vec2) {
        Vec2(self.0 - rhs.0, self.1 - rhs.1)
    }
}

impl<'a, 'b> vstd::std_specs::ops::SubSpecImpl<&'b Vec2> for &'a Vec2 {
    open spec fn obeys_sub_spec() -> bool {
        true
    }

    open spec fn sub_req(self, rhs: &'b Vec2) -> bool {
        fits_i32(self.0 - rhs.0) && fits_i32(self.1 - rhs.1)
    }

    open spec fn sub_spec(self, rhs: &'b Vec2) -> Vec2 {
        Vec2((self.0 - rhs.0) as i32, (self.1 - rhs.1) as i32)
    }
}

impl core::ops::Mul<i32> for Vec2 {
    type Output = Vec2;

    fn mul(self, rhs: i32) -> (r: Vec2) {
        Vec2(self.0 * rhs, self.1 * rhs)
    }
}

impl vstd::std_specs::ops::MulSpecImpl<i32> for Vec2 {
    open spec fn obeys_mul_spec() -> bool {
        true
    }

    open spec fn mul_req(self, rhs: i32) -> bool {
        fits_i32(self.0 * rhs) && fits_i32(self.1 * rhs)
    }

    open spec fn mul_spec(self, rhs: i32) -> Vec2 {
        Vec2((self.0 * rhs) as i32, (self.1 * rhs) as i32)
    }
}

impl core::ops::Div<i32> for Vec2 {
    type Output = Vec2;

    fn div(self, rhs: i32) -> (r: Vec2) {
        Vec2(self.0 / rhs, self.1 / rhs)
    }
}

impl vstd::std_specs::ops::DivSpecImpl<i32> for Vec2 {
    open spec fn obeys_div_spec() -> bool {
        true
    }

    open spec fn div_req(self, rhs: i32) -> bool {
        rhs != 0 && !(rhs == -1 && (self.0 == i32::MIN || self.1 == i32::MIN))
    }

    open spec fn div_spec(self, rhs: i32) -> Vec2 {
        Vec2(trunc_div(self.0 as int, rhs as int) as i32, trunc_div(self.1 as int, rhs as int) as i32)
    }
}

/// The dot product of two vectors.
pub open spec fn dot(u: Vec2, w: Vec2) -> int {
    u.0 * w.0 + u.1 * w.1
}

/// `v` turned a quarter turn counter-clockwise, as `perpendicular` gives it.
pub open spec fn perp(v: Vec2) -> Vec2 {
    Vec2((-v.1) as i32, v.0)
}

/// The cross product that `linearity` classifies is the dot product of
/// `b - a`, turned a quarter turn, with `c - a`; swapping `b` and `c`
/// negates it.
pub proof fn lemma_cross_is_perpendicular_dot(a: Vec2, b: Vec2, c: Vec2, u: Vec2, w: Vec2)
    requires
        u.0 == b.0 - a.0,
        u.1 == b.1 - a.1,
        w.0 == c.0 - a.0,
        w.1 == c.1 - a.1,
        u.1 != i32::MIN,
        w.1 != i32::MIN,
    ensures
        dot(perp(u), w) == cross(a, b, c),
        dot(perp(w), u) == -cross(a, b, c),
{
    reveal(cross);
    let (ux, uy, wx, wy) = (u.0 as int, u.1 as int, w.0 as int, w.1 as int);
    assert((-uy) * wx + ux * wy == ux * wy - uy * wx) by (nonlinear_arith);
    assert((-wy) * ux + wx * uy == -(ux * wy - uy * wx)) by (nonlinear_arith);
}

} // verus!
