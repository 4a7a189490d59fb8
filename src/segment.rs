use vstd::prelude::*;
use crate::polygon::moved;
use crate::vec::{Linearity, Vec2, cross, fits_i32, linearity_of, reversed};

verus! {

/// A directed line segment between two points.
#[derive(Debug, Clone, Copy, PartialEq, Eq, Structural)]
pub struct Segment(pub Vec2, pub Vec2);

/// Whether `lo..=hi` or `hi..=lo` holds `v`.
pub open spec fn within(a: int, b: int, v: int) -> bool {
    (a <= v && v <= b) || (b <= v && v <= a)
}

/// Whether `p` lies in the bounding box of `s`; for a point collinear with
/// `s`, whether it lies on `s`.
pub open spec fn in_box(s: Segment, p: Vec2) -> bool {
    within(s.0.0 as int, s.1.0 as int, p.0 as int) && within(s.0.1 as int, s.1.1 as int, p.1 as int)
}

/// Whether `p` and `q` lie strictly on opposite sides of the line `a b`, in
/// the sense of exactly one of the two turns being clockwise.
pub open spec fn split_by(a: Vec2, b: Vec2, p: Vec2, q: Vec2) -> bool {
    (linearity_of(a, b, p) == Linearity::Clockwise) != (linearity_of(a, b, q) == Linearity::Clockwise)
}

/// Whether an endpoint `p` of one segment touches the segment `s`.
pub open spec fn touches(s: Segment, p: Vec2) -> bool {
    linearity_of(s.0, s.1, p) == Linearity::Collinear && in_box(s, p)
}

/// Whether two segments share a point: they cross properly, or an endpoint
/// of one lies on the other.
#[verifier::opaque]
pub open spec fn segments_intersect(s: Segment, o: Segment) -> bool {
    touches(s, o.0) || touches(s, o.1) || touches(o, s.0) || touches(o, s.1)
        || (split_by(s.0, s.1, o.0, o.1) && split_by(o.0, o.1, s.0, s.1))
}

/// The segment with its endpoints swapped.
pub open spec fn flipped(s: Segment) -> Segment {
    Segment(s.1, s.0)
}

impl Segment {
    /// The same segment run in the other direction.
    pub fn flip(&self) -> (r: Segment)
        ensures
            r == flipped(*self),
    {
        Segment(self.1, self.0)
    }

    /// Whether `self` and `other` have a point in common.
    pub fn intersects(&self, other: &Segment) -> (r: bool)
        ensures
            r == segments_intersect(*self, *other),
    {
        reveal(segments_intersect);
        let l0 = Linearity::linearity(self.0, self.1, other.0);
        let l1 = Linearity::linearity(self.0, self.1, other.1);
        let l2 = Linearity::linearity(other.0, other.1, self.0);
        let l3 = Linearity::linearity(other.0, other.1, self.1);

        // each segment has exactly one endpoint of the other on its clockwise side
        let segments_cross = ((l0 == Linearity::Clockwise) != (l1 == Linearity::Clockwise))
            && ((l2 == Linearity::Clockwise) != (l3 == Linearity::Clockwise));

        (l0 == Linearity::Collinear && self.between(other.0))
            || (l1 == Linearity::Collinear && self.between(other.1))
            || (l2 == Linearity::Collinear && other.between(self.0))
            || (l3 == Linearity::Collinear && other.between(self.1))
            || segments_cross
    }

    /// Whether `p` lies within the bounding box of `self`; meant for a point
    /// already known to be collinear with it.
    fn between(&self, p: Vec2) -> (r: bool)
        ensures
            r == in_box(*self, p),
    {
        let between_x = (self.0.0 <= p.0 && p.0 <= self.1.0) || (self.1.0 <= p.0 && p.0 <= self.0.0);
        let between_y = (self.0.1 <= p.1 && p.1 <= self.1.1) || (self.1.1 <= p.1 && p.1 <= self.0.1);
        between_x && between_y
    }
}

/// Whether two segments intersect does not depend on which is asked first.
pub proof fn lemma_intersects_symmetric(s: Segment, o: Segment)
    ensures
        segments_intersect(s, o) == segments_intersect(o, s),
{
    reveal(segments_intersect);
}

/// Swapping the first two points reverses the turn.
proof fn lemma_linearity_swap_front(a: Vec2, b: Vec2, c: Vec2)
    ensures
        linearity_of(b, a, c) == reversed(linearity_of(a, b, c)),
{
    reveal(cross);
    let (ax, ay, bx, by, cx, cy) = (a.0 as int, a.1 as int, b.0 as int, b.1 as int, c.0 as int, c.1 as int);
    assert((ax - bx) * (cy - by) - (ay - by) * (cx - bx) == -((bx - ax) * (cy - ay) - (by - ay) * (cx - ax)))
        by (nonlinear_arith);
}

/// With `d = s1 - s0`, `e = o0 - s0` and `w = o1 - o0`: when `o0` lies on
/// the line through `s0` and `s1` but beyond their x-range, and `o1` off
/// that line, then `s0` and `s1` lie strictly on one side of the line
/// through `o0` and `o1`.
proof fn lemma_outside_one_side(dx: int, dy: int, ex: int, ey: int, wx: int, wy: int)
    requires
        dx * ey - dy * ex == 0,
        dx * wy - dy * wx != 0,
        (ex < 0 && ex < dx) || (ex > 0 && ex > dx),
    ensures
        (wx * (-ey) - wy * (-ex)) * (wx * (dy - ey) - wy * (dx - ex)) > 0,
{
    let k = dx * wy - dy * wx;
    let f0 = wx * (-ey) - wy * (-ex);
    let f1 = wx * (dy - ey) - wy * (dx - ex);
    assert(k * k > 0) by (nonlinear_arith)
        requires
            k != 0,
    ;
    assert(f0 == wy * ex - wx * ey) by (nonlinear_arith)
        requires
            f0 == wx * (-ey) - wy * (-ex),
    ;
    assert(dx * (wy * ex - wx * ey) == wy * (dx * ex) - wx * (dx * ey)) by (nonlinear_arith);
    assert(ex * (dx * wy - dy * wx) == wy * (dx * ex) - wx * (dy * ex)) by (nonlinear_arith);
    assert(wx * (dx * ey) == wx * (dy * ex));
    assert(dx * f0 == ex * k);
    assert(f1 == f0 - k) by (nonlinear_arith)
        requires
            f1 == wx * (dy - ey) - wy * (dx - ex),
            f0 == wy * ex - wx * ey,
            k == dx * wy - dy * wx,
    ;
    assert(dx * f1 == dx * f0 - dx * k) by (nonlinear_arith)
        requires
            f1 == f0 - k,
    ;
    assert(ex * k - dx * k == -(dx - ex) * k) by (nonlinear_arith);
    assert(dx * f1 == -(dx - ex) * k);
    assert(ex * (ex - dx) > 0) by (nonlinear_arith)
        requires
            (ex < 0 && ex < dx) || (ex > 0 && ex > dx),
    ;
    assert(f0 * f1 > 0) by (nonlinear_arith)
        requires
            dx * f0 == ex * k,
            dx * f1 == -(dx - ex) * k,
            ex * (ex - dx) > 0,
            k * k > 0,
    ;
}

/// The same as `lemma_outside_one_side`, with `o0` beyond the y-range of
/// `s0` and `s1` instead: the axes swap roles.
proof fn lemma_outside_one_side_y(dx: int, dy: int, ex: int, ey: int, wx: int, wy: int)
    requires
        dx * ey - dy * ex == 0,
        dx * wy - dy * wx != 0,
        (ey < 0 && ey < dy) || (ey > 0 && ey > dy),
    ensures
        (wx * (-ey) - wy * (-ex)) * (wx * (dy - ey) - wy * (dx - ex)) > 0,
{
    lemma_outside_one_side(dy, dx, ey, ex, wy, wx);
    let f0 = wx * (-ey) - wy * (-ex);
    let f1 = wx * (dy - ey) - wy * (dx - ex);
    let g0 = wy * (-ex) - wx * (-ey);
    let g1 = wy * (dx - ex) - wx * (dy - ey);
    assert(g0 == -f0);
    assert(g1 == -f1);
    assert(f0 * f1 == g0 * g1) by (nonlinear_arith)
        requires
            g0 == -f0,
            g1 == -f1,
    ;
}

/// When `o.0` is collinear with `s` but off it, and `o.1` is not
/// collinear with `s`, the line through `o` does not split `s`.
proof fn lemma_collinear_outside(s: Segment, o: Segment)
    requires
        linearity_of(s.0, s.1, o.0) == Linearity::Collinear,
        linearity_of(s.0, s.1, o.1) != Linearity::Collinear,
        !in_box(s, o.0),
    ensures
        linearity_of(o.0, o.1, s.0) == linearity_of(o.0, o.1, s.1),
        linearity_of(o.0, o.1, s.0) != Linearity::Collinear,
{
    reveal(cross);
    let (dx, dy) = (s.1.0 - s.0.0, s.1.1 - s.0.1);
    let (ex, ey) = (o.0.0 - s.0.0, o.0.1 - s.0.1);
    let (wx, wy) = (o.1.0 - o.0.0, o.1.1 - o.0.1);
    assert(cross(s.0, s.1, o.0) == dx * ey - dy * ex);
    assert(cross(s.0, s.1, o.1) == dx * wy - dy * wx) by (nonlinear_arith)
        requires
            cross(s.0, s.1, o.1) == (s.1.0 - s.0.0) * (o.1.1 - s.0.1) - (s.1.1 - s.0.1) * (o.1.0 - s.0.0),
            dx * ey - dy * ex == 0,
            dx == s.1.0 - s.0.0,
            dy == s.1.1 - s.0.1,
            ex == o.0.0 - s.0.0,
            ey == o.0.1 - s.0.1,
            wx == o.1.0 - o.0.0,
            wy == o.1.1 - o.0.1,
    ;
    if (ex < 0 && ex < dx) || (ex > 0 && ex > dx) {
        lemma_outside_one_side(dx, dy, ex, ey, wx, wy);
    } else {
        lemma_outside_one_side_y(dx, dy, ex, ey, wx, wy);
    }
    let f0 = cross(o.0, o.1, s.0);
    let f1 = cross(o.0, o.1, s.1);
    assert(f0 == wx * (-ey) - wy * (-ex));
    assert(f1 == wx * (dy - ey) - wy * (dx - ex));
    assert((f0 < 0) == (f1 < 0) && f0 != 0 && f1 != 0) by (nonlinear_arith)
        requires
            f0 * f1 > 0,
    ;
}

/// Whether two segments intersect does not depend on the direction in
/// which either is run, nor on which is asked first.
pub proof fn lemma_intersects_reversal(s: Segment, o: Segment)
    ensures
        segments_intersect(flipped(s), o) == segments_intersect(s, o),
        segments_intersect(s, flipped(o)) == segments_intersect(s, o),
        segments_intersect(o, s) == segments_intersect(s, o),
{
    lemma_flip_first(s, o);
    lemma_flip_first(o, s);
    lemma_intersects_symmetric(s, o);
    lemma_intersects_symmetric(s, flipped(o));
}

proof fn lemma_flip_first(s: Segment, o: Segment)
    ensures
        segments_intersect(flipped(s), o) == segments_intersect(s, o),
{
    reveal(segments_intersect);
    let f = flipped(s);
    lemma_linearity_swap_front(s.0, s.1, o.0);
    lemma_linearity_swap_front(s.0, s.1, o.1);
    let l0 = linearity_of(s.0, s.1, o.0);
    let l1 = linearity_of(s.0, s.1, o.1);
    assert(in_box(f, o.0) == in_box(s, o.0));
    assert(in_box(f, o.1) == in_box(s, o.1));
    if l0 == Linearity::Collinear && l1 != Linearity::Collinear && !in_box(s, o.0) {
        lemma_collinear_outside(s, o);
    }
    if l1 == Linearity::Collinear && l0 != Linearity::Collinear && !in_box(s, o.1) {
        let o2 = flipped(o);
        lemma_collinear_outside(s, o2);
        lemma_linearity_swap_front(o.0, o.1, s.0);
        lemma_linearity_swap_front(o.0, o.1, s.1);
    }
}

/// Whether `v` moved by `t` keeps its coordinates in `i32`.
pub open spec fn can_shift(v: Vec2, t: Vec2) -> bool {
    fits_i32(v.0 + t.0) && fits_i32(v.1 + t.1)
}

/// The segment with both endpoints moved by `t`.
pub open spec fn shifted(s: Segment, t: Vec2) -> Segment {
    Segment(moved(s.0, t), moved(s.1, t))
}

/// Moving three points together keeps their turn.
proof fn lemma_linearity_shift(a: Vec2, b: Vec2, c: Vec2, t: Vec2)
    requires
        can_shift(a, t),
        can_shift(b, t),
        can_shift(c, t),
    ensures
        linearity_of(moved(a, t), moved(b, t), moved(c, t)) == linearity_of(a, b, c),
{
    reveal(cross);
}

/// Moving both segments by the same offset keeps whether they intersect.
pub proof fn lemma_intersects_shift(s: Segment, o: Segment, t: Vec2)
    requires
        can_shift(s.0, t),
        can_shift(s.1, t),
        can_shift(o.0, t),
        can_shift(o.1, t),
    ensures
        segments_intersect(shifted(s, t), shifted(o, t)) == segments_intersect(s, o),
{
    reveal(segments_intersect);
    lemma_linearity_shift(s.0, s.1, o.0, t);
    lemma_linearity_shift(s.0, s.1, o.1, t);
    lemma_linearity_shift(o.0, o.1, s.0, t);
    lemma_linearity_shift(o.0, o.1, s.1, t);
}

} // verus!
