use vstd::prelude::*;
use crate::polygon::{edge_term, prev_index, winding_prefix, winding_sum};
use crate::reference_vertices::natural_ring;
use crate::vec::{Vec2, cross};

verus! {

/// The determinant of two position vectors: twice the signed area of the
/// triangle they make with the origin.
pub open spec fn det(a: Vec2, b: Vec2) -> int {
    a.0 * b.1 - a.1 * b.0
}

/// The sum of `det` over the consecutive pairs of the open path `s`.
pub open spec fn path_sum(pts: Seq<Vec2>, s: Seq<usize>) -> int
    decreases s.len(),
{
    if s.len() < 2 {
        0
    } else {
        path_sum(pts, s.drop_last()) + det(pts[s[s.len() - 2] as int], pts[s[s.len() - 1] as int])
    }
}

/// Twice the signed area enclosed by the closed ring `s` (shoelace
/// formula): positive when it runs counter-clockwise.
pub open spec fn ring_area(pts: Seq<Vec2>, s: Seq<usize>) -> int {
    if s.len() == 0 {
        0
    } else {
        path_sum(pts, s) + det(pts[s[s.len() - 1] as int], pts[s[0] as int])
    }
}

/// The three `det` terms of a triangle add up to its cross product.
pub proof fn lemma_det_triangle(a: Vec2, b: Vec2, c: Vec2)
    ensures
        det(a, b) + det(b, c) - det(a, c) == cross(a, b, c),
        det(a, b) + det(b, c) + det(c, a) == cross(a, b, c),
{
    reveal(cross);
    let (ax, ay, bx, by, cx, cy) = (a.0 as int, a.1 as int, b.0 as int, b.1 as int, c.0 as int, c.1 as int);
    assert((ax * by - ay * bx) + (bx * cy - by * cx) - (ax * cy - ay * cx)
        == (bx - ax) * (cy - ay) - (by - ay) * (cx - ax)) by (nonlinear_arith);
    assert(cx * ay - cy * ax == -(ax * cy - ay * cx)) by (nonlinear_arith);
}

/// A path's sum splits at any of its entries.
proof fn lemma_path_split(pts: Seq<Vec2>, s: Seq<usize>, k: int)
    requires
        0 <= k < s.len(),
    ensures
        path_sum(pts, s) == path_sum(pts, s.subrange(0, k + 1)) + path_sum(pts, s.subrange(k, s.len() as int)),
    decreases s.len(),
{
    if k == s.len() - 1 {
        assert(s.subrange(0, k + 1) =~= s);
        assert(s.subrange(k, s.len() as int).len() == 1);
    } else {
        let t = s.drop_last();
        lemma_path_split(pts, t, k);
        assert(t.subrange(0, k + 1) =~= s.subrange(0, k + 1));
        let u = s.subrange(k, s.len() as int);
        assert(u.drop_last() =~= t.subrange(k, t.len() as int));
        assert(u[u.len() - 2] == s[s.len() - 2]);
        assert(u[u.len() - 1] == s[s.len() - 1]);
    }
}

/// The path sum of two entries is their `det`.
proof fn lemma_path_pair(pts: Seq<Vec2>, s: Seq<usize>)
    requires
        s.len() == 2,
    ensures
        path_sum(pts, s) == det(pts[s[0] as int], pts[s[1] as int]),
{
    assert(path_sum(pts, s.drop_last()) == 0);
}

/// The path sum of three entries.
proof fn lemma_path_triple(pts: Seq<Vec2>, s: Seq<usize>)
    requires
        s.len() == 3,
    ensures
        path_sum(pts, s) == det(pts[s[0] as int], pts[s[1] as int]) + det(pts[s[1] as int], pts[s[2] as int]),
{
    lemma_path_pair(pts, s.drop_last());
}

/// Taking the entry at `p` out of a ring of at least four removes the
/// cross product of that entry with its two neighbours from its area.
pub proof fn lemma_ring_remove(pts: Seq<Vec2>, s: Seq<usize>, p: int)
    requires
        s.len() >= 4,
        0 <= p < s.len(),
    ensures
        ring_area(pts, s) == ring_area(pts, s.remove(p)) + cross(
            pts[s[if p == 0 { s.len() - 1 } else { p - 1 }] as int],
            pts[s[p] as int],
            pts[s[if p == s.len() - 1 { 0 } else { p + 1 }] as int],
        ),
{
    let len = s.len() as int;
    let r = s.remove(p);
    let a = pts[s[if p == 0 { len - 1 } else { p - 1 }] as int];
    let b = pts[s[p] as int];
    let c = pts[s[if p == len - 1 { 0 } else { p + 1 }] as int];
    lemma_det_triangle(a, b, c);
    if p == len - 1 {
        assert(r =~= s.drop_last());
    } else if p == 0 {
        lemma_path_split(pts, s, 1);
        lemma_path_pair(pts, s.subrange(0, 2));
        assert(r =~= s.subrange(1, len));
    } else {
        // s = left ++ [a, b, c] ++ right, sharing the ends of each piece
        lemma_path_split(pts, s, p - 1);
        let rest = s.subrange(p - 1, len);
        lemma_path_split(pts, rest, 2);
        lemma_path_triple(pts, rest.subrange(0, 3));
        lemma_path_split(pts, r, p - 1);
        let rrest = r.subrange(p - 1, len - 1);
        lemma_path_split(pts, rrest, 1);
        lemma_path_pair(pts, rrest.subrange(0, 2));
        assert(r.subrange(0, p) =~= s.subrange(0, p));
        assert(rrest.subrange(1, rrest.len() as int) =~= rest.subrange(2, rest.len() as int));
        assert(r[r.len() - 1] == s[len - 1]);
        assert(r[0] == s[0]);
    }
}

/// The area of a ring of three is the cross product of its entries.
pub proof fn lemma_ring_triangle(pts: Seq<Vec2>, s: Seq<usize>)
    requires
        s.len() == 3,
    ensures
        ring_area(pts, s) == cross(pts[s[0] as int], pts[s[1] as int], pts[s[2] as int]),
{
    lemma_path_triple(pts, s);
    lemma_det_triangle(pts[s[0] as int], pts[s[1] as int], pts[s[2] as int]);
}

/// The cross product of three points is the same from any starting point.
pub proof fn lemma_cross_rotate(a: Vec2, b: Vec2, c: Vec2)
    ensures
        cross(b, c, a) == cross(a, b, c),
{
    lemma_det_triangle(a, b, c);
    lemma_det_triangle(b, c, a);
}

/// Running a ring backwards negates its area.
pub proof fn lemma_ring_reverse(pts: Seq<Vec2>, s: Seq<usize>)
    ensures
        ring_area(pts, s.reverse()) == -ring_area(pts, s),
{
    if s.len() > 0 {
        lemma_path_reverse(pts, s);
        let (x, y) = (pts[s[0] as int], pts[s[s.len() - 1] as int]);
        assert(det(x, y) == -det(y, x)) by (nonlinear_arith);
    }
}

proof fn lemma_path_reverse(pts: Seq<Vec2>, s: Seq<usize>)
    ensures
        path_sum(pts, s.reverse()) == -path_sum(pts, s),
    decreases s.len(),
{
    if s.len() >= 2 {
        let rv = s.reverse();
        let tail = s.subrange(1, s.len() as int);
        lemma_path_reverse(pts, tail);
        assert(rv.drop_last() =~= tail.reverse());
        lemma_path_split(pts, s, 1);
        lemma_path_pair(pts, s.subrange(0, 2));
        let (x, y) = (pts[s[0] as int], pts[s[1] as int]);
        assert(det(y, x) == -det(x, y)) by (nonlinear_arith);
    }
}

/// `x * y` of a point.
spec fn square_term(a: Vec2) -> int {
    a.0 * a.1
}

/// The winding sum of a ring is minus its shoelace area.
pub proof fn lemma_winding_is_area(pts: Seq<Vec2>)
    requires
        1 <= pts.len() <= usize::MAX,
    ensures
        winding_sum(pts) == -ring_area(pts, natural_ring(pts.len() as int)),
{
    let n = pts.len() as int;
    lemma_winding_prefix(pts, n);
    assert(natural_ring(n).subrange(0, n) =~= natural_ring(n));
}

proof fn lemma_winding_prefix(pts: Seq<Vec2>, k: int)
    requires
        1 <= k <= pts.len(),
        pts.len() <= usize::MAX,
    ensures
        winding_prefix(pts, k) == square_term(pts[k - 1]) - square_term(pts[pts.len() - 1])
            - det(pts[pts.len() - 1], pts[0]) - path_sum(pts, natural_ring(pts.len() as int).subrange(0, k)),
    decreases k,
{
    let n = pts.len() as int;
    let (a, b) = (pts[prev_index(n, k - 1)], pts[k - 1]);
    assert(edge_term(a, b) == square_term(b) - square_term(a) - det(a, b)) by (nonlinear_arith);
    let s = natural_ring(n).subrange(0, k);
    if k > 1 {
        lemma_winding_prefix(pts, k - 1);
        assert(s.drop_last() =~= natural_ring(n).subrange(0, k - 1));
        assert(s[k - 2] as int == k - 2);
        assert(s[k - 1] as int == k - 1);
    } else {
        assert(winding_prefix(pts, 0) == 0);
        assert(prev_index(n, 0) == n - 1);
    }
}

} // verus!
