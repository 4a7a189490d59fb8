use vstd::prelude::*;
use crate::vec::{Vec2, fits_i32};

verus! {

/// Why a polygon could not be built or triangulated.
#[derive(Debug, Clone, Copy, PartialEq, Eq, Structural)]
pub enum Error {
    /// Fewer than three vertices were given.
    InsufficientVertices,
    /// More than three vertices remain and none of them is an ear.
    NoEarFound,
}

/// The largest number of vertices a polygon may hold: `isize::MAX`, which
/// no `Vec` can exceed.
pub open spec fn max_vertices() -> int {
    isize::MAX as int
}

/// A closed ring of at least three vertices; the last one joins the first.
#[derive(Debug)]
pub struct Polygon(Vec<Vec2>);

/// The index before `i` on a ring of `n` vertices.
pub open spec fn prev_index(n: int, i: int) -> int {
    if i == 0 {
        n - 1
    } else {
        i - 1
    }
}

/// The term that the edge from `a` to `b` adds to the winding sum.
pub open spec fn edge_term(a: Vec2, b: Vec2) -> int {
    (b.0 - a.0) * (b.1 + a.1)
}

/// The winding sum over the edges that end at vertices `0..k`.
pub open spec fn winding_prefix(pts: Seq<Vec2>, k: int) -> int
    decreases k,
{
    if k <= 0 {
        0
    } else {
        winding_prefix(pts, k - 1) + edge_term(pts[prev_index(pts.len() as int, k - 1)], pts[k - 1])
    }
}

/// The sum of `(x_i - x_{i-1}) * (y_i + y_{i-1})` over every edge of the
/// ring: twice its signed area, positive when the ring runs clockwise.
pub open spec fn winding_sum(pts: Seq<Vec2>) -> int {
    winding_prefix(pts, pts.len() as int)
}

/// `v` moved by `t`.
pub open spec fn moved(v: Vec2, t: Vec2) -> Vec2 {
    Vec2((v.0 + t.0) as i32, (v.1 + t.1) as i32)
}

/// Whether every vertex of `pts` moved by `t` keeps coordinates in `i32`.
pub open spec fn can_move(pts: Seq<Vec2>, t: Vec2) -> bool {
    forall|i: int| 0 <= i < pts.len() ==> fits_i32(#[trigger] pts[i].0 + t.0) && fits_i32(pts[i].1 + t.1)
}

impl View for Polygon {
    type V = Seq<Vec2>;

    closed spec fn view(&self) -> Seq<Vec2> {
        self.0@
    }
}

impl Polygon {
    #[verifier::type_invariant]
    spec fn inv(&self) -> bool {
        3 <= self.0.len() <= max_vertices()
    }

    /// Builds a polygon from its vertices in ring order.
    pub fn new(vertices: Vec<Vec2>) -> (r: Result<Polygon, Error>)
        requires
            vertices.len() <= max_vertices(),
        ensures
            vertices.len() < 3 <==> r == Err::<Polygon, Error>(Error::InsufficientVertices),
            vertices.len() >= 3 <==> r is Ok,
            r is Ok ==> r->Ok_0@ == vertices@,
    {
        if vertices.len() < 3 {
            Err(Error::InsufficientVertices)
        } else {
            Ok(Polygon(vertices))
        }
    }

    /// The vertices in ring order.
    pub fn vertices(&self) -> (r: &Vec<Vec2>)
        ensures
            r@ == self@,
            3 <= r@.len() <= max_vertices(),
    {
        proof {
            use_type_invariant(self);
        }
        &self.0
    }

    /// The polygon with every vertex moved by `translation`; order and
    /// count are kept.
    pub fn translate(self, translation: Vec2) -> (r: Polygon)
        requires
            can_move(self@, translation),
        ensures
            r@.len() == self@.len(),
            forall|i: int| 0 <= i < self@.len() ==> r@[i] == moved(#[trigger] self@[i], translation),
    {
        proof {
            use_type_invariant(&self);
        }
        let Polygon(mut vertices) = self;
        let n = vertices.len();
        let mut i: usize = 0;
        while i < n
            invariant
                n == vertices.len() == self@.len(),
                i <= n,
                can_move(self@, translation),
                forall|j: int| 0 <= j < i ==> vertices@[j] == moved(#[trigger] self@[j], translation),
                forall|j: int| i <= j < n ==> vertices@[j] == #[trigger] self@[j],
            decreases n - i,
        {
            let v = vertices[i];
            assert(fits_i32(self@[i as int].0 + translation.0));
            vertices.set(i, v + translation);
            i = i + 1;
        }
        Polygon(vertices)
    }

    /// Whether the ring runs clockwise (y-up): its winding sum is positive.
    pub fn is_clockwise(&self) -> (r: bool)
        ensures
            r == (winding_sum(self@) > 0),
    {
        proof {
            use_type_invariant(self);
        }
        let vs = &self.0;
        let n = vs.len();
        let mut area: i128 = 0;
        let mut i: usize = 0;
        while i < n
            invariant
                vs@ == self@,
                n == vs.len(),
                3 <= n <= max_vertices(),
                i <= n,
                area == winding_prefix(self@, i as int),
                -(i as int) * 0x1_0000_0000_0000_0000 <= area <= (i as int) * 0x1_0000_0000_0000_0000,
            decreases n - i,
        {
            let p: usize = if i == 0 { n - 1 } else { i - 1 };
            let prev = vs[p];
            let cur = vs[i];
            let dx: i128 = cur.0 as i128 - prev.0 as i128;
            let sy: i128 = cur.1 as i128 + prev.1 as i128;
            assert(-0x1_0000_0000_0000_0000 <= dx * sy <= 0x1_0000_0000_0000_0000) by (nonlinear_arith)
                requires
                    -0x1_0000_0000 <= dx <= 0x1_0000_0000,
                    -0x1_0000_0000 <= sy <= 0x1_0000_0000,
            ;
            assert((i as int) * 0x1_0000_0000_0000_0000 + 0x1_0000_0000_0000_0000 == (i as int + 1) * 0x1_0000_0000_0000_0000) by (nonlinear_arith);
            assert((i as int + 1) * 0x1_0000_0000_0000_0000 <= 0x8000_0000_0000_0000 * 0x1_0000_0000_0000_0000) by (nonlinear_arith)
                requires i < max_vertices(), max_vertices() < 0x8000_0000_0000_0000;
            area = area + dx * sy;
            i = i + 1;
        }
        area > 0
    }
}

} // verus!
