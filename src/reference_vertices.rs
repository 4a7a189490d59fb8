use vstd::prelude::*;
use crate::polygon::{Polygon, max_vertices};
use crate::segment::{Segment, segments_intersect};
use crate::vec::{Linearity, Vec2, linearity_of};

verus! {

/// The live neighbours of one vertex, by index, and whether it is an ear.
#[derive(Debug, Clone, Copy, PartialEq, Eq, Structural)]
pub struct ReferenceVertex {
    pub prev: usize,
    pub next: usize,
    pub is_ear: bool,
}

/// The position after `i` on a ring of `ring.len()` entries.
pub open spec fn next_pos(ring: Seq<usize>, i: int) -> int {
    if i + 1 >= ring.len() {
        0
    } else {
        i + 1
    }
}

/// The position before `i` on a ring of `ring.len()` entries.
pub open spec fn prev_pos(ring: Seq<usize>, i: int) -> int {
    if i <= 0 {
        ring.len() - 1
    } else {
        i - 1
    }
}

/// Whether the links run around `ring`: each entry's `next` is the entry
/// after it and its `prev` the entry before it, the last joining the first.
/// `ring` visits distinct vertices, each with a link and a point.
pub open spec fn links_ring(links: Seq<ReferenceVertex>, ring: Seq<usize>, n_points: int) -> bool {
    &&& ring.len() >= 1
    &&& ring.no_duplicates()
    &&& forall|i: int| 0 <= i < ring.len() ==> #[trigger] ring[i] < links.len() && ring[i] < n_points
    &&& forall|i: int|
        0 <= i < ring.len() ==> (#[trigger] links[ring[i] as int]).next == ring[next_pos(ring, i)]
            && links[ring[i] as int].prev == ring[prev_pos(ring, i)]
}

/// The ring turned so that it starts at position `p`.
pub open spec fn rotate(ring: Seq<usize>, p: int) -> Seq<usize> {
    ring.subrange(p, ring.len() as int) + ring.subrange(0, p)
}

/// The segment between the points of two vertices.
pub open spec fn segment_of(pts: Seq<Vec2>, a: usize, b: usize) -> Segment {
    Segment(pts[a as int], pts[b as int])
}

/// Whether the chord from `ring[0]` to `d` meets a boundary edge of the ring
/// that has neither end at `ring[0]` or `d`.
pub open spec fn crosses_boundary(pts: Seq<Vec2>, ring: Seq<usize>, d: usize) -> bool {
    exists|j: int|
        1 <= j < ring.len() - 1 && ring[j] != d && ring[j + 1] != d
            && #[trigger] segments_intersect(segment_of(pts, ring[0], d), segment_of(pts, ring[j], ring[j + 1]))
}

/// Whether the chord from `ring[0]` to `d` leaves that vertex into the
/// polygon's interior, for a ring that runs counter-clockwise.
///
/// At a convex vertex the chord must lie strictly inside the interior
/// wedge; at a reflex one it must not lie in the exterior wedge.
pub open spec fn in_cone(pts: Seq<Vec2>, ring: Seq<usize>, d: usize) -> bool {
    let prev = pts[ring[ring.len() - 1] as int];
    let base = pts[ring[0] as int];
    let next = pts[ring[next_pos(ring, 0)] as int];
    let diag = pts[d as int];
    if linearity_of(prev, base, next) == Linearity::CounterClockwise {
        linearity_of(prev, base, diag) == Linearity::CounterClockwise
            && linearity_of(base, next, diag) == Linearity::CounterClockwise
    } else {
        !(linearity_of(base, diag, next) == Linearity::CounterClockwise
            && linearity_of(next, base, prev) == Linearity::CounterClockwise)
    }
}

/// Whether the chord from `ring[0]` to `d` is a diagonal of the live ring:
/// it crosses no boundary edge and starts into the interior.
pub open spec fn diagonal_ok(pts: Seq<Vec2>, ring: Seq<usize>, d: usize) -> bool {
    !crosses_boundary(pts, ring, d) && in_cone(pts, ring, d)
}

/// Two rings that the same links run around, and that start at the same
/// vertex, are the same ring.
pub proof fn lemma_ring_unique(links: Seq<ReferenceVertex>, r1: Seq<usize>, r2: Seq<usize>, n_points: int)
    requires
        links_ring(links, r1, n_points),
        links_ring(links, r2, n_points),
        r1[0] == r2[0],
    ensures
        r1 == r2,
{
    let m = if r1.len() <= r2.len() { r1.len() } else { r2.len() };
    assert forall|k: int| 0 <= k < m implies r1[k] == r2[k] by {
        lemma_ring_prefix(links, r1, r2, n_points, k);
    }
    if r1.len() < r2.len() {
        lemma_ring_prefix(links, r1, r2, n_points, r1.len() - 1);
        assert(links[r2[r1.len() - 1] as int].next == r2[next_pos(r2, r1.len() - 1)]);
        assert(links[r1[r1.len() - 1] as int].next == r1[next_pos(r1, r1.len() - 1)]);
        assert(r2[r1.len() as int] == r2[0]);
    } else if r2.len() < r1.len() {
        lemma_ring_prefix(links, r1, r2, n_points, r2.len() - 1);
        assert(links[r2[r2.len() - 1] as int].next == r2[next_pos(r2, r2.len() - 1)]);
        assert(links[r1[r2.len() - 1] as int].next == r1[next_pos(r1, r2.len() - 1)]);
        assert(r1[r2.len() as int] == r1[0]);
    }
    assert(r1 =~= r2);
}

proof fn lemma_ring_prefix(links: Seq<ReferenceVertex>, r1: Seq<usize>, r2: Seq<usize>, n_points: int, k: int)
    requires
        links_ring(links, r1, n_points),
        links_ring(links, r2, n_points),
        r1[0] == r2[0],
        0 <= k < r1.len(),
        k < r2.len(),
    ensures
        r1[k] == r2[k],
    decreases k,
{
    if k > 0 {
        lemma_ring_prefix(links, r1, r2, n_points, k - 1);
        assert(links[r1[k - 1] as int].next == r1[k]);
        assert(links[r2[k - 1] as int].next == r2[k]);
    }
}

/// Turning a ring keeps the links running around it.
pub proof fn lemma_rotate(links: Seq<ReferenceVertex>, ring: Seq<usize>, n_points: int, p: int)
    requires
        links_ring(links, ring, n_points),
        0 <= p < ring.len(),
    ensures
        links_ring(links, rotate(ring, p), n_points),
        rotate(ring, p)[0] == ring[p],
        rotate(ring, p).len() == ring.len(),
        rotate(ring, p).to_set() == ring.to_set(),
{
    let r = rotate(ring, p);
    let len = ring.len() as int;
    assert forall|i: int| 0 <= i < len implies #[trigger] r[i] == ring[if i < len - p { p + i } else { i - (len - p) }] by {
    }
    assert forall|i: int, j: int| 0 <= i < len && 0 <= j < len && i != j implies r[i] != r[j] by {
        let a = if i < len - p { p + i } else { i - (len - p) };
        let b = if j < len - p { p + j } else { j - (len - p) };
        assert(r[i] == ring[a]);
        assert(r[j] == ring[b]);
    }
    assert forall|i: int| 0 <= i < len implies (#[trigger] links[r[i] as int]).next == r[next_pos(r, i)]
        && links[r[i] as int].prev == r[prev_pos(r, i)] by {
        let a = if i < len - p { p + i } else { i - (len - p) };
        assert(r[i] == ring[a]);
        let ni = next_pos(r, i);
        let na = if ni < len - p { p + ni } else { ni - (len - p) };
        assert(r[ni] == ring[na]);
        let pi = prev_pos(r, i);
        let pa = if pi < len - p { p + pi } else { pi - (len - p) };
        assert(r[pi] == ring[pa]);
        assert(links[ring[a] as int].next == ring[next_pos(ring, a)]);
        assert(links[ring[a] as int].prev == ring[prev_pos(ring, a)]);
    }
    assert forall|i: int| 0 <= i < len implies #[trigger] r[i] < links.len() && r[i] < n_points by {
        let a = if i < len - p { p + i } else { i - (len - p) };
        assert(r[i] == ring[a]);
    }
    assert(r.no_duplicates());
    assert forall|v: usize| r.to_set().contains(v) <==> ring.to_set().contains(v) by {
        if r.to_set().contains(v) {
            let i = choose|i: int| 0 <= i < len && r[i] == v;
            let a = if i < len - p { p + i } else { i - (len - p) };
            assert(r[i] == ring[a]);
        }
        if ring.to_set().contains(v) {
            let a = choose|a: int| 0 <= a < len && ring[a] == v;
            let i = if a >= p { a - p } else { a + (len - p) };
            assert(r[i] == ring[a]);
        }
    }
    assert(r.to_set() =~= ring.to_set());
}

/// The links of a polygon's vertices while ears are clipped from it.
pub struct ReferenceVertices {
    pub ear_vertices: Vec<ReferenceVertex>,
    /// The live vertices in boundary order.
    pub ring: Ghost<Seq<usize>>,
}

/// The ring `0, 1, ..., n - 1`.
pub open spec fn natural_ring(n: int) -> Seq<usize> {
    Seq::new(n as nat, |i: int| i as usize)
}

/// `ring` without its entry at position `p`.
pub open spec fn ring_without(ring: Seq<usize>, p: int) -> Seq<usize> {
    ring.remove(p)
}

/// The links of `links` with every vertex's `prev` and `next` swapped.
pub open spec fn swapped(links: Seq<ReferenceVertex>) -> Seq<ReferenceVertex> {
    links.map_values(|l: ReferenceVertex| ReferenceVertex { prev: l.next, next: l.prev, is_ear: l.is_ear })
}

/// Whether vertex `ring[p]` is an ear of `ring`: the chord between its two
/// neighbours is a diagonal.
#[verifier::opaque]
pub open spec fn ear_at(pts: Seq<Vec2>, ring: Seq<usize>, p: int) -> bool {
    diagonal_ok(pts, rotate(ring, prev_pos(ring, p)), ring[next_pos(ring, p)])
}

/// Swapping every vertex's neighbours makes the links run around the
/// reversed ring.
pub proof fn lemma_reverse(links: Seq<ReferenceVertex>, ring: Seq<usize>, n_points: int)
    requires
        links_ring(links, ring, n_points),
    ensures
        links_ring(swapped(links), ring.reverse(), n_points),
        ring.reverse().to_set() == ring.to_set(),
{
    let r = ring.reverse();
    let len = ring.len() as int;
    let sl = swapped(links);
    assert forall|i: int, j: int| 0 <= i < len && 0 <= j < len && i != j implies r[i] != r[j] by {
        assert(r[i] == ring[len - 1 - i]);
        assert(r[j] == ring[len - 1 - j]);
    }
    assert(r.no_duplicates());
    assert forall|i: int| 0 <= i < len implies #[trigger] r[i] < sl.len() && r[i] < n_points by {
        assert(r[i] == ring[len - 1 - i]);
    }
    assert forall|i: int| 0 <= i < len implies (#[trigger] sl[r[i] as int]).next == r[next_pos(r, i)]
        && sl[r[i] as int].prev == r[prev_pos(r, i)] by {
        let a = len - 1 - i;
        assert(r[i] == ring[a]);
        assert(links[ring[a] as int].next == ring[next_pos(ring, a)]);
        assert(links[ring[a] as int].prev == ring[prev_pos(ring, a)]);
        assert(r[next_pos(r, i)] == ring[len - 1 - next_pos(r, i)]);
        assert(r[prev_pos(r, i)] == ring[len - 1 - prev_pos(r, i)]);
    }
    assert forall|v: usize| r.to_set().contains(v) <==> ring.to_set().contains(v) by {
        if r.to_set().contains(v) {
            let i = choose|i: int| 0 <= i < len && r[i] == v;
            assert(r[i] == ring[len - 1 - i]);
        }
        if ring.to_set().contains(v) {
            let a = choose|a: int| 0 <= a < len && ring[a] == v;
            assert(r[len - 1 - a] == ring[a]);
        }
    }
    assert(r.to_set() =~= ring.to_set());
}

/// Unlinking the vertex at position `p` of a ring of at least four makes
/// the links run around the ring without it.
pub proof fn lemma_unlink(links: Seq<ReferenceVertex>, ring: Seq<usize>, n_points: int, p: int, new_links: Seq<ReferenceVertex>)
    requires
        links_ring(links, ring, n_points),
        ring.len() >= 4,
        0 <= p < ring.len(),
        new_links.len() == links.len(),
        new_links[ring[prev_pos(ring, p)] as int].next == ring[next_pos(ring, p)],
        new_links[ring[prev_pos(ring, p)] as int].prev == links[ring[prev_pos(ring, p)] as int].prev,
        new_links[ring[next_pos(ring, p)] as int].prev == ring[prev_pos(ring, p)],
        new_links[ring[next_pos(ring, p)] as int].next == links[ring[next_pos(ring, p)] as int].next,
        forall|v: int| 0 <= v < links.len() && v != ring[prev_pos(ring, p)] && v != ring[next_pos(ring, p)]
            ==> (#[trigger] new_links[v]).prev == links[v].prev && new_links[v].next == links[v].next,
    ensures
        links_ring(new_links, ring_without(ring, p), n_points),
{
    let r = ring_without(ring, p);
    let len = ring.len() as int;
    let pp = prev_pos(ring, p);
    let np = next_pos(ring, p);
    // position in `ring` of entry `i` of `r`
    assert forall|i: int| 0 <= i < len - 1 implies #[trigger] r[i] == ring[if i < p { i } else { i + 1 }] by {
    }
    assert forall|i: int, j: int| 0 <= i < len - 1 && 0 <= j < len - 1 && i != j implies r[i] != r[j] by {
        assert(r[i] == ring[if i < p { i } else { i + 1 }]);
        assert(r[j] == ring[if j < p { j } else { j + 1 }]);
    }
    assert(r.no_duplicates());
    assert forall|i: int| 0 <= i < len - 1 implies #[trigger] r[i] < new_links.len() && r[i] < n_points by {
        assert(r[i] == ring[if i < p { i } else { i + 1 }]);
    }
    assert forall|i: int| 0 <= i < len - 1 implies (#[trigger] new_links[r[i] as int]).next == r[next_pos(r, i)]
        && new_links[r[i] as int].prev == r[prev_pos(r, i)] by {
        let a = if i < p { i } else { i + 1 };
        assert(r[i] == ring[a]);
        let ni = next_pos(r, i);
        let pi = prev_pos(r, i);
        assert(r[ni] == ring[if ni < p { ni } else { ni + 1 }]);
        assert(r[pi] == ring[if pi < p { pi } else { pi + 1 }]);
        assert(links[ring[a] as int].next == ring[next_pos(ring, a)]);
        assert(links[ring[a] as int].prev == ring[prev_pos(ring, a)]);
        assert(links[ring[p] as int].next == ring[np]);
        if a == pp {
            assert(ring[a] != ring[np]);
        } else if a == np {
            assert(ring[a] != ring[pp]);
        } else {
            assert(ring[a] != ring[pp]);
            assert(ring[a] != ring[np]);
        }
    }
}

impl ReferenceVertices {
    /// Whether the links run around `ring`, over `n` vertices, and no
    /// vertex off the ring is marked as an ear.
    pub open spec fn wf(&self, n: int) -> bool {
        &&& self.ear_vertices.len() == n
        &&& links_ring(self.ear_vertices@, self.ring@, n)
        &&& forall|v: int| 0 <= v < n && !self.ring@.contains(v as usize) ==> !(#[trigger] self.ear_vertices@[v]).is_ear
    }

    /// The links of a polygon's boundary in its own order: vertex `i` sits
    /// between `i - 1` and `i + 1`, cyclically. No vertex is marked as an
    /// ear yet.
    pub fn new(polygon: &Polygon) -> (r: ReferenceVertices)
        ensures
            r.wf(polygon@.len() as int),
            r.ring@ == natural_ring(polygon@.len() as int),
            forall|v: int| 0 <= v < polygon@.len() ==> !(#[trigger] r.ear_vertices@[v]).is_ear,
    {
        let vertices = polygon.vertices();
        let n = vertices.len();
        let mut ear_vertices: Vec<ReferenceVertex> = Vec::new();
        let last_vertex_index = n - 1;
        let ghost ring = natural_ring(n as int);

        // the first vertex wraps round to the last
        ear_vertices.push(ReferenceVertex { prev: last_vertex_index, next: 1, is_ear: false });
        let mut i: usize = 1;
        while i < last_vertex_index
            invariant
                n == polygon@.len(),
                3 <= n,
                last_vertex_index == n - 1,
                1 <= i <= last_vertex_index,
                ear_vertices.len() == i,
                ear_vertices@[0] == (ReferenceVertex { prev: last_vertex_index, next: 1, is_ear: false }),
                forall|j: int| 1 <= j < i ==> #[trigger] ear_vertices@[j] == (ReferenceVertex { prev: (j - 1) as usize, next: (j + 1) as usize, is_ear: false }),
            decreases last_vertex_index - i,
        {
            ear_vertices.push(ReferenceVertex { prev: i - 1, next: i + 1, is_ear: false });
            i = i + 1;
        }
        // the last vertex wraps round to the first
        ear_vertices.push(ReferenceVertex { prev: last_vertex_index - 1, next: 0, is_ear: false });
        proof {
            assert(ring.no_duplicates());
            assert forall|i: int| 0 <= i < ring.len() implies (#[trigger] ear_vertices@[ring[i] as int]).next == ring[next_pos(ring, i)]
                && ear_vertices@[ring[i] as int].prev == ring[prev_pos(ring, i)] by {
            }
        }
        ReferenceVertices { ear_vertices, ring: Ghost(ring) }
    }

    /// Runs the ring the other way round, by swapping every vertex's
    /// neighbours.
    pub fn reverse(&mut self)
        requires
            old(self).wf(old(self).ear_vertices.len() as int),
        ensures
            final(self).wf(old(self).ear_vertices.len() as int),
            final(self).ring@ == old(self).ring@.reverse(),
            final(self).ear_vertices@ == swapped(old(self).ear_vertices@),
    {
        let len = self.ear_vertices.len();
        let mut i: usize = 0;
        let ghost links = self.ear_vertices@;
        let ghost n = len as int;
        while i < len
            invariant
                len == self.ear_vertices.len() == links.len(),
                links == old(self).ear_vertices@,
                self.ring@ == old(self).ring@,
                old(self).wf(n),
                n == len,
                i <= len,
                forall|j: int| 0 <= j < i ==> #[trigger] self.ear_vertices@[j] == swapped(links)[j],
                forall|j: int| i <= j < len ==> #[trigger] self.ear_vertices@[j] == links[j],
            decreases len - i,
        {
            let l = self.ear_vertices[i];
            self.ear_vertices.set(i, ReferenceVertex { prev: l.next, next: l.prev, is_ear: l.is_ear });
            i = i + 1;
        }
        proof {
            assert(self.ear_vertices@ =~= swapped(links));
            lemma_reverse(links, self.ring@, n);
            let r = self.ring@;
            assert forall|v: int| 0 <= v < n && !r.reverse().contains(v as usize) implies !(#[trigger] self.ear_vertices@[v]).is_ear by {
                assert(self.ear_vertices@[v] == swapped(links)[v]);
                assert(r.to_set().contains(v as usize) == r.contains(v as usize));
                assert(r.reverse().to_set().contains(v as usize) == r.reverse().contains(v as usize));
            }
            self.ring = Ghost(r.reverse());
        }
    }
}

impl ReferenceVertices {
    /// Whether the chord from vertex `base_index` to vertex `diagonal_index`
    /// is a diagonal of the ring that `ear_vertices` link, which runs
    /// counter-clockwise: it meets no boundary edge that has neither end
    /// at the two vertices, and it starts into the interior at `base_index`.
    pub fn is_diagonal(
        vertices: &Vec<Vec2>,
        ear_vertices: &Vec<ReferenceVertex>,
        base_index: usize,
        diagonal_index: usize,
    ) -> (r: bool)
        requires
            diagonal_index < vertices.len(),
            exists|ring: Seq<usize>| links_ring(ear_vertices@, ring, vertices@.len() as int) && ring[0] == base_index,
        ensures
            forall|ring: Seq<usize>|
                links_ring(ear_vertices@, ring, vertices@.len() as int) && ring[0] == base_index
                    ==> r == diagonal_ok(vertices@, ring, diagonal_index),
    {
        let ghost ring = choose|ring: Seq<usize>| links_ring(ear_vertices@, ring, vertices@.len() as int) && ring[0] == base_index;
        let ghost pts = vertices@;
        let ghost len = ring.len() as int;
        proof {
            assert forall|other: Seq<usize>| links_ring(ear_vertices@, other, vertices@.len() as int) && other[0] == base_index
                implies other == ring by {
                lemma_ring_unique(ear_vertices@, ring, other, vertices@.len() as int);
            }
            assert(ring[0] < ear_vertices.len());
        }
        let base_vertex = vertices[base_index];
        let diagonal_vertex = vertices[diagonal_index];
        let test_segment = Segment(base_vertex, diagonal_vertex);

        // the chord must meet no edge of the live boundary
        let mut first_vertex = ear_vertices[base_index].next;
        let ghost mut j: int = 1;
        proof {
            assert(ear_vertices@[ring[0] as int].next == ring[next_pos(ring, 0)]);
        }
        while ear_vertices[first_vertex].next != base_index
            invariant
                links_ring(ear_vertices@, ring, pts.len() as int),
                pts == vertices@,
                ring[0] == base_index,
                forall|other: Seq<usize>| links_ring(ear_vertices@, other, pts.len() as int) && other[0] == base_index
                    ==> other == ring,
                len == ring.len(),
                test_segment == segment_of(pts, base_index, diagonal_index),
                1 <= j,
                j < len || (j == 1 && len == 1),
                first_vertex == ring[next_pos(ring, j - 1)],
                j < len ==> next_pos(ring, j - 1) == j,
                forall|k: int|
                    1 <= k < j && k < len - 1 && ring[k] != diagonal_index && ring[k + 1] != diagonal_index
                        ==> !#[trigger] segments_intersect(segment_of(pts, ring[0], diagonal_index), segment_of(pts, ring[k], ring[k + 1])),
            decreases len - j,
        {
            proof {
                assert(ring[next_pos(ring, j - 1)] < ear_vertices.len());
                if len == 1 {
                    assert(ear_vertices@[ring[0] as int].next == ring[next_pos(ring, 0)]);
                } else {
                    assert(ear_vertices@[ring[j] as int].next == ring[next_pos(ring, j)]);
                    if j + 1 >= len {
                        assert(false);
                    }
                }
            }
            let next_vertex = ear_vertices[first_vertex].next;

            // edges that share an end with the chord cannot cross it
            if first_vertex != diagonal_index && next_vertex != diagonal_index {
                let edge = Segment(vertices[first_vertex], vertices[next_vertex]);
                if test_segment.intersects(&edge) {
                    proof {
                        assert(segments_intersect(segment_of(pts, ring[0], diagonal_index), segment_of(pts, ring[j], ring[j + 1])));
                        assert(crosses_boundary(pts, ring, diagonal_index));
                        assert(!diagonal_ok(pts, ring, diagonal_index));
                    }
                    return false;
                }
            }
            first_vertex = next_vertex;
            proof {
                j = j + 1;
            }
        }
        proof {
            if len > 1 {
                assert(ear_vertices@[ring[j] as int].next == ring[next_pos(ring, j)]);
                if j + 1 < len {
                    assert(ring[j + 1] != ring[0]);
                }
            }
            assert(!crosses_boundary(pts, ring, diagonal_index));
        }

        let prev_base_vertex = vertices[ear_vertices[base_index].prev];
        let next_base_vertex = vertices[ear_vertices[base_index].next];
        proof {
            assert(ear_vertices@[ring[0] as int].prev == ring[prev_pos(ring, 0)]);
            assert(ear_vertices@[ring[0] as int].next == ring[next_pos(ring, 0)]);
        }

        // the chord must start into the interior
        if Linearity::linearity(prev_base_vertex, base_vertex, next_base_vertex) == Linearity::CounterClockwise {
            // a convex vertex: the chord lies inside its interior wedge
            Linearity::linearity(prev_base_vertex, base_vertex, diagonal_vertex) == Linearity::CounterClockwise
                && Linearity::linearity(base_vertex, next_base_vertex, diagonal_vertex) == Linearity::CounterClockwise
        } else {
            // a reflex vertex: the chord avoids its exterior wedge
            !(Linearity::linearity(base_vertex, diagonal_vertex, next_base_vertex) == Linearity::CounterClockwise
                && Linearity::linearity(next_base_vertex, base_vertex, prev_base_vertex) == Linearity::CounterClockwise)
        }
    }

    /// Recomputes whether live vertex `v` is an ear: whether the chord
    /// between its two neighbours is a diagonal. Nothing else changes.
    pub fn update_ear(&mut self, vertices: &Vec<Vec2>, v: usize)
        requires
            old(self).wf(vertices@.len() as int),
            old(self).ring@.contains(v),
        ensures
            final(self).wf(vertices@.len() as int),
            final(self).ring@ == old(self).ring@,
            final(self).ear_vertices@ == old(self).ear_vertices@.update(
                v as int,
                ReferenceVertex {
                    is_ear: ear_at(vertices@, old(self).ring@, old(self).ring@.index_of(v)),
                    ..old(self).ear_vertices@[v as int]
                },
            ),
    {
        let ghost ring = self.ring@;
        let ghost n = vertices@.len() as int;
        let ghost p = ring.index_of(v);
        let ghost q = prev_pos(ring, p);
        proof {
            assert(self.ear_vertices@[ring[p] as int].prev == ring[prev_pos(ring, p)]);
            assert(self.ear_vertices@[ring[p] as int].next == ring[next_pos(ring, p)]);
            assert(ring[next_pos(ring, p)] < n);
            lemma_rotate(self.ear_vertices@, ring, n, q);
        }
        let l = self.ear_vertices[v];
        let is_ear = ReferenceVertices::is_diagonal(vertices, &self.ear_vertices, l.prev, l.next);
        proof {
            reveal(ear_at);
            assert(is_ear == ear_at(vertices@, ring, p));
        }
        self.ear_vertices.set(v, ReferenceVertex { prev: l.prev, next: l.next, is_ear });
        proof {
            let links = old(self).ear_vertices@;
            assert forall|i: int| 0 <= i < ring.len() implies (#[trigger] self.ear_vertices@[ring[i] as int]).next == ring[next_pos(ring, i)]
                && self.ear_vertices@[ring[i] as int].prev == ring[prev_pos(ring, i)] by {
                assert(links[ring[i] as int].next == ring[next_pos(ring, i)]);
            }
            assert forall|u: int| 0 <= u < n && !ring.contains(u as usize) implies !(#[trigger] self.ear_vertices@[u]).is_ear by {
                assert(links[u] == self.ear_vertices@[u]);
            }
        }
    }

    /// Unlinks live vertex `v` from a ring of at least four: its neighbours
    /// become neighbours of each other, and `v` is no longer an ear.
    pub fn clip(&mut self, v: usize)
        requires
            old(self).wf(old(self).ear_vertices.len() as int),
            old(self).ring@.contains(v),
            old(self).ring@.len() >= 4,
        ensures
            final(self).wf(old(self).ear_vertices.len() as int),
            final(self).ring@ == ring_without(old(self).ring@, old(self).ring@.index_of(v)),
            final(self).ear_vertices.len() == old(self).ear_vertices.len(),
            !final(self).ear_vertices@[v as int].is_ear,
            forall|u: int|
                0 <= u < old(self).ear_vertices.len() && u != v ==> (#[trigger] final(self).ear_vertices@[u]).is_ear
                    == old(self).ear_vertices@[u].is_ear,
    {
        let ghost ring = self.ring@;
        let ghost n = self.ear_vertices.len() as int;
        let ghost p = ring.index_of(v);
        let ghost links = self.ear_vertices@;
        proof {
            assert(links[ring[p] as int].prev == ring[prev_pos(ring, p)]);
            assert(links[ring[p] as int].next == ring[next_pos(ring, p)]);
            assert(ring[prev_pos(ring, p)] < n);
            assert(ring[next_pos(ring, p)] < n);
        }
        let l = self.ear_vertices[v];
        let before = self.ear_vertices[l.prev];
        self.ear_vertices.set(l.prev, ReferenceVertex { prev: before.prev, next: l.next, is_ear: before.is_ear });
        let after = self.ear_vertices[l.next];
        self.ear_vertices.set(l.next, ReferenceVertex { prev: l.prev, next: after.next, is_ear: after.is_ear });
        self.ear_vertices.set(v, ReferenceVertex { prev: l.prev, next: l.next, is_ear: false });
        proof {
            assert(ring[prev_pos(ring, p)] != ring[next_pos(ring, p)]);
            assert(ring[prev_pos(ring, p)] != ring[p]);
            assert(ring[next_pos(ring, p)] != ring[p]);
            lemma_unlink(links, ring, n, p, self.ear_vertices@);
            let r = ring_without(ring, p);
            assert forall|u: int| 0 <= u < n && !r.contains(u as usize) implies !(#[trigger] self.ear_vertices@[u]).is_ear by {
                if u != v as int {
                    if ring.contains(u as usize) {
                        let k = ring.index_of(u as usize);
                        assert(k != p);
                        assert(r[if k < p { k } else { k - 1 }] == u as usize);
                    }
                    if u != ring[prev_pos(ring, p)] as int && u != ring[next_pos(ring, p)] as int {
                        assert(links[u] == self.ear_vertices@[u]);
                    } else {
                        let k = if u == ring[prev_pos(ring, p)] as int { prev_pos(ring, p) } else { next_pos(ring, p) };
                        assert(r[if k < p { k } else { k - 1 }] == u as usize);
                    }
                }
            }
            self.ring = Ghost(r);
        }
    }
}

} // verus!
