use vstd::prelude::*;
use crate::area::{lemma_cross_rotate, lemma_ring_remove, lemma_ring_reverse, lemma_ring_triangle, lemma_winding_is_area, ring_area};
use crate::polygon::{Error, Polygon, winding_sum};
use crate::vec::{Vec2, cross};
use crate::reference_vertices::{ReferenceVertex, ReferenceVertices, ear_at, natural_ring, next_pos, prev_pos};

verus! {

/// A triangle named by three vertex indices of the polygon.
pub type Triangle = (usize, usize, usize);

/// Whether triangle `t` has vertex `v` as a corner.
pub open spec fn has_corner(t: Triangle, v: usize) -> bool {
    t.0 == v || t.1 == v || t.2 == v
}

/// Whether vertex `v` is a corner of some triangle of `tris`.
pub open spec fn is_corner_of(tris: Seq<Triangle>, v: usize) -> bool {
    exists|k: int| 0 <= k < tris.len() && has_corner(#[trigger] tris[k], v)
}

/// Twice the signed area of triangle `t` over the points `pts`.
pub open spec fn triangle_area(pts: Seq<Vec2>, t: Triangle) -> int {
    cross(pts[t.0 as int], pts[t.1 as int], pts[t.2 as int])
}

/// The sum of the doubled signed areas of `tris`.
pub open spec fn triangles_area(pts: Seq<Vec2>, tris: Seq<Triangle>) -> int
    decreases tris.len(),
{
    if tris.len() == 0 {
        0
    } else {
        triangles_area(pts, tris.drop_last()) + triangle_area(pts, tris[tris.len() - 1])
    }
}

/// Twice the area that a polygon's ring encloses, whichever way it runs.
pub open spec fn doubled_area(pts: Seq<Vec2>) -> int {
    if winding_sum(pts) > 0 {
        winding_sum(pts)
    } else {
        -winding_sum(pts)
    }
}

/// Whether `t` names three distinct vertices of a polygon of `n` vertices.
pub open spec fn valid_triangle(t: Triangle, n: int) -> bool {
    t.0 < n && t.1 < n && t.2 < n && t.0 != t.1 && t.1 != t.2 && t.0 != t.2
}

/// Whether `tris` is a triangulation's outline for `n` vertices: `n - 2`
/// triangles of distinct polygon vertices, with every vertex a corner of
/// at least one of them.
pub open spec fn covers_polygon(tris: Seq<Triangle>, n: int) -> bool {
    &&& tris.len() == n - 2
    &&& forall|k: int| 0 <= k < tris.len() ==> valid_triangle(#[trigger] tris[k], n)
    &&& forall|v: int| 0 <= v < n ==> #[trigger] is_corner_of(tris, v as usize)
}

/// The triangle `(prev, v, next)` that clipping the vertex at position `p`
/// of `ring` cuts off.
pub open spec fn cut(ring: Seq<usize>, p: int) -> Triangle {
    (ring[prev_pos(ring, p)], ring[p], ring[next_pos(ring, p)])
}

/// Whether `tris` is what clipping vertices off `ring` one at a time makes:
/// each triangle is cut off at a live vertex, which then leaves the ring,
/// until the last three vertices make the last triangle.
pub open spec fn clipping_of(ring: Seq<usize>, tris: Seq<Triangle>) -> bool
    decreases tris.len(),
{
    if ring.len() <= 3 {
        ring.len() == 3 && tris.len() == 1 && exists|p: int| 0 <= p < 3 && tris[0] == #[trigger] cut(ring, p)
    } else if tris.len() == 0 {
        false
    } else {
        exists|p: int|
            0 <= p < ring.len() && tris[0] == #[trigger] cut(ring, p) && clipping_of(ring.remove(p), tris.drop_first())
    }
}

/// The ring of a polygon's vertex indices, run counter-clockwise: in index
/// order, or backwards when the polygon is clockwise.
pub open spec fn ccw_ring(pts: Seq<Vec2>) -> Seq<usize> {
    if winding_sum(pts) > 0 {
        natural_ring(pts.len() as int).reverse()
    } else {
        natural_ring(pts.len() as int)
    }
}

/// The `is_ear` flag of every vertex.
pub open spec fn ear_flags(links: Seq<ReferenceVertex>) -> Seq<bool> {
    Seq::new(links.len(), |i: int| links[i].is_ear)
}

/// The lowest vertex index, from `i` on, whose flag is set.
pub open spec fn first_flag(flags: Seq<bool>, i: int) -> Option<usize>
    decreases flags.len() - i,
{
    if i < 0 || i >= flags.len() {
        None
    } else if flags[i] {
        Some(i as usize)
    } else {
        first_flag(flags, i + 1)
    }
}

/// The flags after the vertex at position `p` is clipped from `ring`: it is
/// no longer an ear, and its two neighbours are judged anew on the ring
/// without it. No other flag changes.
pub open spec fn flags_after_clip(pts: Seq<Vec2>, ring: Seq<usize>, flags: Seq<bool>, p: int) -> Seq<bool> {
    let rest = ring.remove(p);
    let prev = ring[prev_pos(ring, p)];
    let next = ring[next_pos(ring, p)];
    flags.update(ring[p] as int, false).update(prev as int, ear_at(pts, rest, rest.index_of(prev))).update(
        next as int,
        ear_at(pts, rest, rest.index_of(next)),
    )
}

/// The triangles that ear clipping emits from the live `ring` with ear
/// flags `flags`, or `None` when it gets stuck.
///
/// While more than three vertices remain, the flagged vertex of lowest
/// index is cut off and its neighbours' flags are recomputed; with none
/// flagged the run fails. Three vertices make the last triangle, starting
/// at `anchor`, the neighbour after the vertex clipped last.
#[verifier::opaque]
pub open spec fn clip_run(pts: Seq<Vec2>, ring: Seq<usize>, flags: Seq<bool>, anchor: usize) -> Option<Seq<Triangle>>
    decreases ring.len(),
{
    if ring.len() <= 3 {
        Some(seq![cut(ring, ring.index_of(anchor))])
    } else {
        match first_flag(flags, 0) {
            None => None,
            Some(v) => if !ring.contains(v) {
                None
            } else {
                let p = ring.index_of(v);
                match clip_run(pts, ring.remove(p), flags_after_clip(pts, ring, flags, p), ring[next_pos(ring, p)]) {
                    None => None,
                    Some(rest) => Some(seq![cut(ring, p)] + rest),
                }
            },
        }
    }
}

/// The ear flags at the start: every vertex judged on the whole
/// counter-clockwise ring.
pub open spec fn initial_flags(pts: Seq<Vec2>) -> Seq<bool> {
    Seq::new(pts.len(), |i: int| ear_at(pts, ccw_ring(pts), ccw_ring(pts).index_of(i as usize)))
}

/// What ear clipping makes of the polygon with points `pts`.
pub open spec fn ear_clipping(pts: Seq<Vec2>) -> Option<Seq<Triangle>> {
    clip_run(pts, ccw_ring(pts), initial_flags(pts), 0)
}

/// `done` followed by what a run from here gives.
pub open spec fn then_run(done: Seq<Triangle>, rest: Option<Seq<Triangle>>) -> Option<Seq<Triangle>> {
    match rest {
        None => None,
        Some(r) => Some(done + r),
    }
}

/// One step of a run: the flagged vertex of lowest index is cut off.
proof fn lemma_run_step(pts: Seq<Vec2>, ring: Seq<usize>, flags: Seq<bool>, anchor: usize, ear: usize)
    requires
        ring.len() > 3,
        first_flag(flags, 0) == Some(ear),
        ring.contains(ear),
    ensures
        clip_run(pts, ring, flags, anchor) == then_run(
            seq![cut(ring, ring.index_of(ear))],
            clip_run(
                pts,
                ring.remove(ring.index_of(ear)),
                flags_after_clip(pts, ring, flags, ring.index_of(ear)),
                ring[next_pos(ring, ring.index_of(ear))],
            ),
        ),
{
    reveal_with_fuel(clip_run, 1);
}

/// A run with more than three vertices and no flag set fails.
proof fn lemma_run_stuck(pts: Seq<Vec2>, ring: Seq<usize>, flags: Seq<bool>, anchor: usize)
    requires
        ring.len() > 3,
        first_flag(flags, 0) is None,
    ensures
        clip_run(pts, ring, flags, anchor) is None,
{
    reveal_with_fuel(clip_run, 1);
}

/// Three vertices make the last triangle.
proof fn lemma_run_last(pts: Seq<Vec2>, ring: Seq<usize>, flags: Seq<bool>, anchor: usize)
    requires
        ring.len() == 3,
    ensures
        clip_run(pts, ring, flags, anchor) == Some(seq![cut(ring, ring.index_of(anchor))]),
{
    reveal_with_fuel(clip_run, 1);
}

proof fn lemma_then_run_push(done: Seq<Triangle>, t: Triangle, rest: Option<Seq<Triangle>>)
    ensures
        then_run(done, then_run(seq![t], rest)) == then_run(done.push(t), rest),
{
    if let Some(r) = rest {
        assert(done + (seq![t] + r) =~= done.push(t) + r);
    }
}

/// The flags after a clip, from the links before it, just after the
/// unlinking, and after both neighbours were judged anew.
proof fn lemma_flags_after(
    pts: Seq<Vec2>,
    ring: Seq<usize>,
    p: int,
    before: Seq<ReferenceVertex>,
    unlinked: Seq<ReferenceVertex>,
    judged: Seq<ReferenceVertex>,
)
    requires
        0 <= p < ring.len(),
        ring[p] < before.len(),
        unlinked.len() == before.len(),
        !unlinked[ring[p] as int].is_ear,
        forall|u: int| 0 <= u < before.len() && u != ring[p] ==> (#[trigger] unlinked[u]).is_ear == before[u].is_ear,
        judged.len() == before.len(),
        judged[ring[prev_pos(ring, p)] as int].is_ear == ear_at(
            pts,
            ring.remove(p),
            ring.remove(p).index_of(ring[prev_pos(ring, p)]),
        ),
        judged[ring[next_pos(ring, p)] as int].is_ear == ear_at(
            pts,
            ring.remove(p),
            ring.remove(p).index_of(ring[next_pos(ring, p)]),
        ),
        ring[prev_pos(ring, p)] < before.len(),
        ring[next_pos(ring, p)] < before.len(),
        forall|u: int|
            0 <= u < before.len() && u != ring[prev_pos(ring, p)] && u != ring[next_pos(ring, p)]
                ==> (#[trigger] judged[u]).is_ear == unlinked[u].is_ear,
    ensures
        ear_flags(judged) == flags_after_clip(pts, ring, ear_flags(before), p),
{
    let after = flags_after_clip(pts, ring, ear_flags(before), p);
    assert forall|j: int| 0 <= j < before.len() implies ear_flags(judged)[j] == after[j] by {
        if j != ring[prev_pos(ring, p)] as int && j != ring[next_pos(ring, p)] as int {
            assert(judged[j].is_ear == unlinked[j].is_ear);
            if j != ring[p] as int {
                assert(unlinked[j].is_ear == before[j].is_ear);
            }
        }
    }
    assert(ear_flags(judged) =~= after);
}

proof fn lemma_first_flag(flags: Seq<bool>, i: int, e: int)
    requires
        0 <= i <= e <= flags.len(),
        forall|j: int| i <= j < e ==> !flags[j],
        e < flags.len() ==> flags[e],
    ensures
        first_flag(flags, i) == if e < flags.len() { Some(e as usize) } else { None::<usize> },
    decreases e - i,
{
    if i < e {
        lemma_first_flag(flags, i + 1, e);
    }
}

/// Triangulates `polygon` by clipping ears.
///
/// The ring is first made to run counter-clockwise. While more than three
/// vertices remain, the live ear of lowest index is clipped off as the
/// triangle `(prev, ear, next)`; the final three vertices make the last
/// triangle. Fails with `NoEarFound` when no ear remains. The result is
/// exactly `ear_clipping(polygon@)`: it fails just when that run does.
#[verifier::rlimit(100)]
pub fn triangulate(polygon: &Polygon) -> (r: Result<Vec<Triangle>, Error>)
    ensures
        r is Err <==> ear_clipping(polygon@) is None,
        r matches Ok(tris) ==> ear_clipping(polygon@) == Some(tris@),
        r matches Ok(tris) ==> clipping_of(ccw_ring(polygon@), tris@),
        r matches Ok(tris) ==> covers_polygon(tris@, polygon@.len() as int),
        r matches Ok(tris) ==> triangles_area(polygon@, tris@) == doubled_area(polygon@),
        r matches Err(e) ==> e == Error::NoEarFound,
        polygon@.len() == 3 ==> r is Ok,
{
    let vertices = polygon.vertices();
    let n = vertices.len();
    let mut topology = ReferenceVertices::new(polygon);
    let ghost natural = topology.ring@;
    let clockwise = polygon.is_clockwise();
    if clockwise {
        topology.reverse();
    }
    let ghost pts = vertices@;
    let ghost whole = ring_area(pts, topology.ring@);
    proof {
        lemma_winding_is_area(pts);
        if clockwise {
            lemma_ring_reverse(pts, natural);
        }
        assert(whole == doubled_area(pts));
        assert(topology.ring@ == ccw_ring(pts));
        assert forall|v: int| 0 <= v < n implies #[trigger] topology.ring@.contains(v as usize) by {
            if clockwise {
                assert(topology.ring@[n - 1 - v] == natural[v]);
            } else {
                assert(topology.ring@[v] == v as usize);
            }
        }
    }

    // find the ears of the initial ring
    let mut i: usize = 0;
    while i < n
        invariant
            n == vertices@.len(),
            pts == vertices@,
            whole == ring_area(pts, topology.ring@),
            topology.ring@ == ccw_ring(pts),
            i <= n,
            topology.wf(n as int),
            topology.ring@.len() == n,
            forall|v: int| 0 <= v < n ==> #[trigger] topology.ring@.contains(v as usize),
            forall|j: int| 0 <= j < i ==> (#[trigger] topology.ear_vertices@[j]).is_ear == initial_flags(pts)[j],
        decreases n - i,
    {
        proof {
            assert(topology.ring@.contains((i as int) as usize));
        }
        topology.update_ear(vertices, i);
        proof {
            assert(topology.ear_vertices@[i as int].is_ear == initial_flags(pts)[i as int]);
        }
        i = i + 1;
    }

    proof {
        assert(topology.ring@.contains((0 as int) as usize));
        assert forall|rest: Seq<Triangle>| #[trigger] clipping_of(topology.ring@, rest) implies clipping_of(
            ccw_ring(pts),
            Seq::<Triangle>::empty() + rest,
        ) by {
            assert(Seq::<Triangle>::empty() + rest =~= rest);
        }
        assert(ear_flags(topology.ear_vertices@) =~= initial_flags(pts));
        let run = clip_run(pts, topology.ring@, ear_flags(topology.ear_vertices@), 0);
        if let Some(t) = run {
            assert(Seq::<Triangle>::empty() + t =~= t);
        }
        assert(ear_clipping(pts) == then_run(Seq::<Triangle>::empty(), run));
    }
    let mut triangles: Vec<Triangle> = Vec::new();
    let mut remaining: usize = n;
    let mut anchor: usize = 0;
    while remaining > 3
        invariant
            n == vertices@.len(),
            vertices@ == polygon@,
            pts == vertices@,
            whole == doubled_area(pts),
            triangles_area(pts, triangles@) + ring_area(pts, topology.ring@) == whole,
            ear_clipping(pts) == then_run(
                triangles@,
                clip_run(pts, topology.ring@, ear_flags(topology.ear_vertices@), anchor),
            ),
            forall|rest: Seq<Triangle>|
                #[trigger] clipping_of(topology.ring@, rest) ==> clipping_of(ccw_ring(pts), triangles@ + rest),
            3 <= remaining <= n,
            topology.wf(n as int),
            topology.ring@.len() == remaining,
            topology.ring@.contains(anchor),
            triangles.len() + remaining == n,
            forall|k: int| 0 <= k < triangles.len() ==> valid_triangle(#[trigger] triangles@[k], n as int),
            forall|v: int|
                0 <= v < n ==> topology.ring@.contains(v as usize) || #[trigger] is_corner_of(triangles@, v as usize),
        decreases remaining,
    {
        // the live ear of lowest index
        let mut ear: usize = 0;
        while ear < n && !topology.ear_vertices[ear].is_ear
            invariant
                n == topology.ear_vertices.len(),
                ear <= n,
                forall|j: int| 0 <= j < ear ==> !(#[trigger] topology.ear_vertices@[j]).is_ear,
            decreases n - ear,
        {
            ear = ear + 1;
        }
        let ghost flags = ear_flags(topology.ear_vertices@);
        proof {
            assert forall|j: int| 0 <= j < ear implies !flags[j] by {
                assert(!topology.ear_vertices@[j].is_ear);
            }
            lemma_first_flag(flags, 0, ear as int);
        }
        if ear == n {
            proof {
                lemma_run_stuck(pts, topology.ring@, flags, anchor);
            }
            return Err(Error::NoEarFound);
        }
        let ghost ring = topology.ring@;
        let ghost p = ring.index_of(ear);
        let ghost old_triangles = triangles@;
        proof {
            assert(ring.contains(ear));
            assert(topology.ear_vertices@[ring[p] as int].prev == ring[prev_pos(ring, p)]);
            assert(topology.ear_vertices@[ring[p] as int].next == ring[next_pos(ring, p)]);
            assert(ring[prev_pos(ring, p)] < n && ring[next_pos(ring, p)] < n);
            assert(ring[prev_pos(ring, p)] != ring[p]);
            assert(ring[next_pos(ring, p)] != ring[p]);
            assert(ring[prev_pos(ring, p)] != ring[next_pos(ring, p)]);
        }
        let l = topology.ear_vertices[ear];
        let ghost old_links = topology.ear_vertices@;
        triangles.push((l.prev, ear, l.next));
        topology.clip(ear);
        let ghost r = topology.ring@;
        proof {
            let pp = prev_pos(ring, p);
            let np = next_pos(ring, p);
            assert(r[if pp < p { pp } else { pp - 1 }] == l.prev);
            assert(r[if np < p { np } else { np - 1 }] == l.next);
            assert(triangles@[triangles.len() - 1] == (l.prev, ear, l.next));
            assert(triangles@.drop_last() =~= old_triangles);
            lemma_ring_remove(pts, ring, p);
            assert forall|rest: Seq<Triangle>| #[trigger] clipping_of(r, rest) implies clipping_of(
                ccw_ring(pts),
                triangles@ + rest,
            ) by {
                let longer = seq![cut(ring, p)] + rest;
                assert(longer[0] == cut(ring, p));
                assert(longer.drop_first() =~= rest);
                assert(clipping_of(ring, longer));
                assert(old_triangles + longer =~= triangles@ + rest);
            }
            assert forall|v: int|
                0 <= v < n implies r.contains(v as usize) || #[trigger] is_corner_of(triangles@, v as usize) by {
                if v == ear as int {
                    assert(has_corner(triangles@[triangles.len() - 1], v as usize));
                } else if ring.contains(v as usize) {
                    let k = ring.index_of(v as usize);
                    assert(r[if k < p { k } else { k - 1 }] == v as usize);
                } else {
                        assert(is_corner_of(old_triangles, v as usize));
                    let k = choose|k: int| 0 <= k < old_triangles.len() && has_corner(#[trigger] old_triangles[k], v as usize);
                    assert(triangles@[k] == old_triangles[k]);
                }
            }
            assert forall|k: int| 0 <= k < triangles.len() implies valid_triangle(#[trigger] triangles@[k], n as int) by {
                if k < old_triangles.len() {
                    assert(triangles@[k] == old_triangles[k]);
                }
            }
        }
        let ghost cut_links = topology.ear_vertices@;
        topology.update_ear(vertices, l.prev);
        topology.update_ear(vertices, l.next);
        proof {
            let after = flags_after_clip(pts, ring, flags, p);
            lemma_flags_after(pts, ring, p, old_links, cut_links, topology.ear_vertices@);
            assert(cut(ring, p) == (l.prev, ear, l.next));
            lemma_run_step(pts, ring, flags, anchor, ear);
            lemma_then_run_push(old_triangles, cut(ring, p), clip_run(pts, r, after, l.next));
            assert(old_triangles.push(cut(ring, p)) == triangles@);
        }
        anchor = l.next;
        remaining = remaining - 1;
    }

    // the last three vertices make the last triangle
    let ghost ring = topology.ring@;
    let ghost p = ring.index_of(anchor);
    let ghost old_triangles = triangles@;
    proof {
        assert(topology.ear_vertices@[ring[p] as int].prev == ring[prev_pos(ring, p)]);
        assert(topology.ear_vertices@[ring[p] as int].next == ring[next_pos(ring, p)]);
        assert(ring[prev_pos(ring, p)] != ring[p]);
        assert(ring[next_pos(ring, p)] != ring[p]);
        assert(ring[prev_pos(ring, p)] != ring[next_pos(ring, p)]);
        assert(ring[prev_pos(ring, p)] < n && ring[next_pos(ring, p)] < n);
    }
    let l = topology.ear_vertices[anchor];
    triangles.push((l.prev, anchor, l.next));
    proof {
        let t = (l.prev, anchor, l.next);
        assert(triangles@[triangles.len() - 1] == t);
        assert(triangles@.drop_last() =~= old_triangles);
        lemma_ring_triangle(pts, ring);
        lemma_cross_rotate(pts[ring[0] as int], pts[ring[1] as int], pts[ring[2] as int]);
        lemma_cross_rotate(pts[ring[2] as int], pts[ring[0] as int], pts[ring[1] as int]);
        let last = seq![t];
        assert(t == cut(ring, p));
        lemma_run_last(pts, ring, ear_flags(topology.ear_vertices@), anchor);
        if let Some(u) = clip_run(pts, ring, ear_flags(topology.ear_vertices@), anchor) {
            assert(old_triangles + u =~= triangles@);
        }
        assert(clipping_of(ring, last));
        assert(old_triangles + last =~= triangles@);
        assert forall|v: int|
            0 <= v < n implies #[trigger] is_corner_of(triangles@, v as usize) by {
            if ring.contains(v as usize) {
                let k = ring.index_of(v as usize);
                assert(k == p || k == prev_pos(ring, p) || k == next_pos(ring, p));
                assert(has_corner(triangles@[triangles.len() - 1], v as usize));
            } else {
                assert(is_corner_of(old_triangles, v as usize));
                let k = choose|k: int| 0 <= k < old_triangles.len() && has_corner(#[trigger] old_triangles[k], v as usize);
                assert(triangles@[k] == old_triangles[k]);
            }
        }
        assert forall|k: int| 0 <= k < triangles.len() implies valid_triangle(#[trigger] triangles@[k], n as int) by {
            if k < old_triangles.len() {
                assert(triangles@[k] == old_triangles[k]);
            }
        }
    }
    Ok(triangles)
}

} // verus!
