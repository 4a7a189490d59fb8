use earclip::{triangulate, Error, Polygon, Triangle, Vec2};

fn polygon(points: &[(i32, i32)]) -> Polygon {
    Polygon::new(points.iter().map(|&(x, y)| Vec2(x, y)).collect()).unwrap()
}

/// Twice the area of each triangle, summed.
fn doubled_area(p: &Polygon, tris: &[Triangle]) -> i64 {
    let v = p.vertices();
    tris.iter()
        .map(|&(a, b, c)| {
            let (a, b, c) = (v[a], v[b], v[c]);
            let cross = (b.0 as i64 - a.0 as i64) * (c.1 as i64 - a.1 as i64)
                - (b.1 as i64 - a.1 as i64) * (c.0 as i64 - a.0 as i64);
            cross.abs()
        })
        .sum()
}

fn every_vertex_used(n: usize, tris: &[Triangle]) -> bool {
    (0..n).all(|v| tris.iter().any(|&(a, b, c)| a == v || b == v || c == v))
}

#[test]
fn triangulate_unit_square() {
    let square = polygon(&[(0, 0), (1, 0), (1, 1), (0, 1)]);
    assert!(!square.is_clockwise());
    let tris = triangulate(&square).unwrap();
    assert_eq!(tris, vec![(3, 0, 1), (3, 1, 2)]);
    // unit area, doubled
    assert_eq!(doubled_area(&square, &tris), 2);
}

#[test]
fn triangulate_clockwise_square() {
    let square = polygon(&[(0, 1), (1, 1), (1, 0), (0, 0)]);
    assert!(square.is_clockwise());
    let tris = triangulate(&square).unwrap();
    assert_eq!(tris, vec![(1, 0, 3), (1, 3, 2)]);
    assert_eq!(doubled_area(&square, &tris), 2);
}

#[test]
fn triangulate_triangle() {
    let t = polygon(&[(1, 1), (2, 1), (1, 2)]);
    assert_eq!(triangulate(&t).unwrap(), vec![(2, 0, 1)]);
    let t = polygon(&[(1, 2), (2, 1), (1, 1)]);
    assert_eq!(triangulate(&t).unwrap(), vec![(1, 0, 2)]);
}

#[test]
fn triangulate_reflex_quad() {
    let quad = polygon(&[(0, 0), (1, 1), (2, 0), (1, 2)]);
    let tris = triangulate(&quad).unwrap();
    assert_eq!(tris, vec![(3, 0, 1), (3, 1, 2)]);
    assert_eq!(doubled_area(&quad, &tris), 2);
}

#[test]
fn triangulate_notched_pentagon() {
    let p = polygon(&[(0, 0), (4, 0), (4, 4), (2, 1), (0, 4)]);
    let tris = triangulate(&p).unwrap();
    assert_eq!(tris, vec![(1, 2, 3), (0, 1, 3), (0, 3, 4)]);
    assert_eq!(doubled_area(&p, &tris), 20);
}

#[test]
fn triangulate_u_shape() {
    let p = polygon(&[(0, 0), (6, 0), (6, 6), (4, 6), (4, 2), (2, 2), (2, 6), (0, 6)]);
    let tris = triangulate(&p).unwrap();
    assert_eq!(tris.len(), 6);
    assert_eq!(tris, vec![(1, 2, 3), (1, 3, 4), (0, 1, 4), (0, 4, 5), (7, 0, 5), (7, 5, 6)]);
    // 36 - 8 = 28, doubled
    assert_eq!(doubled_area(&p, &tris), 56);
    assert!(every_vertex_used(8, &tris));
}

#[test]
fn triangulate_uses_every_vertex() {
    let p = polygon(&[(0, 0), (2, 0), (2, 2), (0, 2), (1, 1)]);
    let tris = triangulate(&p).unwrap();
    assert_eq!(tris.len(), 3);
    assert!(every_vertex_used(5, &tris));
    for &(a, b, c) in &tris {
        assert!(a < 5 && b < 5 && c < 5);
        assert!(a != b && b != c && a != c);
    }
}

#[test]
fn triangulate_self_intersecting_finds_no_ear() {
    let p = polygon(&[(0, 0), (4, 4), (4, 0), (0, 4), (2, 6)]);
    assert_eq!(triangulate(&p).unwrap_err(), Error::NoEarFound);
    let p = polygon(&[(0, 0), (4, 0), (4, 4), (0, 4), (6, 2)]);
    assert_eq!(triangulate(&p).unwrap_err(), Error::NoEarFound);
}
