use earclip::reference_vertices::{ReferenceVertex, ReferenceVertices};
use earclip::Vec2;

fn natural_links(n: usize) -> Vec<ReferenceVertex> {
    (0..n)
        .map(|i| ReferenceVertex {
            prev: (i + n - 1) % n,
            next: (i + 1) % n,
            is_ear: true,
        })
        .collect()
}

#[test]
fn reference_vertices_is_diagonal_all_convex() {
    let vertices = vec![Vec2(0, 0), Vec2(1, 0), Vec2(1, 1), Vec2(0, 1)];

    let ear_vertices = vec![
        ReferenceVertex { prev: 3, next: 1, is_ear: true },
        ReferenceVertex { prev: 0, next: 2, is_ear: true },
        ReferenceVertex { prev: 1, next: 3, is_ear: true },
        ReferenceVertex { prev: 2, next: 0, is_ear: true },
    ];

    let expected_results = vec![(0, 2, true), (1, 3, true)];

    for (base, next, expect) in expected_results {
        assert_eq!(ReferenceVertices::is_diagonal(&vertices, &ear_vertices, base, next), expect);
        assert_eq!(ReferenceVertices::is_diagonal(&vertices, &ear_vertices, next, base), expect);
    }
}

#[test]
fn reference_vertices_is_diagonal_single_reflex() {
    let vertices = vec![Vec2(0, 0), Vec2(1, 1), Vec2(2, 0), Vec2(1, 2)];

    let ear_vertices = vec![
        ReferenceVertex { prev: 3, next: 1, is_ear: true },
        ReferenceVertex { prev: 0, next: 2, is_ear: false },
        ReferenceVertex { prev: 1, next: 3, is_ear: true },
        ReferenceVertex { prev: 2, next: 0, is_ear: true },
    ];

    let expected_results = vec![(0, 2, false), (1, 3, true)];

    for (base, next, expect) in expected_results {
        assert_eq!(ReferenceVertices::is_diagonal(&vertices, &ear_vertices, base, next), expect);
        assert_eq!(ReferenceVertices::is_diagonal(&vertices, &ear_vertices, next, base), expect);
    }
}

#[test]
fn reference_vertices_is_diagonal_internal_intersection() {
    let vertices = vec![Vec2(0, 0), Vec2(1, 1), Vec2(2, 0), Vec2(2, 1), Vec2(1, 2)];

    let ear_vertices = vec![
        ReferenceVertex { prev: 4, next: 1, is_ear: true },
        ReferenceVertex { prev: 0, next: 2, is_ear: false },
        ReferenceVertex { prev: 1, next: 3, is_ear: true },
        ReferenceVertex { prev: 2, next: 4, is_ear: true },
        ReferenceVertex { prev: 3, next: 0, is_ear: true },
    ];

    let expected_results = vec![
        (0, 2, false),
        (0, 3, false),
        (1, 3, true),
        (1, 4, true),
        (2, 4, true),
    ];

    for (base, next, expect) in expected_results {
        assert_eq!(ReferenceVertices::is_diagonal(&vertices, &ear_vertices, base, next), expect);
        assert_eq!(ReferenceVertices::is_diagonal(&vertices, &ear_vertices, next, base), expect);
    }
}

#[test]
fn reflex_vertex_is_no_ear_while_convex_ones_are() {
    let vertices = vec![Vec2(0, 0), Vec2(1, 1), Vec2(2, 0), Vec2(1, 2)];
    let links = natural_links(4);
    // vertex 1 is reflex: the chord between its neighbours leaves the polygon
    assert!(!ReferenceVertices::is_diagonal(&vertices, &links, 0, 2));
    // vertices 0 and 2 are ears
    assert!(ReferenceVertices::is_diagonal(&vertices, &links, 3, 1));
    assert!(ReferenceVertices::is_diagonal(&vertices, &links, 1, 3));
    // the chord under the reflex vertex is no diagonal from either end
    assert!(!ReferenceVertices::is_diagonal(&vertices, &links, 2, 0));
}

#[test]
fn ring_edge_is_no_diagonal() {
    // vertex 1 has been clipped from the square: 0 -> 2 -> 3 -> 0
    let vertices = vec![Vec2(0, 0), Vec2(1, 0), Vec2(1, 1), Vec2(0, 1)];
    let links = vec![
        ReferenceVertex { prev: 3, next: 2, is_ear: true },
        ReferenceVertex { prev: 0, next: 2, is_ear: false },
        ReferenceVertex { prev: 0, next: 3, is_ear: true },
        ReferenceVertex { prev: 2, next: 0, is_ear: true },
    ];
    // on three live vertices every chord is an edge
    assert!(!ReferenceVertices::is_diagonal(&vertices, &links, 3, 2));
    assert!(!ReferenceVertices::is_diagonal(&vertices, &links, 2, 3));
    assert!(!ReferenceVertices::is_diagonal(&vertices, &links, 0, 2));
}

#[test]
fn new_links_follow_the_polygon() {
    let polygon = earclip::Polygon::new(vec![Vec2(0, 0), Vec2(1, 0), Vec2(1, 1), Vec2(0, 1), Vec2(-1, 1)]).unwrap();
    let topology = ReferenceVertices::new(&polygon);
    let expected: Vec<ReferenceVertex> = natural_links(5)
        .into_iter()
        .map(|l| ReferenceVertex { is_ear: false, ..l })
        .collect();
    assert_eq!(topology.ear_vertices, expected);
}
