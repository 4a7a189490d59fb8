use earclip::{Error, Polygon, Vec2};

#[test]
fn polygon_create() {
    let expected_vertices = vec![Vec2(0, 0), Vec2(0, 0), Vec2(0, 0)];
    let polygon = Polygon::new(expected_vertices.clone()).unwrap();

    assert_eq!(polygon.vertices(), &expected_vertices)
}

#[test]
fn polygon_create_fails_insufficient_vertices() {
    let err = Polygon::new(vec![Vec2(0, 0), Vec2(0, 0)]).unwrap_err();
    assert_eq!(err, Error::InsufficientVertices);
}

#[test]
fn polygon_create_fails_without_vertices() {
    assert_eq!(Polygon::new(vec![]).unwrap_err(), Error::InsufficientVertices);
    assert_eq!(Polygon::new(vec![Vec2(1, 1)]).unwrap_err(), Error::InsufficientVertices);
}

#[test]
fn polygon_translate_empty() {
    let expected_vertices = vec![Vec2(1, 1), Vec2(2, 1), Vec2(1, 2)];
    let polygon = Polygon::new(expected_vertices.clone())
        .unwrap()
        .translate(Vec2(0, 0));

    assert_eq!(polygon.vertices(), &expected_vertices)
}

#[test]
fn polygon_translate() {
    let vertices = vec![Vec2(1, 1), Vec2(2, 1), Vec2(1, 2)];
    let expected_translation = Vec2(1, -1);
    let polygon = Polygon::new(vertices.clone())
        .unwrap()
        .translate(expected_translation);

    let expected_vertices: Vec<_> = vertices
        .into_iter()
        .map(|vertex| vertex + expected_translation)
        .collect();
    assert_eq!(polygon.vertices(), &expected_vertices)
}

#[test]
fn polygon_translate_values() {
    let polygon = Polygon::new(vec![Vec2(1, 1), Vec2(2, 1), Vec2(1, 2)])
        .unwrap()
        .translate(Vec2(3, -4));
    assert_eq!(polygon.vertices(), &vec![Vec2(4, -3), Vec2(5, -3), Vec2(4, -2)]);
}

#[test]
fn polygon_is_clockwise_false() {
    let vertices = vec![Vec2(1, 1), Vec2(2, 1), Vec2(1, 2)];
    let polygon = Polygon::new(vertices.clone()).unwrap();

    assert_eq!(polygon.is_clockwise(), false);
}

#[test]
fn polygon_is_clockwise_true() {
    let vertices = vec![Vec2(1, 2), Vec2(2, 1), Vec2(1, 1)];
    let polygon = Polygon::new(vertices.clone()).unwrap();

    assert_eq!(polygon.is_clockwise(), true);
}

#[test]
fn polygon_is_clockwise_unit_square() {
    let square = Polygon::new(vec![Vec2(0, 0), Vec2(1, 0), Vec2(1, 1), Vec2(0, 1)]).unwrap();
    assert!(!square.is_clockwise());
    let reversed = Polygon::new(vec![Vec2(0, 1), Vec2(1, 1), Vec2(1, 0), Vec2(0, 0)]).unwrap();
    assert!(reversed.is_clockwise());
}

#[test]
fn polygon_is_clockwise_degenerate() {
    let flat = Polygon::new(vec![Vec2(0, 0), Vec2(1, 0), Vec2(2, 0)]).unwrap();
    assert!(!flat.is_clockwise());
}
