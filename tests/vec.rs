use std::ops::Neg;

use earclip::{Linearity, Vec2};

#[test]
fn vec2_neg() {
    let v = Vec2(5, -10);

    let actual = -v;
    assert_eq!(actual.0, -v.0);
    assert_eq!(actual.1, -v.1);
}

#[test]
fn vec2_add() {
    let v1 = Vec2(1, -1);
    let v2 = Vec2(-5, 10);

    let actual = v1 + v2;
    assert_eq!(actual.0, v1.0 + v2.0);
    assert_eq!(actual.1, v1.1 + v2.1);

    let actual = v1 + &v2;
    assert_eq!(actual.0, v1.0 + v2.0);
    assert_eq!(actual.1, v1.1 + v2.1);
}

#[test]
fn vec2_sub() {
    let v1 = Vec2(1, -1);
    let v2 = Vec2(-5, 10);

    let actual = v1 - v2;
    assert_eq!(actual.0, v1.0 - v2.0);
    assert_eq!(actual.1, v1.1 - v2.1);

    let actual = &v1 - &v2;
    assert_eq!(actual.0, v1.0 - v2.0);
    assert_eq!(actual.1, v1.1 - v2.1);
}

#[test]
fn vec2_mul() {
    let v = Vec2(5, -10);
    let s = 5;

    let actual = v * s;
    assert_eq!(actual.0, v.0 * s);
    assert_eq!(actual.1, v.1 * s);
}

#[test]
fn vec2_div() {
    let v = Vec2(5, -10);
    let s = 5;

    let actual = v / s;
    assert_eq!(actual.0, v.0 / s);
    assert_eq!(actual.1, v.1 / s);
}

#[test]
fn vec2_div_rounds_toward_zero() {
    let actual = Vec2(7, -7) / 2;
    assert_eq!(actual, Vec2(3, -3));
}

#[test]
fn vec2_perpendicular() {
    let v = Vec2(-5, 10);

    assert!(v.perpendicular() != v);
    assert_eq!(v.perpendicular().perpendicular().neg(), v);
}

#[test]
fn vec2_perpendicular_value() {
    assert_eq!(Vec2(3, 4).perpendicular(), Vec2(-4, 3));
}

#[test]
fn vec2_distance_squared() {
    assert_eq!(Vec2(1, 2).distance_squared(&Vec2(4, 6)), 25);
    assert_eq!(Vec2(4, 6).distance_squared(&Vec2(1, 2)), 25);
    assert_eq!(Vec2(3, 3).distance_squared(&Vec2(3, 3)), 0);
    assert_eq!(
        Vec2(i32::MIN, i32::MIN).distance_squared(&Vec2(i32::MAX, i32::MAX)),
        2 * (u32::MAX as i128) * (u32::MAX as i128)
    );
}

#[test]
fn linearity_classifies_turns() {
    let a = Vec2(0, 0);
    let b = Vec2(1, 0);
    assert_eq!(Linearity::linearity(a, b, Vec2(1, 1)), Linearity::CounterClockwise);
    assert_eq!(Linearity::linearity(a, b, Vec2(1, -1)), Linearity::Clockwise);
    assert_eq!(Linearity::linearity(a, b, Vec2(5, 0)), Linearity::Collinear);
}

#[test]
fn linearity_swapping_last_two_reverses() {
    let (a, b, c) = (Vec2(2, -3), Vec2(7, 1), Vec2(-4, 5));
    assert_eq!(Linearity::linearity(a, b, c), Linearity::CounterClockwise);
    assert_eq!(Linearity::linearity(a, c, b), Linearity::Clockwise);
    let d = Vec2(12, 5);
    assert_eq!(Linearity::linearity(a, b, d), Linearity::Collinear);
    assert_eq!(Linearity::linearity(a, d, b), Linearity::Collinear);
}

#[test]
fn linearity_extreme_coordinates() {
    let a = Vec2(i32::MIN, i32::MIN);
    let b = Vec2(i32::MAX, i32::MIN);
    assert_eq!(Linearity::linearity(a, b, Vec2(i32::MAX, i32::MAX)), Linearity::CounterClockwise);
    assert_eq!(Linearity::linearity(a, Vec2(i32::MAX, i32::MAX), b), Linearity::Clockwise);
}
