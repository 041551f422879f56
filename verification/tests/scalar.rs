use barnes_hut::scalar::{
    distance, fixed_mul, floor_div, isqrt, magnitude2, mul_div, sat_add, sat_div, sat_sub,
    saturate, wide_mul, Vec2, ONE,
};
use barnes_hut::utils::{
    generate_new_uuid, normalize_window_coordinates, transform_axis, MinMax,
    ViewportTransformOptions,
};

#[test]
fn floor_div_rounds_towards_minus_infinity() {
    assert_eq!(floor_div(7, 2), 3);
    assert_eq!(floor_div(-7, 2), -4);
    assert_eq!(floor_div(-8, 2), -4);
    assert_eq!(floor_div(-1, 10), -1);
    assert_eq!(floor_div(0, 3), 0);
}

#[test]
fn saturating_operations_stop_at_the_ends() {
    assert_eq!(sat_add(i64::MAX, 1), i64::MAX);
    assert_eq!(sat_add(i64::MIN, -1), i64::MIN);
    assert_eq!(sat_add(2, 3), 5);
    assert_eq!(sat_sub(i64::MIN, 1), i64::MIN);
    assert_eq!(sat_sub(i64::MAX, -1), i64::MAX);
    assert_eq!(sat_sub(2, 3), -1);
    assert_eq!(saturate(1i128 << 100), i64::MAX);
    assert_eq!(saturate(-(1i128 << 100)), i64::MIN);
    assert_eq!(saturate(-5), -5);
}

#[test]
fn sat_div_handles_signs_and_zero() {
    assert_eq!(sat_div(7, 2), 3);
    assert_eq!(sat_div(-7, 2), -4);
    assert_eq!(sat_div(7, -2), -4);
    assert_eq!(sat_div(-7, -2), 3);
    assert_eq!(sat_div(7, 0), i64::MAX);
    assert_eq!(sat_div(-7, 0), i64::MIN);
    assert_eq!(sat_div(0, 0), 0);
    assert_eq!(sat_div(1i128 << 100, 1), i64::MAX);
}

#[test]
fn products_are_exact_and_scaled() {
    assert_eq!(wide_mul(i64::MIN, i64::MIN), 1i128 << 126);
    assert_eq!(wide_mul(-3, 4), -12);
    assert_eq!(mul_div(10, 3, 4), 7);
    assert_eq!(mul_div(-10, 3, 4), -8);
    assert_eq!(mul_div(i64::MAX, i64::MAX, 1), i64::MAX);
    assert_eq!(fixed_mul(2 * ONE, 3 * ONE), 6 * ONE);
    assert_eq!(fixed_mul(ONE / 2, ONE / 2), ONE / 4);
    assert_eq!(fixed_mul(-ONE, 1), -1);
}

#[test]
fn isqrt_is_the_floor_of_the_root() {
    assert_eq!(isqrt(0), 0);
    assert_eq!(isqrt(1), 1);
    assert_eq!(isqrt(15), 3);
    assert_eq!(isqrt(16), 4);
    assert_eq!(isqrt(17), 4);
    assert_eq!(isqrt(1_000_000_000_000), 1_000_000);
    assert_eq!(isqrt(u128::MAX), u64::MAX);
}

#[test]
fn magnitude_and_distance() {
    assert_eq!(magnitude2(3, -4), 25);
    assert_eq!(magnitude2(i64::MIN, i64::MIN), 1u128 << 127);
    assert_eq!(distance(Vec2 { x: 3, y: 4 }, Vec2 { x: 0, y: 0 }), 5);
    assert_eq!(distance(Vec2 { x: 1, y: 1 }, Vec2 { x: 0, y: 0 }), 1);
    assert_eq!(distance(Vec2 { x: 9, y: 9 }, Vec2 { x: 9, y: 9 }), 0);
}

#[test]
fn window_coordinates_map_linearly() {
    let options = ViewportTransformOptions {
        window_pos: Vec2 { x: 400, y: 150 },
        xw: MinMax { min: 0, max: 800 },
        yw: MinMax { min: 600, max: 0 },
        xv: MinMax { min: 0, max: 1000 },
        yv: MinMax { min: 0, max: 1000 },
    };
    let r = normalize_window_coordinates(&options);
    assert_eq!(r, Vec2 { x: 500, y: 750 });
}

#[test]
fn transform_axis_follows_the_formula() {
    let w = MinMax { min: 0, max: 1000 };
    let v = MinMax { min: -ONE, max: ONE };
    assert_eq!(transform_axis(0, w, v), -ONE);
    assert_eq!(transform_axis(1000, w, v), ONE);
    assert_eq!(transform_axis(500, w, v), 0);
    assert_eq!(transform_axis(250, w, v), -ONE / 2);
    // an empty window range saturates
    let flat = MinMax { min: 5, max: 5 };
    assert_eq!(transform_axis(9, flat, v), i64::MAX - ONE);
    assert_eq!(transform_axis(5, flat, v), -ONE);
}

#[test]
fn fresh_identifiers_differ() {
    let a: u128 = generate_new_uuid();
    let b: u128 = generate_new_uuid();
    assert_ne!(a, b);
    // version 4, variant 1
    assert_eq!((a >> 76) & 0xf, 4);
    assert_eq!((a >> 62) & 0x3, 2);
}

#[test]
fn circle_indices_form_a_fan() {
    let ibuf = barnes_hut::draw::circle_indices(361);
    assert_eq!(ibuf.len(), 1083);
    assert_eq!(&ibuf[0..3], &[0, 360, 1]);
    assert_eq!(&ibuf[3..6], &[0, 1, 2]);
    assert_eq!(&ibuf[6..9], &[0, 2, 3]);
    assert_eq!(&ibuf[1080..1083], &[0, 360, 361]);
    assert_eq!(barnes_hut::draw::circle_indices(1), vec![0, 0, 1]);
    assert_eq!(barnes_hut::draw::circle_indices(3), vec![0, 2, 1, 0, 1, 2, 0, 2, 3]);
}
