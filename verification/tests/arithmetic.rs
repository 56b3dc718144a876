use boids::fixed::{div_toward_zero, isqrt, isqrt_ceil, ONE};
use boids::settings::Settings;
use boids::vector::{Point, Vec2};

#[test]
fn square_roots_round_down() {
    assert_eq!(isqrt(0), 0);
    assert_eq!(isqrt(1), 1);
    assert_eq!(isqrt(3), 1);
    assert_eq!(isqrt(4), 2);
    assert_eq!(isqrt(24), 4);
    assert_eq!(isqrt(25), 5);
    assert_eq!(isqrt(1 << 64), 1 << 32);
    assert_eq!(isqrt((1 << 64) - 1), (1 << 32) - 1);
    assert_eq!(isqrt(u128::MAX), u64::MAX);
}

#[test]
fn square_roots_round_up() {
    assert_eq!(isqrt_ceil(0), 0);
    assert_eq!(isqrt_ceil(1), 1);
    assert_eq!(isqrt_ceil(2), 2);
    assert_eq!(isqrt_ceil(25), 5);
    assert_eq!(isqrt_ceil(26), 6);
    assert_eq!(isqrt_ceil(u128::MAX), 1 << 64);
}

#[test]
fn division_rounds_toward_zero() {
    assert_eq!(div_toward_zero(7, 2), 3);
    assert_eq!(div_toward_zero(-7, 2), -3);
    assert_eq!(div_toward_zero(-1, 2), 0);
    assert_eq!(div_toward_zero(0, 5), 0);
    assert_eq!(div_toward_zero(i128::MIN, 1), i128::MIN);
}

#[test]
fn blend_factor_is_a_tenth_of_gain_times_time() {
    assert_eq!(Settings::blend_factor(ONE, ONE), 6553);
    assert_eq!(Settings::blend_factor(ONE, ONE / 60), 109);
    assert_eq!(Settings::blend_factor(5 * ONE, 2 * ONE), ONE);
}

#[test]
fn blend_factor_is_clamped() {
    assert_eq!(Settings::blend_factor(20 * ONE, ONE), ONE);
    assert_eq!(Settings::blend_factor(i32::MAX, i32::MAX), ONE);
    assert_eq!(Settings::blend_factor(-ONE, ONE), 0);
    assert_eq!(Settings::blend_factor(ONE, -ONE), 0);
    assert_eq!(Settings::blend_factor(0, ONE), 0);
    assert_eq!(Settings::blend_factor(i32::MIN, i32::MAX), 0);
}

#[test]
fn step_length_is_speed_times_time() {
    assert_eq!(Settings::step_length(100 * ONE, ONE / 2), 50 * ONE as i64);
    assert_eq!(Settings::step_length(100 * ONE, ONE / 60), 109200);
    assert_eq!(Settings::step_length(-100 * ONE, ONE / 2), -50 * ONE as i64);
    assert_eq!(Settings::step_length(0, ONE), 0);
    assert_eq!(Settings::step_length(i32::MIN, i32::MIN), 1 << 46);
}

#[test]
fn neighbourhood_is_strictly_inside_the_radius() {
    let origin = Point { x: 0, y: 0 };
    let on_the_rim = Point { x: 3 * ONE, y: 4 * ONE };
    let just_inside = Point { x: 3 * ONE, y: 4 * ONE - 1 };
    assert!(!origin.is_within(&on_the_rim, 5 * ONE));
    assert!(origin.is_within(&just_inside, 5 * ONE));
    assert!(on_the_rim.is_within(&origin, 5 * ONE + 1));
    assert!(origin.is_within(&origin, 1));
}

#[test]
fn nothing_is_within_an_empty_radius() {
    let origin = Point { x: 0, y: 0 };
    assert!(!origin.is_within(&origin, 0));
    assert!(!origin.is_within(&origin, -ONE));
}

#[test]
fn distance_test_spans_the_whole_coordinate_range() {
    let low = Point { x: i32::MIN, y: i32::MIN };
    let high = Point { x: i32::MAX, y: i32::MAX };
    assert!(!low.is_within(&high, i32::MAX));
    assert!(low.is_within(&low, i32::MAX));
}

#[test]
fn difference_of_positions() {
    let a = Point { x: i32::MAX, y: -5 };
    let b = Point { x: i32::MIN, y: 7 };
    assert_eq!(a.minus(&b), Vec2 { x: (1 << 32) - 1, y: -12 });
    assert_eq!(b.minus(&a), Vec2 { x: 1 - (1 << 32), y: 12 });
}

#[test]
fn unit_vectors_keep_the_direction() {
    assert_eq!(Vec2 { x: 3, y: 4 }.normalized(), Vec2 { x: 39321, y: 52428 });
    assert_eq!(Vec2 { x: 5, y: 0 }.normalized(), Vec2 { x: 65536, y: 0 });
    assert_eq!(Vec2 { x: 0, y: -9 }.normalized(), Vec2 { x: 0, y: -65536 });
    assert_eq!(Vec2 { x: 1, y: 1 }.normalized(), Vec2 { x: 46340, y: 46340 });
    assert_eq!(Vec2 { x: -65536, y: 65536 }.normalized(), Vec2 { x: -46340, y: 46340 });
    assert_eq!(Vec2 { x: 1 << 40, y: 1 << 40 }.normalized(), Vec2 { x: 46340, y: 46340 });
}

#[test]
fn the_zero_vector_has_no_direction() {
    assert_eq!(Vec2 { x: 0, y: 0 }.normalized(), Vec2 { x: 0, y: 0 });
    assert_eq!(Vec2 { x: 0, y: 0 }.with_length(100), Vec2 { x: 0, y: 0 });
}

#[test]
fn rescaling_is_exact_for_whole_ratios() {
    let v = Vec2 { x: 7, y: -24 };
    assert_eq!(v.with_length(25 * ONE as i64), Vec2 { x: 7 * ONE as i64, y: -24 * ONE as i64 });
    assert_eq!(v.with_length(-25 * ONE as i64), Vec2 { x: -7 * ONE as i64, y: 24 * ONE as i64 });
    assert_eq!(v.with_length(0), Vec2 { x: 0, y: 0 });
}

#[test]
fn rescaling_never_overshoots() {
    let long = Vec2 { x: 1, y: 1 }.with_length(100 * ONE as i64);
    assert_eq!(long, Vec2 { x: 4634095, y: 4634095 });
    let extreme = Vec2 { x: i64::MIN, y: i64::MIN }.with_length(1 << 62);
    let squared = (extreme.x as i128) * (extreme.x as i128) + (extreme.y as i128) * (extreme.y as i128);
    assert!(squared <= 1i128 << 124);
    assert!(extreme.x < 0 && extreme.y < 0);
    let widest = Vec2 { x: i64::MIN, y: 0 }.with_length(i64::MAX);
    assert_eq!(widest, Vec2 { x: -i64::MAX, y: 0 });
    let back = Vec2 { x: 0, y: i64::MAX }.with_length(-i64::MAX);
    assert_eq!(back, Vec2 { x: 0, y: -i64::MAX });
}

#[test]
fn blending_moves_a_fraction_of_the_way() {
    let v = Vec2 { x: ONE as i64, y: 0 };
    assert_eq!(v.blend(&Vec2 { x: 10 * ONE as i64, y: 0 }, 6553), Vec2 { x: 124513, y: 0 });
    assert_eq!(v.blend(&Vec2 { x: 0, y: ONE as i64 }, 6553), Vec2 { x: 58983, y: 6553 });
    assert_eq!(Vec2 { x: -7, y: 7 }.blend(&Vec2 { x: 0, y: 0 }, ONE / 2), Vec2 { x: -4, y: 4 });
}

#[test]
fn blending_stays_between_its_ends() {
    let from = Vec2 { x: i64::MIN, y: i64::MAX };
    let to = Vec2 { x: i64::MAX, y: i64::MIN };
    assert_eq!(from.blend(&to, 0), from);
    assert_eq!(from.blend(&to, -5), from);
    assert_eq!(from.blend(&to, ONE), to);
    assert_eq!(from.blend(&to, i32::MAX), to);
    let half = from.blend(&to, ONE / 2);
    assert_eq!(half, Vec2 { x: -1, y: 0 });
}
