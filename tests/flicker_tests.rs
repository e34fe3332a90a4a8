use voxel_flicker::flicker::{flicker_period, flicker_visibility, is_hidden, Visibility};
use voxel_flicker::grid::{GridDimensions, X_SIZE, Y_SIZE, Z_SIZE};

fn demo() -> GridDimensions {
    GridDimensions { depth: Z_SIZE, height: Y_SIZE, width: X_SIZE }
}

fn phase(t: f32, x: f32, y: f32, z: f32) -> i32 {
    f32::floor(t * 15.0 + x + y + z) as i32
}

#[test]
fn demo_period_is_twenty() {
    assert_eq!(flicker_period(demo()), 20);
}

#[test]
fn period_rounds_down() {
    assert_eq!(flicker_period(GridDimensions { depth: 0, height: 3, width: 3 }), 1);
    assert_eq!(flicker_period(GridDimensions { depth: 0, height: 2, width: 2 }), 0);
    assert_eq!(flicker_period(GridDimensions { depth: 5, height: 7, width: 4 }), 5);
}

#[test]
fn origin_at_time_zero_is_hidden() {
    assert_eq!(phase(0.0, 0.0, 0.0, 0.0), 0);
    assert_eq!(flicker_visibility(demo(), 0), Visibility::Hidden);
}

#[test]
fn phase_just_under_eight_is_visible() {
    let t = 7.999f32 / 15.0;
    let p = f32::floor(7.999f32) as i32;
    assert_eq!(p, 7);
    assert_eq!(phase(t, 0.0, 0.0, 0.0), 7);
    assert_eq!(flicker_visibility(demo(), p), Visibility::Visible);
}

#[test]
fn multiples_of_the_period_are_hidden() {
    for p in [0, 20, 40, 400, -20, -60] {
        assert_eq!(flicker_visibility(demo(), p), Visibility::Hidden);
    }
    for p in [1, 7, 19, 21, 39, -1, -7, -19] {
        assert_eq!(flicker_visibility(demo(), p), Visibility::Visible);
    }
}

#[test]
fn flicker_repeats_every_period() {
    for p in 0..200 {
        assert_eq!(flicker_visibility(demo(), p), flicker_visibility(demo(), p + 20));
    }
}

#[test]
fn flicker_twice_gives_the_same_answer() {
    for p in [0, 3, 20, 27] {
        let first = flicker_visibility(demo(), p);
        let second = flicker_visibility(demo(), p);
        assert_eq!(first, second);
    }
}

#[test]
fn is_hidden_tests_divisibility() {
    assert!(is_hidden(20, 0));
    assert!(is_hidden(20, 60));
    assert!(is_hidden(20, -60));
    assert!(!is_hidden(20, 61));
    assert!(!is_hidden(20, -61));
    assert!(is_hidden(1, 12345));
    assert!(is_hidden(7, i32::MIN + 2));
    assert!(!is_hidden(5, i32::MIN + 2));
    assert!(is_hidden(2, i32::MIN));
    assert!(!is_hidden(u64::MAX, i32::MAX));
}

#[test]
fn neighbouring_cubes_flicker_apart() {
    let a = phase(0.0, 0.0, 0.0, 0.0);
    let b = phase(0.0, 1.0, 0.0, 0.0);
    assert_eq!(flicker_visibility(demo(), a), Visibility::Hidden);
    assert_eq!(flicker_visibility(demo(), b), Visibility::Visible);
}
