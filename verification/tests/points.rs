use coverage_geometry::point::{isqrt, ClipContourPoint};

fn pt(x: i32, y: i32) -> ClipContourPoint {
    ClipContourPoint::new(x, y)
}

#[test]
fn new_keeps_both_coordinates() {
    let p = ClipContourPoint::new(-7, 12);
    assert_eq!(p.x, -7);
    assert_eq!(p.y, 12);
}

#[test]
fn add_and_sub_work_coordinate_by_coordinate() {
    assert_eq!(pt(3, -4).add(pt(10, 20)), pt(13, 16));
    assert_eq!(pt(3, -4).sub(pt(10, 20)), pt(-7, -24));
}

#[test]
fn add_and_sub_stop_at_the_edge_of_the_grid() {
    assert_eq!(pt(i32::MAX, i32::MIN).add(pt(1, -1)), pt(i32::MAX, i32::MIN));
    assert_eq!(pt(i32::MIN, i32::MAX).sub(pt(1, -1)), pt(i32::MIN, i32::MAX));
    assert_eq!(pt(i32::MAX - 5, 0).add(pt(5, 0)), pt(i32::MAX, 0));
}

#[test]
fn mul_scales_and_stops_at_the_edge_of_the_grid() {
    assert_eq!(pt(3, -4).mul(5), pt(15, -20));
    assert_eq!(pt(3, -4).mul(-1), pt(-3, 4));
    assert_eq!(pt(70000, -70000).mul(70000), pt(i32::MAX, i32::MIN));
    assert_eq!(pt(i32::MIN, 1).mul(-1), pt(i32::MAX, -1));
}

#[test]
fn dot_and_cross_are_exact() {
    assert_eq!(pt(3, 4).dot(pt(5, -6)), 15 - 24);
    assert_eq!(pt(3, 4).cross(pt(5, -6)), -18 - 20);
    assert_eq!(pt(1, 0).cross(pt(0, 1)), 1);
    assert_eq!(pt(0, 1).cross(pt(1, 0)), -1);
}

#[test]
fn dot_and_cross_hold_the_largest_products() {
    let low = pt(i32::MIN, i32::MIN);
    assert_eq!(low.dot(low), 1i128 << 63);
    let (top, step) = (1i128 << 62, 1i128 << 31);
    assert_eq!(pt(i32::MIN, i32::MAX).cross(pt(i32::MAX, i32::MIN)), top - (step - 1) * (step - 1));
    assert_eq!(pt(i32::MIN, i32::MIN).cross(pt(i32::MAX, i32::MIN)), top + step * (step - 1));
}

#[test]
fn length_sq_and_length_of_a_3_4_5_triangle() {
    assert_eq!(pt(300, -400).length_sq(), 250000);
    assert_eq!(pt(300, -400).length(), 500);
}

#[test]
fn length_rounds_down() {
    assert_eq!(pt(1, 1).length(), 1);
    assert_eq!(pt(2, 2).length(), 2);
    assert_eq!(pt(100, 100).length(), 141);
    assert_eq!(pt(0, 0).length(), 0);
}

#[test]
fn length_of_the_longest_displacement() {
    let low = pt(i32::MIN, i32::MIN);
    assert_eq!(low.length_sq(), 1u64 << 63);
    assert_eq!(low.length(), 3037000499);
}

#[test]
fn quarter_turns() {
    assert_eq!(pt(3, 4).perp(), pt(-4, 3));
    assert_eq!(pt(3, 4).rot90_ccw(), pt(-4, 3));
    assert_eq!(pt(3, 4).rot90_cw(), pt(4, -3));
    assert_eq!(pt(1, 0).rot90_cw(), pt(0, -1));
}

#[test]
fn quarter_turns_stop_at_the_edge_of_the_grid() {
    assert_eq!(pt(5, i32::MIN).perp(), pt(i32::MAX, 5));
    assert_eq!(pt(i32::MIN, 5).rot90_cw(), pt(5, i32::MAX));
}

#[test]
fn isqrt_of_small_numbers() {
    let expected = [0u64, 1, 1, 1, 2, 2, 2, 2, 2, 3, 3];
    for (n, r) in expected.iter().enumerate() {
        assert_eq!(isqrt(n as u128), *r);
    }
}

#[test]
fn isqrt_around_perfect_squares() {
    for r in [1u128, 2, 10, 999, 65535, 65536, 4294967295, 4294967296, 18446744073709551615] {
        assert_eq!(isqrt(r * r) as u128, r);
        assert_eq!(isqrt(r * r - 1) as u128, r - 1);
        if r < 18446744073709551615 {
            assert_eq!(isqrt(r * r + 1) as u128, r);
        }
    }
}

#[test]
fn isqrt_of_the_largest_number() {
    assert_eq!(isqrt(u128::MAX), u64::MAX);
}
