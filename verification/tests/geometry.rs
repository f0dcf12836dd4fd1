use tower_defense::math::{divide, integer_sqrt, saturate, Point2, Vector2, UNIT};
use tower_defense::util::{intersect, rectangle_line_intersect, Ratio, Rect};

fn units(n: f64) -> i32 {
    (n * UNIT as f64).round() as i32
}

fn hit_box(x: f64, y: f64) -> Rect {
    Rect::centered(Point2::new(units(x), units(y)), units(16.0))
}

#[test]
fn segment_entering_the_box_is_a_hit() {
    let p = Point2::new(units(-20.0), 0);
    let v = Point2::new(units(20.0), 0).minus(p);
    assert!(rectangle_line_intersect(p, v, hit_box(10.0, 0.0)));
}

#[test]
fn segment_far_from_the_box_is_no_hit() {
    let p = Point2::new(0, 0);
    let v = Point2::new(units(20.0), 0).minus(p);
    assert!(!rectangle_line_intersect(p, v, hit_box(500.0, 500.0)));
}

#[test]
fn segment_wholly_inside_the_box_crosses_no_side() {
    let p = Point2::new(0, 0);
    let v = Point2::new(units(20.0), 0).minus(p);
    assert!(!rectangle_line_intersect(p, v, hit_box(10.0, 0.0)));
}

#[test]
fn segment_leaving_the_box_crosses_a_side() {
    let p = Point2::new(units(10.0), 0);
    let v = Vector2::new(0, units(40.0) as i64);
    assert!(rectangle_line_intersect(p, v, hit_box(10.0, 0.0)));
}

#[test]
fn segment_that_stops_short_of_the_box_is_no_hit() {
    let p = Point2::new(units(-40.0), 0);
    let v = Vector2::new(units(30.0) as i64, 0);
    assert!(!rectangle_line_intersect(p, v, hit_box(10.0, 0.0)));
}

#[test]
fn segment_touching_a_corner_is_a_hit() {
    let p = Point2::new(units(-6.0), units(-20.0));
    let v = Vector2::new(0, units(4.0) as i64);
    assert!(rectangle_line_intersect(p, v, hit_box(10.0, 0.0)));
}

#[test]
fn line_meets_side_outside_its_extent() {
    let p = Point2::new(units(-20.0), units(30.0));
    let v = Vector2::new(units(40.0) as i64, 0);
    assert!(!rectangle_line_intersect(p, v, hit_box(10.0, 0.0)));
}

#[test]
fn intersect_gives_parameter_and_point() {
    let r = intersect(Point2::new(0, 0), Vector2::new(20000, 10000), 10000, true);
    assert_eq!(r, Some((Ratio { num: 10000, den: 20000 }, Point2::new(10000, 5000))));
    let r = intersect(Point2::new(1000, 2000), Vector2::new(-3000, 6000), 5000, false);
    assert_eq!(r, Some((Ratio { num: 3000, den: 6000 }, Point2::new(-500, 5000))));
}

#[test]
fn intersect_rounds_towards_the_start() {
    let r = intersect(Point2::new(0, 0), Vector2::new(3, 2), 1, true);
    assert_eq!(r, Some((Ratio { num: 1, den: 3 }, Point2::new(1, 0))));
    let r = intersect(Point2::new(0, 0), Vector2::new(3, -2), 2, true);
    assert_eq!(r, Some((Ratio { num: 2, den: 3 }, Point2::new(2, -1))));
}

#[test]
fn parallel_lines_do_not_meet() {
    assert!(intersect(Point2::new(0, 0), Vector2::new(0, 5), 3, false).is_some());
    assert!(intersect(Point2::new(0, 0), Vector2::new(0, 5), 3, true).is_none());
    assert!(intersect(Point2::new(0, 0), Vector2::new(5, 0), 3, false).is_none());
    assert!(intersect(Point2::new(0, 0), Vector2::new(0, 0), 0, true).is_none());
}

#[test]
fn ratio_in_unit_interval() {
    assert!(Ratio { num: 0, den: 5 }.is_in_unit_interval());
    assert!(Ratio { num: 5, den: 5 }.is_in_unit_interval());
    assert!(Ratio { num: -2, den: -5 }.is_in_unit_interval());
    assert!(!Ratio { num: 6, den: 5 }.is_in_unit_interval());
    assert!(!Ratio { num: -1, den: 5 }.is_in_unit_interval());
    assert!(!Ratio { num: 1, den: -5 }.is_in_unit_interval());
}

#[test]
fn ratio_order() {
    let third = Ratio { num: 1, den: 3 };
    let half = Ratio { num: -2, den: -4 };
    assert!(third.is_less_than(&half));
    assert!(!half.is_less_than(&third));
    assert!(!half.is_less_than(&Ratio { num: 1, den: 2 }));
    assert!(Ratio { num: -1, den: 2 }.is_less_than(&Ratio { num: 1, den: -3 }));
}

#[test]
fn integer_square_roots() {
    assert_eq!(integer_sqrt(0), 0);
    assert_eq!(integer_sqrt(1), 1);
    assert_eq!(integer_sqrt(24), 4);
    assert_eq!(integer_sqrt(25), 5);
    assert_eq!(integer_sqrt(1_000_000_000_000), 1_000_000);
    assert_eq!(integer_sqrt(u128::MAX), u64::MAX);
}

#[test]
fn division_rounds_towards_zero() {
    assert_eq!(divide(7, 2), 3);
    assert_eq!(divide(-7, 2), -3);
    assert_eq!(divide(7, -2), -3);
    assert_eq!(divide(-7, -2), 3);
}

#[test]
fn saturate_keeps_what_fits() {
    assert_eq!(saturate(12), 12);
    assert_eq!(saturate(i32::MAX as i128 + 1), i32::MAX);
    assert_eq!(saturate(i32::MIN as i128 - 5), i32::MIN);
}

#[test]
fn points_and_vectors() {
    let a = Point2::new(i32::MAX, i32::MIN);
    let b = Point2::new(i32::MIN, i32::MAX);
    let v = a.minus(b);
    assert_eq!(v, Vector2::new(u32::MAX as i64, -(u32::MAX as i64)));
    assert_eq!(b.plus(v), a);
    assert_eq!(a.plus(v), Point2::new(i32::MAX, i32::MIN));
    assert_eq!(Point2::new(1, 2).plus(Vector2::new(3, -5)), Point2::new(4, -3));
}

#[test]
fn vector_lengths() {
    let v = Vector2::new(3000, -4000);
    assert_eq!(v.norm_squared(), 25_000_000);
    assert_eq!(v.norm(), 5000);
    assert!(v.within(5000));
    assert!(!v.within(4999));
    assert!(!v.within(-5000));
    assert!(Vector2::new(0, 0).is_zero());
    assert!(!Vector2::new(0, 1).is_zero());
    assert_eq!(Vector2::new(i64::MIN, i64::MIN).norm_squared(), 1u128 << 127);
}

#[test]
fn rescaling_keeps_the_direction() {
    assert_eq!(Vector2::new(3000, -4000).with_length(1000), Vector2::new(600, -800));
    assert_eq!(Vector2::new(3000, -4000).with_length(-1000), Vector2::new(-600, 800));
    assert_eq!(Vector2::new(0, 7).with_length(250), Vector2::new(0, 250));
    assert_eq!(Vector2::new(0, 0).with_length(250), Vector2::new(0, 0));
    assert_eq!(Vector2::new(1000, 1000).with_length(1000), Vector2::new(707, 707));
    assert_eq!(Vector2::new(-1, 0).with_length(i32::MIN), Vector2::new(1 << 31, 0));
}

#[test]
fn rescaling_is_right_to_the_grid() {
    assert_eq!(Vector2::new(1, 1).with_length(1000), Vector2::new(707, 707));
    assert_eq!(Vector2::new(1, -1).with_length(1_000_000), Vector2::new(707_106, -707_106));
    assert_eq!(Vector2::new(1000, 1000).with_length(100_000), Vector2::new(70_710, 70_710));
    assert_eq!(Vector2::new(2, 1).with_length(1000), Vector2::new(894, 447));
    assert_eq!(Vector2::new(-4999, 90_000).with_length(50_000), Vector2::new(-2772, 49_923));
    for (x, y) in [(1i64, 1i64), (3, -7), (-1000, 1), (123_456, 654_321), (5, 0)] {
        for length in [1i32, 1000, 99_999, i32::MAX] {
            let r = Vector2::new(x, y).with_length(length);
            let l = length as i128;
            let long = (r.x as i128).pow(2) + (r.y as i128).pow(2);
            let next = (r.x.abs() as i128 + 1).pow(2) + (r.y.abs() as i128 + 1).pow(2);
            assert!(long <= l * l && l * l < next);
        }
    }
}

#[test]
fn rescaling_long_vectors() {
    assert_eq!(Vector2::new(1 << 40, 0).with_length(1000), Vector2::new(1000, 0));
    assert_eq!(
        Vector2::new(3 << 40, -(4 << 40)).with_length(i32::MAX),
        Vector2::new(1_288_490_188, -1_717_986_917)
    );
    assert_eq!(Vector2::new(1 << 62, 1).with_length(1000), Vector2::new(999, 0));
    assert_eq!(Vector2::new(1 << 62, 1).with_length(i32::MAX), Vector2::new(i32::MAX as i64 - 1, 0));
    assert_eq!(
        Vector2::new(i64::MIN, i64::MIN).with_length(i32::MIN),
        Vector2::new(1_518_500_249, 1_518_500_249)
    );
    assert_eq!(Vector2::new(i64::MAX, 0).with_length(i32::MIN), Vector2::new(-(1 << 31), 0));
}
