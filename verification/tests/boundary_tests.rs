use perceptron::{LineSegment, Ratio, Vec3, boundary_segment};

fn assert_on_line(weights: (i64, i64, i64), x: Ratio, y: Ratio) {
    // b + w1 * (xn/xd) + w2 * (yn/yd) == 0, cross-multiplied by xd * yd
    let b = weights.0 as i128;
    let w1 = weights.1 as i128;
    let w2 = weights.2 as i128;
    assert_ne!(x.den, 0);
    assert_ne!(y.den, 0);
    assert_eq!(b * x.den * y.den + w1 * x.num * y.den + w2 * y.num * x.den, 0);
}

fn assert_segment_on_line(weights: (i64, i64, i64), seg: &LineSegment) {
    assert_on_line(weights, seg.x1, seg.y1);
    assert_on_line(weights, seg.x2, seg.y2);
}

#[test]
fn diagonal_boundary_through_origin() {
    // weights (0, 1, 1): the boundary is y = -x, slope -1 through the origin.
    let seg = boundary_segment(&Vec3(0, 1, 1), 1000).expect("oriented weights have a boundary");
    assert_eq!((seg.x1.num, seg.x1.den), (-1000, 1));
    assert_eq!((seg.y1.num, seg.y1.den), (1000, 1));
    assert_eq!((seg.x2.num, seg.x2.den), (1000, 1));
    assert_eq!((seg.y2.num, seg.y2.den), (-1000, 1));
    assert_segment_on_line((0, 1, 1), &seg);
}

#[test]
fn zero_weights_have_no_boundary() {
    assert!(boundary_segment(&Vec3(0, 0, 0), 1000).is_none());
    // a bias alone carries no orientation either
    assert!(boundary_segment(&Vec3(7, 0, 0), 1000).is_none());
}

#[test]
fn horizontal_boundary_from_bias_and_w2() {
    // weights (1, 0, 2): y = (-1 - 0 * x) / 2 at both ends.
    let seg = boundary_segment(&Vec3(1, 0, 2), 500).expect("w2 != 0 has a boundary");
    assert_eq!((seg.x1.num, seg.x1.den), (-500, 1));
    assert_eq!((seg.y1.num, seg.y1.den), (-1, 2));
    assert_eq!((seg.x2.num, seg.x2.den), (500, 1));
    assert_eq!((seg.y2.num, seg.y2.den), (-1, 2));
    assert_segment_on_line((1, 0, 2), &seg);
}

#[test]
fn vertical_boundary_when_w2_is_zero() {
    // weights (4, 2, 0): the vertical line x = -4/2, spanning y in ±extent.
    let seg = boundary_segment(&Vec3(4, 2, 0), 250).expect("w1 != 0 has a boundary");
    assert_eq!((seg.x1.num, seg.x1.den), (-4, 2));
    assert_eq!((seg.y1.num, seg.y1.den), (-250, 1));
    assert_eq!((seg.x2.num, seg.x2.den), (-4, 2));
    assert_eq!((seg.y2.num, seg.y2.den), (250, 1));
    assert_segment_on_line((4, 2, 0), &seg);
}

#[test]
fn sloped_boundary_with_all_components() {
    let seg = boundary_segment(&Vec3(-3, 5, -7), 1000).expect("oriented weights have a boundary");
    // y = (3 - 5x) / -7; at x = -1000 the numerator is 3 + 5000
    assert_eq!((seg.y1.num, seg.y1.den), (3 + 5000, -7));
    assert_eq!((seg.y2.num, seg.y2.den), (3 - 5000, -7));
    assert_segment_on_line((-3, 5, -7), &seg);
}

#[test]
fn extreme_weights_do_not_overflow() {
    let b = i64::MIN;
    let w1 = i64::MAX;
    let w2 = i64::MIN;
    let h = i64::MAX;
    let seg = boundary_segment(&Vec3(b, w1, w2), h).expect("oriented weights have a boundary");
    let expected_y1 = -(b as i128) + (w1 as i128) * (h as i128);
    let expected_y2 = -(b as i128) - (w1 as i128) * (h as i128);
    assert_eq!((seg.x1.num, seg.x1.den), (-(h as i128), 1));
    assert_eq!((seg.y1.num, seg.y1.den), (expected_y1, w2 as i128));
    assert_eq!((seg.x2.num, seg.x2.den), (h as i128, 1));
    assert_eq!((seg.y2.num, seg.y2.den), (expected_y2, w2 as i128));
}
