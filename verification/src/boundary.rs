use vstd::prelude::*;

use crate::vec3::Vec3;
use crate::vec3::lemma_i64_product_bounded;

verus! {

/// An exact rational number, as a numerator over a nonzero denominator. The
/// boundary line of integer weights has rational endpoints, so the geometry
/// is derived without any rounding; a renderer divides at the very end.
#[derive(Clone, Copy, Debug, PartialEq, Eq, Structural)]
pub struct Ratio {
    pub num: i128,
    pub den: i128,
}

/// A straight segment from `(x1, y1)` to `(x2, y2)`, in exact rational plane
/// coordinates.
#[derive(Clone, Copy, Debug, PartialEq, Eq, Structural)]
pub struct LineSegment {
    pub x1: Ratio,
    pub y1: Ratio,
    pub x2: Ratio,
    pub y2: Ratio,
}

/// The rational point `(x, y)` lies on the decision boundary
/// `bias + w1 * x + w2 * y == 0` of the weights `w`, stated with the
/// denominators cross-multiplied.
pub open spec fn on_boundary(w: (int, int, int), x: Ratio, y: Ratio) -> bool {
    w.0 * (x.den as int) * (y.den as int) + w.1 * (x.num as int) * (y.den as int)
        + w.2 * (y.num as int) * (x.den as int) == 0
}

/// The geometric view of a weight vector: the segment of the decision
/// boundary `bias + w1 * x + w2 * y == 0` that spans `x` (or, for a vertical
/// boundary, `y`) from `-half_extent` to `half_extent`.
///
/// When `w2` is nonzero the boundary is the graph of
/// `y = (-bias - w1 * x) / w2`, and the segment joins its values at
/// `x = -half_extent` and `x = half_extent`. When only `w1` is nonzero the
/// boundary is the vertical line `x = -bias / w1`. Weights with
/// `w1 == w2 == 0` carry no orientation and yield no boundary at all.
pub fn boundary_segment(weights: &Vec3, half_extent: i64) -> (r: Option<LineSegment>)
    ensures
        r is Some <==> !(weights@.1 == 0 && weights@.2 == 0),
        weights@.2 != 0 ==> (r matches Some(seg) && {
            &&& seg.x1.num as int == -(half_extent as int) && seg.x1.den == 1
            &&& seg.y1.num as int == -weights@.0 + weights@.1 * (half_extent as int)
            &&& seg.y1.den as int == weights@.2
            &&& seg.x2.num as int == half_extent as int && seg.x2.den == 1
            &&& seg.y2.num as int == -weights@.0 - weights@.1 * (half_extent as int)
            &&& seg.y2.den as int == weights@.2
        }),
        weights@.2 == 0 && weights@.1 != 0 ==> (r matches Some(seg) && {
            &&& seg.x1.num as int == -weights@.0 && seg.x1.den as int == weights@.1
            &&& seg.y1.num as int == -(half_extent as int) && seg.y1.den == 1
            &&& seg.x2 == seg.x1
            &&& seg.y2.num as int == half_extent as int && seg.y2.den == 1
        }),
        r matches Some(seg) ==> {
            &&& seg.x1.den != 0 && seg.y1.den != 0 && seg.x2.den != 0 && seg.y2.den != 0
            &&& on_boundary(weights@, seg.x1, seg.y1)
            &&& on_boundary(weights@, seg.x2, seg.y2)
        },
{
    let b = weights.0;
    let w1 = weights.1;
    let w2 = weights.2;
    if w2 != 0 {
        proof {
            lemma_i64_product_bounded(w1 as int, half_extent as int);
        }
        let seg = LineSegment {
            x1: Ratio { num: -(half_extent as i128), den: 1 },
            y1: Ratio { num: -(b as i128) + (w1 as i128) * (half_extent as i128), den: w2 as i128 },
            x2: Ratio { num: half_extent as i128, den: 1 },
            y2: Ratio { num: -(b as i128) - (w1 as i128) * (half_extent as i128), den: w2 as i128 },
        };
        proof {
            lemma_sloped_endpoints_on_boundary(b as int, w1 as int, w2 as int, half_extent as int);
        }
        Some(seg)
    } else if w1 != 0 {
        let seg = LineSegment {
            x1: Ratio { num: -(b as i128), den: w1 as i128 },
            y1: Ratio { num: -(half_extent as i128), den: 1 },
            x2: Ratio { num: -(b as i128), den: w1 as i128 },
            y2: Ratio { num: half_extent as i128, den: 1 },
        };
        proof {
            lemma_vertical_endpoints_on_boundary(b as int, w1 as int, half_extent as int);
        }
        Some(seg)
    } else {
        None
    }
}

/// With `w2 != 0`, the point `(x, (-b - w1*x) / w2)` satisfies
/// `b + w1*x + w2*y == 0`, at both `x = -h` and `x = h`.
proof fn lemma_sloped_endpoints_on_boundary(b: int, w1: int, w2: int, h: int)
    ensures
        b * 1 * w2 + w1 * (-h) * w2 + w2 * (-b + w1 * h) * 1 == 0,
        b * 1 * w2 + w1 * h * w2 + w2 * (-b - w1 * h) * 1 == 0,
{
    assert(b * 1 * w2 + w1 * (-h) * w2 + w2 * (-b + w1 * h) * 1 == 0) by (nonlinear_arith);
    assert(b * 1 * w2 + w1 * h * w2 + w2 * (-b - w1 * h) * 1 == 0) by (nonlinear_arith);
}

/// With `w2 == 0` and `w1 != 0`, the vertical line `x = -b / w1` satisfies
/// `b + w1*x == 0` at any `y`.
proof fn lemma_vertical_endpoints_on_boundary(b: int, w1: int, h: int)
    ensures
        b * w1 * 1 + w1 * (-b) * 1 + 0 * (-h) * w1 == 0,
        b * w1 * 1 + w1 * (-b) * 1 + 0 * h * w1 == 0,
{
    assert(b * w1 * 1 + w1 * (-b) * 1 + 0 * (-h) * w1 == 0) by (nonlinear_arith);
    assert(b * w1 * 1 + w1 * (-b) * 1 + 0 * h * w1 == 0) by (nonlinear_arith);
}

} // verus!
