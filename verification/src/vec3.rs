use vstd::prelude::*;

verus! {

/// A homogeneous three-component integer vector. Component 0 is the bias
/// slot, components 1 and 2 are the two plane coordinates (or the weights
/// applied to them).
#[derive(Clone, Copy, Debug, PartialEq, Eq, Structural)]
pub struct Vec3(pub i64, pub i64, pub i64);

impl View for Vec3 {
    type V = (int, int, int);

    open spec fn view(&self) -> (int, int, int) {
        (self.0 as int, self.1 as int, self.2 as int)
    }
}

/// Mathematical dot product of two three-component vectors.
pub open spec fn dot3(a: (int, int, int), b: (int, int, int)) -> int {
    a.0 * b.0 + a.1 * b.1 + a.2 * b.2
}

/// Mathematical `a + s * b`, componentwise.
pub open spec fn add_scaled3(a: (int, int, int), s: int, b: (int, int, int)) -> (int, int, int) {
    (a.0 + s * b.0, a.1 + s * b.1, a.2 + s * b.2)
}

/// The product of two values in `i64` range stays within `2^126` in
/// magnitude, so it always fits an `i128` with room to spare.
pub(crate) proof fn lemma_i64_product_bounded(a: int, b: int)
    requires
        i64::MIN <= a <= i64::MAX,
        i64::MIN <= b <= i64::MAX,
    ensures
        -0x4000_0000_0000_0000_0000_0000_0000_0000 <= a * b
            <= 0x4000_0000_0000_0000_0000_0000_0000_0000,
{
    assert(-0x4000_0000_0000_0000_0000_0000_0000_0000 <= a * b
        <= 0x4000_0000_0000_0000_0000_0000_0000_0000) by (nonlinear_arith)
        requires
            i64::MIN <= a <= i64::MAX,
            i64::MIN <= b <= i64::MAX,
    ;
}

impl Vec3 {
    /// Dot product, computed exactly in 128-bit arithmetic. The bounds asked
    /// of the caller only keep the running sums inside the `i128` range; they
    /// hold trivially whenever one operand has small components.
    pub fn dot(&self, other: &Vec3) -> (r: i128)
        requires
            i128::MIN <= self@.0 * other@.0 + self@.1 * other@.1 <= i128::MAX,
            i128::MIN <= dot3(self@, other@) <= i128::MAX,
        ensures
            r as int == dot3(self@, other@),
    {
        proof {
            lemma_i64_product_bounded(self@.0, other@.0);
            lemma_i64_product_bounded(self@.1, other@.1);
            lemma_i64_product_bounded(self@.2, other@.2);
        }
        (self.0 as i128) * (other.0 as i128) + (self.1 as i128) * (other.1 as i128)
            + (self.2 as i128) * (other.2 as i128)
    }

    /// Returns `self + scalar * other`, componentwise. The caller must ensure
    /// the mathematical result fits the component type.
    pub fn add_scaled(&self, scalar: i64, other: &Vec3) -> (r: Vec3)
        requires
            i64::MIN <= self@.0 + scalar * other@.0 <= i64::MAX,
            i64::MIN <= self@.1 + scalar * other@.1 <= i64::MAX,
            i64::MIN <= self@.2 + scalar * other@.2 <= i64::MAX,
        ensures
            r@ == add_scaled3(self@, scalar as int, other@),
    {
        proof {
            lemma_i64_product_bounded(scalar as int, other@.0);
            lemma_i64_product_bounded(scalar as int, other@.1);
            lemma_i64_product_bounded(scalar as int, other@.2);
        }
        Vec3(
            ((self.0 as i128) + (scalar as i128) * (other.0 as i128)) as i64,
            ((self.1 as i128) + (scalar as i128) * (other.1 as i128)) as i64,
            ((self.2 as i128) + (scalar as i128) * (other.2 as i128)) as i64,
        )
    }
}

} // verus!
