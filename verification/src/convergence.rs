use vstd::prelude::*;

use crate::learner::Datapoint;
use crate::learner::PerceptronView;
use crate::learner::feature;
use crate::learner::label_value;
use crate::learner::lemma_contradictory_pair_never_converges;
use crate::learner::lemma_converged_stable;
use crate::learner::lemma_spec_update_preserves_wf;
use crate::learner::lemma_step_granularity;
use crate::learner::misclassified;
use crate::learner::score;
use crate::learner::spec_update;
use crate::vec3::add_scaled3;
use crate::vec3::dot3;

verus! {

/// The squared euclidean norm of a three-component vector.
pub open spec fn norm2(v: (int, int, int)) -> int {
    dot3(v, v)
}

/// `u` linearly separates the points with unit margin: every point's signed
/// score under `u` is at least 1. Scores of integer vectors are integers, so
/// any vector that classifies every point strictly correctly qualifies.
pub open spec fn separates(u: (int, int, int), points: Seq<Datapoint>) -> bool {
    forall|i: int| 0 <= i < points.len()
        ==> label_value(points[i].label) * score(u, #[trigger] points[i]) >= 1
}

/// Scaling one argument scales the dot product:
/// `(c*b) . a == c * (b . a)`.
proof fn lemma_dot3_scale_left(c: int, b: (int, int, int), a: (int, int, int))
    ensures
        dot3((c * b.0, c * b.1, c * b.2), a) == c * dot3(b, a),
{
    assert((c * b.0) * a.0 == c * (b.0 * a.0)) by (nonlinear_arith);
    assert((c * b.1) * a.1 == c * (b.1 * a.1)) by (nonlinear_arith);
    assert((c * b.2) * a.2 == c * (b.2 * a.2)) by (nonlinear_arith);
    assert(c * (b.0 * a.0) + c * (b.1 * a.1) + c * (b.2 * a.2)
        == c * (b.0 * a.0 + b.1 * a.1 + b.2 * a.2)) by (nonlinear_arith);
}

/// The dot product is symmetric.
proof fn lemma_dot3_symmetric(a: (int, int, int), b: (int, int, int))
    ensures
        dot3(a, b) == dot3(b, a),
{
    assert(a.0 * b.0 == b.0 * a.0 && a.1 * b.1 == b.1 * a.1 && a.2 * b.2 == b.2 * a.2)
        by (nonlinear_arith);
}

/// A vector of squared norm zero is the zero vector.
proof fn lemma_norm2_zero(a: (int, int, int))
    requires
        norm2(a) == 0,
    ensures
        a.0 == 0 && a.1 == 0 && a.2 == 0,
{
    assert(a.0 * a.0 >= 0 && a.1 * a.1 >= 0 && a.2 * a.2 >= 0) by (nonlinear_arith);
    assert(a.0 * a.0 == 0 ==> a.0 == 0) by (nonlinear_arith);
    assert(a.1 * a.1 == 0 ==> a.1 == 0) by (nonlinear_arith);
    assert(a.2 * a.2 == 0 ==> a.2 == 0) by (nonlinear_arith);
}

/// Cauchy–Schwarz in three integer dimensions, by expanding the nonnegative
/// squared norm of `|a|^2 * b - (a . b) * a`.
proof fn lemma_cauchy_schwarz(a: (int, int, int), b: (int, int, int))
    ensures
        dot3(a, b) * dot3(a, b) <= norm2(a) * norm2(b),
{
    let d = dot3(a, b);
    let na = norm2(a);
    let nb = norm2(b);
    lemma_norm2_nonneg(a);
    lemma_norm2_nonneg(b);
    if na == 0 {
        lemma_norm2_zero(a);
        assert(d == 0);
    } else {
        let bs = (na * b.0, na * b.1, na * b.2);
        let v = add_scaled3(bs, -d, a);
        lemma_norm2_nonneg(v);
        lemma_norm2_add_scaled(bs, -d, a);
        // norm2(bs) == na * (na * nb)
        lemma_dot3_scale_left(na, b, bs);
        assert(dot3(bs, bs) == na * dot3(b, bs)) by {
            lemma_dot3_symmetric(bs, b);
            lemma_dot3_scale_left(na, b, b);
            assert(dot3(b, bs) == dot3(bs, b));
        };
        lemma_dot3_scale_left(na, b, b);
        assert(dot3(bs, b) == na * dot3(b, b));
        lemma_dot3_symmetric(bs, b);
        assert(norm2(bs) == na * (na * nb));
        // dot3(bs, a) == na * d
        lemma_dot3_scale_left(na, b, a);
        assert(dot3(bs, a) == na * dot3(b, a));
        lemma_dot3_symmetric(a, b);
        assert(dot3(bs, a) == na * d);
        // norm2(v) == na*(na*nb) + 2*(-d)*(na*d) + d*d*na == na*(na*nb - d*d)
        assert(norm2(v) == na * (na * nb) + 2 * (-d) * (na * d) + (-d) * (-d) * na);
        assert(na * (na * nb) + 2 * (-d) * (na * d) + (-d) * (-d) * na
            == na * (na * nb - d * d)) by (nonlinear_arith);
        assert(na * (na * nb - d * d) >= 0);
        assert(na > 0 && na * (na * nb - d * d) >= 0 ==> na * nb - d * d >= 0)
            by (nonlinear_arith);
    }
}

/// A squared norm is never negative.
proof fn lemma_norm2_nonneg(a: (int, int, int))
    ensures
        norm2(a) >= 0,
{
    assert(a.0 * a.0 + a.1 * a.1 + a.2 * a.2 >= 0) by (nonlinear_arith);
}

/// The dot product is linear in a scaled addition:
/// `u . (w + y*x) == u . w + y * (u . x)`.
#[verifier::rlimit(100)]
proof fn lemma_dot3_add_scaled(u: (int, int, int), w: (int, int, int), y: int, x: (int, int, int))
    ensures
        dot3(u, add_scaled3(w, y, x)) == dot3(u, w) + y * dot3(u, x),
{
    assert(u.0 * (w.0 + y * x.0) == u.0 * w.0 + y * (u.0 * x.0)) by (nonlinear_arith);
    assert(u.1 * (w.1 + y * x.1) == u.1 * w.1 + y * (u.1 * x.1)) by (nonlinear_arith);
    assert(u.2 * (w.2 + y * x.2) == u.2 * w.2 + y * (u.2 * x.2)) by (nonlinear_arith);
    assert(y * (u.0 * x.0) + y * (u.1 * x.1) + y * (u.2 * x.2)
        == y * (u.0 * x.0 + u.1 * x.1 + u.2 * x.2)) by (nonlinear_arith);
}

/// How the squared norm grows under one correction:
/// `|w + y*x|^2 == |w|^2 + 2*y*(w . x) + y^2 * |x|^2`.
#[verifier::rlimit(100)]
proof fn lemma_norm2_add_scaled(w: (int, int, int), y: int, x: (int, int, int))
    ensures
        norm2(add_scaled3(w, y, x)) == norm2(w) + 2 * y * dot3(w, x) + y * y * norm2(x),
{
    assert((w.0 + y * x.0) * (w.0 + y * x.0)
        == w.0 * w.0 + 2 * y * (w.0 * x.0) + y * y * (x.0 * x.0)) by (nonlinear_arith);
    assert((w.1 + y * x.1) * (w.1 + y * x.1)
        == w.1 * w.1 + 2 * y * (w.1 * x.1) + y * y * (x.1 * x.1)) by (nonlinear_arith);
    assert((w.2 + y * x.2) * (w.2 + y * x.2)
        == w.2 * w.2 + 2 * y * (w.2 * x.2) + y * y * (x.2 * x.2)) by (nonlinear_arith);
    assert(2 * y * (w.0 * x.0) + 2 * y * (w.1 * x.1) + 2 * y * (w.2 * x.2)
        == 2 * y * (w.0 * x.0 + w.1 * x.1 + w.2 * x.2)) by (nonlinear_arith);
    assert(y * y * (x.0 * x.0) + y * y * (x.1 * x.1) + y * y * (x.2 * x.2)
        == y * y * (x.0 * x.0 + x.1 * x.1 + x.2 * x.2)) by (nonlinear_arith);
}

/// One correction at a misclassified point, under a separating vector `u`,
/// raises the alignment `u . w` by at least one while the squared norm of
/// the weights grows by at most the largest feature norm.
proof fn lemma_correction_progress(u: (int, int, int), w: (int, int, int), p: Datapoint, r2: int)
    requires
        misclassified(w, p),
        label_value(p.label) * score(u, p) >= 1,
        norm2(feature(p)) <= r2,
    ensures
        dot3(u, add_scaled3(w, label_value(p.label), feature(p))) >= dot3(u, w) + 1,
        norm2(add_scaled3(w, label_value(p.label), feature(p))) <= norm2(w) + r2,
{
    let y = label_value(p.label);
    let x = feature(p);
    lemma_dot3_add_scaled(u, w, y, x);
    lemma_norm2_add_scaled(w, y, x);
    assert(y == 1 || y == -1);
    assert(y * y == 1) by (nonlinear_arith)
        requires
            y == 1 || y == -1,
    ;
    assert(2 * y * dot3(w, x) == 2 * (y * dot3(w, x))) by (nonlinear_arith);
    assert(y * dot3(w, x) <= 0);
    assert(y * y * norm2(x) == norm2(x)) by (nonlinear_arith)
        requires
            y == 1 || y == -1,
    ;
    assert(norm2(add_scaled3(w, y, x)) <= norm2(w) + norm2(x));
}

/// The alignment still missing before the squared-norm potential starts to
/// fall: positive while `2 * (u . w)` is still below `|u|^2 * r2 + 1`. Each
/// correction raises `u . w`, so this deficit falls to zero and stays there.
pub open spec fn alignment_deficit(u: (int, int, int), r2: int, w: (int, int, int)) -> int {
    let c = norm2(u) * r2 + 1 - 2 * dot3(u, w);
    if c >= 0 {
        c
    } else {
        0
    }
}

/// The Cauchy–Schwarz defect `|u|^2 * |w|^2 - (u . w)^2`: never negative,
/// and strictly falling under corrections once the alignment deficit is gone.
pub open spec fn cs_defect(u: (int, int, int), w: (int, int, int)) -> int {
    norm2(u) * norm2(w) - dot3(u, w) * dot3(u, w)
}

/// One correction drops the pair (alignment deficit, Cauchy–Schwarz defect)
/// lexicographically. This is the heart of the perceptron convergence
/// argument: the deficit falls while positive, and once it is gone the
/// defect falls, yet both are bounded below by zero.
proof fn lemma_correction_decreases_measure(
    u: (int, int, int),
    r2: int,
    w: (int, int, int),
    p: Datapoint,
)
    requires
        misclassified(w, p),
        label_value(p.label) * score(u, p) >= 1,
        norm2(feature(p)) <= r2,
    ensures
        ({
            let w2 = add_scaled3(w, label_value(p.label), feature(p));
            &&& alignment_deficit(u, r2, w) > 0 ==> alignment_deficit(u, r2, w2)
                < alignment_deficit(u, r2, w)
            &&& alignment_deficit(u, r2, w) == 0 ==> alignment_deficit(u, r2, w2) == 0
                && cs_defect(u, w2) < cs_defect(u, w)
        }),
{
    let y = label_value(p.label);
    let x = feature(p);
    let w2 = add_scaled3(w, y, x);
    let a = norm2(u);
    let d = dot3(u, w);
    let d2 = dot3(u, w2);
    let n = norm2(w);
    let n2 = norm2(w2);
    let c = a * r2 + 1;
    lemma_correction_progress(u, w, p, r2);
    lemma_norm2_nonneg(u);
    assert(x.1 * x.1 >= 0 && x.2 * x.2 >= 0) by (nonlinear_arith);
    assert(norm2(x) >= 1);
    assert(a * r2 >= 0) by (nonlinear_arith)
        requires
            a >= 0,
            r2 >= 1,
    ;
    if alignment_deficit(u, r2, w) == 0 {
        assert(c - 2 * d <= 0);
        assert(c - 2 * d2 <= -2);
        assert(alignment_deficit(u, r2, w2) == 0);
        assert(d >= 1);
        assert(d2 * d2 >= (d + 1) * (d + 1)) by (nonlinear_arith)
            requires
                d2 >= d + 1,
                d >= 1,
        ;
        assert((d + 1) * (d + 1) == d * d + 2 * d + 1) by (nonlinear_arith);
        assert(a * n2 <= a * n + a * r2) by (nonlinear_arith)
            requires
                a >= 0,
                n2 <= n + r2,
        ;
        assert(a * r2 - 2 * d - 1 <= -2);
        assert(cs_defect(u, w2) < cs_defect(u, w));
    }
}

/// The state after `n` calls to the step.
pub open spec fn advance_n(s: PerceptronView, n: nat) -> PerceptronView
    decreases n,
{
    if n == 0 {
        s
    } else {
        spec_update(advance_n(s, (n - 1) as nat))
    }
}

/// Stepping `n + 1` times from `s` is stepping `n` times from the successor.
proof fn lemma_advance_n_shift(s: PerceptronView, n: nat)
    ensures
        advance_n(s, n + 1) == advance_n(spec_update(s), n),
    decreases n,
{
    if n == 0 {
        assert(advance_n(s, 1) == spec_update(advance_n(s, 0)));
        assert(advance_n(s, 0) == s);
        assert(advance_n(spec_update(s), 0) == spec_update(s));
    } else {
        lemma_advance_n_shift(s, (n - 1) as nat);
        assert(advance_n(s, n + 1) == spec_update(advance_n(s, n)));
        assert(advance_n(spec_update(s), n) == spec_update(advance_n(spec_update(s), (n - 1) as nat)));
    }
}

/// A converged learner is a fixed point of the step for good: any number of
/// further steps leaves the whole state untouched.
pub proof fn lemma_converged_forever(s: PerceptronView, n: nat)
    requires
        s.wf(),
        s.has_converged,
    ensures
        advance_n(s, n) == s,
    decreases n,
{
    if n > 0 {
        lemma_converged_forever(s, (n - 1) as nat);
        lemma_converged_stable(s);
    }
}

/// A learner holding two points at the same position with opposite labels
/// never reports convergence, after any number of steps whatsoever.
pub proof fn lemma_contradictory_pair_never_converges_ever(
    s: PerceptronView,
    i: int,
    j: int,
    n: nat,
)
    requires
        s.wf(),
        !s.has_converged,
        0 <= i < s.datapoints.len(),
        0 <= j < s.datapoints.len(),
        s.datapoints[i].pos == s.datapoints[j].pos,
        s.datapoints[i].label != s.datapoints[j].label,
    ensures
        !advance_n(s, n).has_converged,
        advance_n(s, n).wf(),
        advance_n(s, n).datapoints == s.datapoints,
    decreases n,
{
    if n > 0 {
        lemma_contradictory_pair_never_converges_ever(s, i, j, (n - 1) as nat);
        let t = advance_n(s, (n - 1) as nat);
        lemma_contradictory_pair_never_converges(t, i, j);
        assert(advance_n(s, n) == spec_update(t));
    }
}

/// Linear separability termination: when some integer vector `u` classifies
/// every point strictly correctly (integer scores make its margin at least
/// one) and `r2` bounds every feature norm `1 + x^2 + y^2`, repeated steps
/// from any well-formed state reach a converged state over the same points
/// whose weights classify every point strictly correctly.
pub proof fn lemma_separable_eventually_converges(s: PerceptronView, u: (int, int, int), r2: int)
    requires
        s.wf(),
        separates(u, s.datapoints),
        forall|i: int| 0 <= i < s.datapoints.len()
            ==> norm2(feature(#[trigger] s.datapoints[i])) <= r2,
    ensures
        exists|n: nat|
            advance_n(s, n).has_converged
            && #[trigger] advance_n(s, n).datapoints == s.datapoints
            && (forall|j: int| 0 <= j < s.datapoints.len()
                ==> !misclassified(advance_n(s, n).weights, #[trigger] s.datapoints[j])),
    decreases alignment_deficit(u, r2, s.weights), cs_defect(u, s.weights),
{
    if s.has_converged {
        lemma_converged_stable(s);
        assert(advance_n(s, 0) == s);
        assert(advance_n(s, 0).has_converged
            && advance_n(s, 0).datapoints == s.datapoints
            && (forall|j: int| 0 <= j < s.datapoints.len()
                ==> !misclassified(advance_n(s, 0).weights, #[trigger] s.datapoints[j])));
    } else {
        lemma_step_granularity(s);
        lemma_spec_update_preserves_wf(s);
        let s2 = spec_update(s);
        if s2.has_converged {
            lemma_converged_stable(s2);
            assert(advance_n(s, 1) == spec_update(advance_n(s, 0)));
            assert(advance_n(s, 1) == s2);
            assert(forall|j: int| 0 <= j < s.datapoints.len()
                ==> !misclassified(s2.weights, #[trigger] s.datapoints[j]));
            assert(advance_n(s, 1).has_converged
                && advance_n(s, 1).datapoints == s.datapoints
                && (forall|j: int| 0 <= j < s.datapoints.len()
                    ==> !misclassified(advance_n(s, 1).weights, #[trigger] s.datapoints[j])));
        } else {
            let i = choose|i: int|
                0 <= i < s.datapoints.len()
                && misclassified(s.weights, #[trigger] s.datapoints[i])
                && spec_update(s).weights == add_scaled3(
                    s.weights,
                    label_value(s.datapoints[i].label),
                    feature(s.datapoints[i]),
                )
                && spec_update(s).last_update_index == Some(i);
            assert(label_value(s.datapoints[i].label) * score(u, s.datapoints[i]) >= 1);
            assert(norm2(feature(s.datapoints[i])) <= r2);
            lemma_correction_decreases_measure(u, r2, s.weights, s.datapoints[i]);
            lemma_cauchy_schwarz(u, s2.weights);
            assert(cs_defect(u, s2.weights) >= 0);
            assert(alignment_deficit(u, r2, s2.weights) >= 0);
            lemma_separable_eventually_converges(s2, u, r2);
            let n0 = choose|n: nat|
                advance_n(s2, n).has_converged
                && #[trigger] advance_n(s2, n).datapoints == s2.datapoints
                && (forall|j: int| 0 <= j < s2.datapoints.len()
                    ==> !misclassified(advance_n(s2, n).weights, #[trigger] s2.datapoints[j]));
            lemma_advance_n_shift(s, n0);
            assert(advance_n(s, n0 + 1) == advance_n(s2, n0));
            assert(advance_n(s, n0 + 1).has_converged
                && advance_n(s, n0 + 1).datapoints == s.datapoints
                && (forall|j: int| 0 <= j < s.datapoints.len()
                    ==> !misclassified(advance_n(s, n0 + 1).weights, #[trigger] s.datapoints[j])));
        }
    }
}

} // verus!
