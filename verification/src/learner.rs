use vstd::prelude::*;

use crate::vec3::Vec3;
use crate::vec3::add_scaled3;
use crate::vec3::dot3;

verus! {

/// The class assigned to a training point: one of the two signs.
#[derive(Clone, Copy, Debug, PartialEq, Eq, Structural)]
pub enum Label {
    Positive,
    Negative,
}

/// The signed unit that a label stands for in the arithmetic.
pub open spec fn label_value(l: Label) -> int {
    match l {
        Label::Positive => 1,
        Label::Negative => -1,
    }
}

impl Label {
    /// The signed unit that this label stands for.
    pub fn value(&self) -> (r: i64)
        ensures
            r as int == label_value(*self),
    {
        match self {
            Label::Positive => 1,
            Label::Negative => -1,
        }
    }
}

/// A labeled training point with integer plane coordinates.
#[derive(Clone, Copy, Debug, PartialEq, Eq)]
pub struct Datapoint {
    pub pos: (i32, i32),
    pub label: Label,
}

impl Datapoint {
    pub fn new(pos: (i32, i32), label: Label) -> (r: Datapoint)
        ensures
            r == (Datapoint { pos, label }),
    {
        Datapoint { pos, label }
    }
}

/// The homogeneous feature vector `(1, x, y)` of a point.
pub open spec fn feature(p: Datapoint) -> (int, int, int) {
    (1, p.pos.0 as int, p.pos.1 as int)
}

/// The decision value `bias + w1 * x + w2 * y` of the weights at a point.
pub open spec fn score(w: (int, int, int), p: Datapoint) -> int {
    dot3(w, feature(p))
}

/// A point is misclassified when `label * score <= 0`; a score of exactly
/// zero counts as incorrect for either label.
pub open spec fn misclassified(w: (int, int, int), p: Datapoint) -> bool {
    label_value(p.label) * score(w, p) <= 0
}

/// The weight correction at point `p` stays within the component type.
pub open spec fn update_fits(w: (int, int, int), p: Datapoint) -> bool {
    let v = add_scaled3(w, label_value(p.label), feature(p));
    &&& i64::MIN <= v.0 <= i64::MAX
    &&& i64::MIN <= v.1 <= i64::MAX
    &&& i64::MIN <= v.2 <= i64::MAX
}

/// The mathematical state of a [`Perceptron`].
#[verifier::ext_equal]
pub struct PerceptronView {
    pub datapoints: Seq<Datapoint>,
    pub weights: (int, int, int),
    pub curr_index: int,
    pub last_update_index: Option<int>,
    pub updates_this_generation: int,
    pub has_converged: bool,
}

/// The least index `i >= start` of a point misclassified under `w`, if any.
pub open spec fn first_misclassified_from(
    points: Seq<Datapoint>,
    w: (int, int, int),
    start: int,
) -> Option<int>
    decreases points.len() - start,
{
    if start >= points.len() {
        None
    } else if misclassified(w, points[start]) {
        Some(start)
    } else {
        first_misclassified_from(points, w, start + 1)
    }
}

/// The state after correcting the misclassified point at index `i`: the
/// update vector `label * (1, x, y)` is added to the weights and the cursor
/// moves past the point.
pub open spec fn apply_update_at(s: PerceptronView, i: int) -> PerceptronView {
    PerceptronView {
        weights: add_scaled3(
            s.weights,
            label_value(s.datapoints[i].label),
            feature(s.datapoints[i]),
        ),
        curr_index: i + 1,
        updates_this_generation: s.updates_this_generation + 1,
        last_update_index: Some(i),
        has_converged: false,
        datapoints: s.datapoints,
    }
}

/// What one call to [`Perceptron::update`] does to the state: skip correctly
/// classified points from the cursor on; correct the first misclassified one
/// and stop there; at the end of a pass either conclude convergence (the pass
/// was clean) or, if this pass had corrections, restart it once and scan
/// again within the same call.
pub open spec fn spec_update(s: PerceptronView) -> PerceptronView {
    if s.has_converged {
        s
    } else {
        match first_misclassified_from(s.datapoints, s.weights, s.curr_index) {
            Some(i) => apply_update_at(s, i),
            None => {
                if s.updates_this_generation == 0 {
                    PerceptronView {
                        curr_index: s.datapoints.len() as int,
                        has_converged: true,
                        ..s
                    }
                } else {
                    let restarted = PerceptronView {
                        curr_index: 0,
                        updates_this_generation: 0,
                        ..s
                    };
                    match first_misclassified_from(s.datapoints, s.weights, 0) {
                        Some(i) => apply_update_at(restarted, i),
                        None => PerceptronView {
                            curr_index: s.datapoints.len() as int,
                            has_converged: true,
                            ..restarted
                        },
                    }
                }
            },
        }
    }
}

impl PerceptronView {
    /// Well-formedness: the cursor stays within the pass; the update counter
    /// counts corrections of the current pass only; a counter of zero means
    /// the pass has been clean so far; and a converged learner has just
    /// finished a clean full pass.
    pub open spec fn wf(self) -> bool {
        &&& 0 <= self.curr_index <= self.datapoints.len()
        &&& 0 <= self.updates_this_generation <= self.curr_index
        &&& (self.updates_this_generation == 0 ==> forall|j: int|
            0 <= j < self.curr_index ==> !misclassified(self.weights, #[trigger] self.datapoints[j]))
        &&& (self.has_converged ==> self.curr_index == self.datapoints.len()
            && self.updates_this_generation == 0)
    }
}

/// Where the scan finds nothing, every point from `start` on is correctly
/// classified.
pub proof fn lemma_first_misclassified_none(
    points: Seq<Datapoint>,
    w: (int, int, int),
    start: int,
)
    requires
        first_misclassified_from(points, w, start) is None,
    ensures
        forall|j: int| start <= j < points.len() ==> !misclassified(w, #[trigger] points[j]),
    decreases points.len() - start,
{
    if start < points.len() {
        lemma_first_misclassified_none(points, w, start + 1);
    }
}

/// What the scan returns is the first misclassified index at or after
/// `start`.
pub proof fn lemma_first_misclassified_some(
    points: Seq<Datapoint>,
    w: (int, int, int),
    start: int,
    i: int,
)
    requires
        first_misclassified_from(points, w, start) == Some(i),
    ensures
        start <= i < points.len(),
        misclassified(w, points[i]),
        forall|j: int| start <= j < i ==> !misclassified(w, #[trigger] points[j]),
    decreases points.len() - start,
{
    if start < points.len() && !misclassified(w, points[start]) {
        lemma_first_misclassified_some(points, w, start + 1, i);
    }
}

/// If any point at or after `start` is misclassified, the scan finds one.
pub proof fn lemma_first_misclassified_exists(
    points: Seq<Datapoint>,
    w: (int, int, int),
    start: int,
    k: int,
)
    requires
        start <= k < points.len(),
        misclassified(w, points[k]),
    ensures
        first_misclassified_from(points, w, start) is Some,
{
    if first_misclassified_from(points, w, start) is None {
        lemma_first_misclassified_none(points, w, start);
        assert(false);
    }
}

/// One step keeps the state well-formed.
pub proof fn lemma_spec_update_preserves_wf(s: PerceptronView)
    requires
        s.wf(),
    ensures
        spec_update(s).wf(),
{
    if !s.has_converged {
        match first_misclassified_from(s.datapoints, s.weights, s.curr_index) {
            Some(i) => {
                lemma_first_misclassified_some(s.datapoints, s.weights, s.curr_index, i);
            },
            None => {
                lemma_first_misclassified_none(s.datapoints, s.weights, s.curr_index);
                if s.updates_this_generation != 0 {
                    match first_misclassified_from(s.datapoints, s.weights, 0) {
                        Some(i) => {
                            lemma_first_misclassified_some(s.datapoints, s.weights, 0, i);
                        },
                        None => {
                            lemma_first_misclassified_none(s.datapoints, s.weights, 0);
                        },
                    }
                }
            },
        }
    }
}

/// Determinism: the step is a function of the state alone, so a fixed point
/// sequence and fixed initial weights replay to an identical sequence of
/// weight vectors and an identical convergence point.
pub proof fn lemma_update_deterministic(a: PerceptronView, b: PerceptronView)
    requires
        a == b,
    ensures
        spec_update(a) == spec_update(b),
{
}

/// Once converged, the learner is a fixed point of the step — so no future
/// call changes the weights — and every point is classified correctly by the
/// current weights.
pub proof fn lemma_converged_stable(s: PerceptronView)
    requires
        s.wf(),
        s.has_converged,
    ensures
        spec_update(s) == s,
        forall|j: int| 0 <= j < s.datapoints.len()
            ==> !misclassified(s.weights, #[trigger] s.datapoints[j]),
{
}

/// Step granularity: one step leaves the weights unchanged exactly when it
/// ends converged; otherwise it adds exactly one update vector
/// `label * (1, x, y)` of a point misclassified by the old weights. It never
/// applies two corrections in one call.
pub proof fn lemma_step_granularity(s: PerceptronView)
    requires
        s.wf(),
    ensures
        spec_update(s).datapoints == s.datapoints,
        spec_update(s).has_converged <==> spec_update(s).weights == s.weights,
        !spec_update(s).has_converged ==> exists|i: int|
            0 <= i < s.datapoints.len()
            && misclassified(s.weights, #[trigger] s.datapoints[i])
            && spec_update(s).weights == add_scaled3(
                s.weights,
                label_value(s.datapoints[i].label),
                feature(s.datapoints[i]),
            )
            && spec_update(s).last_update_index == Some(i),
        s.has_converged ==> spec_update(s) == s,
{
    if !s.has_converged {
        match first_misclassified_from(s.datapoints, s.weights, s.curr_index) {
            Some(i) => {
                lemma_first_misclassified_some(s.datapoints, s.weights, s.curr_index, i);
                assert(spec_update(s).weights.0 == s.weights.0 + label_value(s.datapoints[i].label));
                assert(spec_update(s).weights != s.weights);
            },
            None => {
                if s.updates_this_generation != 0 {
                    match first_misclassified_from(s.datapoints, s.weights, 0) {
                        Some(i) => {
                            lemma_first_misclassified_some(s.datapoints, s.weights, 0, i);
                            assert(spec_update(s).weights.0
                                == s.weights.0 + label_value(s.datapoints[i].label));
                            assert(spec_update(s).weights != s.weights);
                        },
                        None => {},
                    }
                }
            },
        }
    }
}

/// Two points at the same position with opposite labels can never both be
/// classified correctly, so a learner holding such a pair never reports
/// convergence: the step keeps `has_converged` false, keeps the points, and
/// keeps the state well-formed, so the same holds of every later step.
pub proof fn lemma_contradictory_pair_never_converges(s: PerceptronView, i: int, j: int)
    requires
        s.wf(),
        !s.has_converged,
        0 <= i < s.datapoints.len(),
        0 <= j < s.datapoints.len(),
        s.datapoints[i].pos == s.datapoints[j].pos,
        s.datapoints[i].label != s.datapoints[j].label,
    ensures
        !spec_update(s).has_converged,
        spec_update(s).wf(),
        spec_update(s).datapoints == s.datapoints,
{
    lemma_spec_update_preserves_wf(s);
    let w = s.weights;
    assert(score(w, s.datapoints[i]) == score(w, s.datapoints[j]));
    assert(misclassified(w, s.datapoints[i]) || misclassified(w, s.datapoints[j])) by {
        let sc = score(w, s.datapoints[i]);
        if sc <= 0 {
            // the positively labeled one of the pair is misclassified
            assert(1 * sc <= 0);
        } else {
            // the negatively labeled one of the pair is misclassified
            assert(-1 * sc <= 0);
        }
    };
    let k = if misclassified(w, s.datapoints[i]) { i } else { j };
    match first_misclassified_from(s.datapoints, w, s.curr_index) {
        Some(_) => {},
        None => {
            lemma_first_misclassified_none(s.datapoints, w, s.curr_index);
            if s.updates_this_generation == 0 {
                // impossible: every point would be correctly classified,
                // contradicting the misclassified one of the pair
                assert(!misclassified(w, s.datapoints[k]));
                assert(false);
            } else {
                lemma_first_misclassified_exists(s.datapoints, w, 0, k);
            }
        },
    }
}

/// The perceptron learner: an ordered training set, the current weight
/// vector, and the cursor of the pass in progress.
pub struct Perceptron {
    datapoints: Vec<Datapoint>,
    weights: Vec3,
    curr_index: usize,
    last_update_index: Option<usize>,
    updates_this_generation: usize,
    has_converged: bool,
}

impl View for Perceptron {
    type V = PerceptronView;

    closed spec fn view(&self) -> PerceptronView {
        PerceptronView {
            datapoints: self.datapoints@,
            weights: self.weights@,
            curr_index: self.curr_index as int,
            last_update_index: match self.last_update_index {
                Some(i) => Some(i as int),
                None => None,
            },
            updates_this_generation: self.updates_this_generation as int,
            has_converged: self.has_converged,
        }
    }
}

impl Perceptron {
    /// Builds a learner over `datapoints`, starting from `weights`. The point
    /// order is kept as given: it fixes the traversal order, which makes the
    /// "which point triggered this correction" feedback reproducible. An
    /// empty training set is converged from the start, since a pass over it
    /// is vacuously clean.
    pub fn new(datapoints: Vec<Datapoint>, weights: (i64, i64, i64)) -> (r: Perceptron)
        ensures
            r@.datapoints == datapoints@,
            r@.weights == (weights.0 as int, weights.1 as int, weights.2 as int),
            r@.curr_index == 0,
            r@.updates_this_generation == 0,
            r@.last_update_index is None,
            r@.has_converged == (datapoints@.len() == 0),
            r@.wf(),
    {
        let has_converged = datapoints.len() == 0;
        Perceptron {
            datapoints,
            weights: Vec3(weights.0, weights.1, weights.2),
            curr_index: 0,
            updates_this_generation: 0,
            last_update_index: None,
            has_converged,
        }
    }

    /// Whether the learner has seen a full pass without any correction.
    /// Once true, no future call to [`Perceptron::update`] changes anything.
    pub fn has_converged(&self) -> (r: bool)
        ensures
            r == self@.has_converged,
    {
        self.has_converged
    }

    /// The current weight vector `(bias, w1, w2)`. Corrections only ever add
    /// integer vectors, so the weights stay integral.
    pub fn weights(&self) -> (r: (i64, i64, i64))
        ensures
            (r.0 as int, r.1 as int, r.2 as int) == self@.weights,
    {
        (self.weights.0, self.weights.1, self.weights.2)
    }

    /// The index of the point that triggered the most recent correction, for
    /// highlighting; meaningless once the learner has converged.
    pub fn last_update_index(&self) -> (r: Option<usize>)
        ensures
            self@.last_update_index == match r {
                Some(i) => Some(i as int),
                None => None::<int>,
            },
    {
        self.last_update_index
    }

    /// Scans from the cursor to the end of the pass: skips correctly
    /// classified points, corrects the first misclassified one and reports
    /// `true`, or reaches the end of the pass and reports `false`.
    fn scan_for_update(&mut self) -> (updated: bool)
        requires
            old(self)@.curr_index <= old(self)@.datapoints.len(),
            old(self)@.updates_this_generation <= old(self)@.curr_index,
            !old(self)@.has_converged,
            forall|i: int| 0 <= i < old(self)@.datapoints.len()
                ==> update_fits(old(self)@.weights, #[trigger] old(self)@.datapoints[i]),
        ensures
            match first_misclassified_from(
                old(self)@.datapoints,
                old(self)@.weights,
                old(self)@.curr_index,
            ) {
                Some(i) => updated && final(self)@ == apply_update_at(old(self)@, i),
                None => !updated && final(self)@ == (PerceptronView {
                    curr_index: old(self)@.datapoints.len() as int,
                    ..old(self)@
                }),
            },
    {
        let n = self.datapoints.len();
        while self.curr_index < n
            invariant
                n == self@.datapoints.len(),
                old(self)@.curr_index <= self@.curr_index <= n,
                self@.datapoints == old(self)@.datapoints,
                self@.weights == old(self)@.weights,
                self@.updates_this_generation == old(self)@.updates_this_generation,
                self@.last_update_index == old(self)@.last_update_index,
                self@.has_converged == old(self)@.has_converged,
                !self@.has_converged,
                old(self)@.updates_this_generation <= old(self)@.curr_index,
                forall|i: int| 0 <= i < old(self)@.datapoints.len()
                    ==> update_fits(old(self)@.weights, #[trigger] old(self)@.datapoints[i]),
                first_misclassified_from(
                    old(self)@.datapoints,
                    old(self)@.weights,
                    old(self)@.curr_index,
                ) == first_misclassified_from(
                    old(self)@.datapoints,
                    old(self)@.weights,
                    self@.curr_index as int,
                ),
            decreases n - self.curr_index,
        {
            let ghost k = self@.curr_index;
            let p = self.datapoints[self.curr_index];
            let x = Vec3(1, p.pos.0 as i64, p.pos.1 as i64);
            proof {
                assert(x@ == feature(p));
                lemma_feature_product_bounded(self@.weights.1, p.pos.0 as int);
                lemma_feature_product_bounded(self@.weights.2, p.pos.1 as int);
            }
            let s = self.weights.dot(&x);
            let mis = match p.label {
                Label::Positive => s <= 0,
                Label::Negative => s >= 0,
            };
            proof {
                let lv = label_value(p.label);
                let sc = score(self@.weights, p);
                assert(lv * sc <= 0 <==> ((lv == 1 && sc <= 0) || (lv == -1 && sc >= 0)))
                    by (nonlinear_arith)
                    requires
                        lv == 1 || lv == -1,
                ;
                assert(mis == misclassified(self@.weights, p));
            }
            if mis {
                let y = p.label.value();
                let new_weights = self.weights.add_scaled(y, &x);
                self.weights = new_weights;
                self.updates_this_generation = self.updates_this_generation + 1;
                self.last_update_index = Some(self.curr_index);
                self.curr_index = self.curr_index + 1;
                proof {
                    assert(first_misclassified_from(
                        old(self)@.datapoints,
                        old(self)@.weights,
                        k,
                    ) == Some(k));
                    assert(self@ =~= apply_update_at(old(self)@, k));
                }
                return true;
            }
            self.curr_index = self.curr_index + 1;
            proof {
                assert(first_misclassified_from(old(self)@.datapoints, old(self)@.weights, k)
                    == first_misclassified_from(old(self)@.datapoints, old(self)@.weights, k + 1));
            }
        }
        proof {
            assert(first_misclassified_from(
                old(self)@.datapoints,
                old(self)@.weights,
                self@.curr_index as int,
            ) is None);
            assert(self@ =~= (PerceptronView {
                curr_index: old(self)@.datapoints.len() as int,
                ..old(self)@
            }));
        }
        false
    }

    /// Makes at most one weight correction, then returns. Correctly
    /// classified points are skipped within the same call; at the end of a
    /// pass, a clean pass sets `has_converged`, and a pass that had
    /// corrections is restarted once within the same call. So every call
    /// either applies exactly one correction, or establishes convergence, or
    /// does nothing because the learner had already converged.
    pub fn update(&mut self)
        requires
            old(self)@.wf(),
            forall|i: int| 0 <= i < old(self)@.datapoints.len()
                ==> update_fits(old(self)@.weights, #[trigger] old(self)@.datapoints[i]),
        ensures
            final(self)@ == spec_update(old(self)@),
            final(self)@.wf(),
    {
        proof {
            lemma_spec_update_preserves_wf(old(self)@);
        }
        if self.has_converged {
            return;
        }
        if self.scan_for_update() {
            return;
        }
        if self.updates_this_generation == 0 {
            self.has_converged = true;
            return;
        }
        self.updates_this_generation = 0;
        self.curr_index = 0;
        if self.scan_for_update() {
            return;
        }
        self.has_converged = true;
    }
}

/// The product of an `i64`-range value and an `i32`-range value stays within
/// `2^94` in magnitude.
proof fn lemma_feature_product_bounded(a: int, b: int)
    requires
        i64::MIN <= a <= i64::MAX,
        i32::MIN <= b <= i32::MAX,
    ensures
        -0x4000_0000_0000_0000_0000_0000 <= a * b <= 0x4000_0000_0000_0000_0000_0000,
{
    assert(-0x4000_0000_0000_0000_0000_0000 <= a * b <= 0x4000_0000_0000_0000_0000_0000)
        by (nonlinear_arith)
        requires
            i64::MIN <= a <= i64::MAX,
            i32::MIN <= b <= i32::MAX,
    ;
}

} // verus!
