use perceptron::{Datapoint, Label, Perceptron};

fn separable_points() -> Vec<Datapoint> {
    vec![
        Datapoint::new((3, 1), Label::Positive),
        Datapoint::new((2, -1), Label::Positive),
        Datapoint::new((-2, 1), Label::Positive),
        Datapoint::new((-1, -3), Label::Negative),
    ]
}

fn decision_value(weights: (i64, i64, i64), p: (i32, i32)) -> i64 {
    weights.0 + weights.1 * p.0 as i64 + weights.2 * p.1 as i64
}

#[test]
fn empty_set_is_converged_immediately() {
    let p = Perceptron::new(vec![], (0, 0, 0));
    assert!(p.has_converged());
    assert_eq!(p.weights(), (0, 0, 0));
    assert_eq!(p.last_update_index(), None);
}

#[test]
fn empty_set_stays_converged_and_unchanged() {
    let mut p = Perceptron::new(vec![], (5, -7, 2));
    assert!(p.has_converged());
    for _ in 0..10 {
        p.update();
        assert!(p.has_converged());
        assert_eq!(p.weights(), (5, -7, 2));
    }
}

#[test]
fn first_update_adds_the_update_vector() {
    // From zero weights the first point has score 0, which counts as
    // misclassified, so the first call adds label * (1, x, y) exactly once.
    let mut p = Perceptron::new(vec![Datapoint::new((3, 1), Label::Positive)], (0, 0, 0));
    assert!(!p.has_converged());
    p.update();
    assert_eq!(p.weights(), (1, 3, 1));
    assert!(!p.has_converged());
    assert_eq!(p.last_update_index(), Some(0));
}

#[test]
fn clean_pass_sets_converged_without_touching_weights() {
    let mut p = Perceptron::new(vec![Datapoint::new((3, 1), Label::Positive)], (0, 0, 0));
    p.update();
    assert_eq!(p.weights(), (1, 3, 1));
    // (1,3,1) classifies (3,1) positively: 1 + 9 + 1 = 11 > 0, so the next
    // call sees a clean pass and converges without a weight change.
    p.update();
    assert!(p.has_converged());
    assert_eq!(p.weights(), (1, 3, 1));
}

#[test]
fn negative_label_subtracts_the_update_vector() {
    let mut p = Perceptron::new(vec![Datapoint::new((2, 5), Label::Negative)], (0, 0, 0));
    p.update();
    assert_eq!(p.weights(), (-1, -2, -5));
}

#[test]
fn separable_set_converges_and_classifies_every_point() {
    let points = separable_points();
    let mut p = Perceptron::new(points.clone(), (0, 0, 0));
    let mut calls = 0u32;
    while !p.has_converged() {
        p.update();
        calls += 1;
        assert!(calls < 10_000, "expected convergence on a separable set");
    }
    let w = p.weights();
    for point in &points {
        let value = decision_value(w, point.pos);
        let y: i64 = match point.label {
            Label::Positive => 1,
            Label::Negative => -1,
        };
        assert!(y * value > 0, "point {:?} must be classified correctly", point.pos);
    }
}

#[test]
fn exact_trajectory_on_the_separable_example() {
    // By hand: from zero weights the first point (3,1)+ has score 0 and is
    // corrected to (1,3,1); then (2,-1)+ scores 6 and is skipped, (-2,1)+
    // scores -4 and is corrected to (2,1,2); the third call finds (-1,-3)-
    // correct, restarts the pass, sees all four points correct, and
    // converges without touching the weights.
    let mut p = Perceptron::new(separable_points(), (0, 0, 0));
    p.update();
    assert_eq!(p.weights(), (1, 3, 1));
    assert_eq!(p.last_update_index(), Some(0));
    assert!(!p.has_converged());
    p.update();
    assert_eq!(p.weights(), (2, 1, 2));
    assert_eq!(p.last_update_index(), Some(2));
    assert!(!p.has_converged());
    p.update();
    assert_eq!(p.weights(), (2, 1, 2));
    assert!(p.has_converged());
}

#[test]
fn replay_is_deterministic() {
    // Two full replays over the same points and initial weights walk through
    // the identical sequence of weight vectors and converge at the same call.
    let run = || {
        let mut p = Perceptron::new(separable_points(), (0, 0, 0));
        let mut trace = Vec::new();
        for _ in 0..10_000 {
            if p.has_converged() {
                break;
            }
            p.update();
            trace.push((p.weights(), p.has_converged(), p.last_update_index()));
        }
        trace
    };
    let first = run();
    let second = run();
    assert!(!first.is_empty());
    assert_eq!(first, second);
}

#[test]
fn each_call_changes_weights_by_one_vector_or_not_at_all() {
    let points = separable_points();
    let mut p = Perceptron::new(points.clone(), (0, 0, 0));
    for _ in 0..10_000 {
        if p.has_converged() {
            break;
        }
        let before = p.weights();
        p.update();
        let after = p.weights();
        if after == before {
            // no weight change is allowed only when convergence was detected
            assert!(p.has_converged());
        } else {
            let idx = p.last_update_index().expect("an update must name its point");
            let point = points[idx];
            let y: i64 = match point.label {
                Label::Positive => 1,
                Label::Negative => -1,
            };
            assert_eq!(after.0, before.0 + y);
            assert_eq!(after.1, before.1 + y * point.pos.0 as i64);
            assert_eq!(after.2, before.2 + y * point.pos.1 as i64);
            // and the named point was misclassified by the old weights
            assert!(y * decision_value(before, point.pos) <= 0);
        }
    }
    assert!(p.has_converged());
}

#[test]
fn contradictory_pair_never_converges() {
    let points = vec![
        Datapoint::new((0, 0), Label::Positive),
        Datapoint::new((0, 0), Label::Negative),
    ];
    let mut p = Perceptron::new(points, (0, 0, 0));
    for _ in 0..10_000 {
        p.update();
        assert!(!p.has_converged());
    }
}

#[test]
fn weights_stay_integral_under_many_updates() {
    // The weights are integers by construction; this replays a longer run and
    // checks the exact integer trajectory stays reproducible and bounded by
    // integer steps of at most the coordinate magnitudes.
    let points = vec![
        Datapoint::new((3, 1), Label::Positive),
        Datapoint::new((2, -1), Label::Positive),
        Datapoint::new((-2, 1), Label::Positive),
        Datapoint::new((-1, -3), Label::Negative),
        Datapoint::new((47, -23), Label::Negative),
    ];
    let mut p = Perceptron::new(points, (0, 0, 0));
    let mut before = p.weights();
    for _ in 0..10_000 {
        if p.has_converged() {
            break;
        }
        p.update();
        let after = p.weights();
        assert!((after.0 - before.0).abs() <= 1);
        assert!((after.1 - before.1).abs() <= 47);
        assert!((after.2 - before.2).abs() <= 23);
        before = after;
    }
    assert!(p.has_converged());
}

#[test]
fn carried_forward_weights_start_a_fresh_pass() {
    // An editor rebuilds the learner but may carry the weights forward.
    let mut p = Perceptron::new(vec![Datapoint::new((3, 1), Label::Positive)], (0, 0, 0));
    p.update();
    let carried = p.weights();
    let rebuilt = Perceptron::new(vec![Datapoint::new((3, 1), Label::Positive)], carried);
    assert!(!rebuilt.has_converged());
    assert_eq!(rebuilt.weights(), carried);
    assert_eq!(rebuilt.last_update_index(), None);
}
