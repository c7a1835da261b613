use perceptron::{Datapoint, Label, modify_datapoint};

#[test]
fn painting_on_empty_space_adds_a_point() {
    let mut points: Vec<Datapoint> = Vec::new();
    let changed = modify_datapoint(&mut points, (4, -2), Some(Label::Positive));
    assert!(changed);
    assert_eq!(points.len(), 1);
    assert_eq!(points[0], Datapoint::new((4, -2), Label::Positive));
}

#[test]
fn painting_an_existing_point_relabels_it_in_place() {
    let mut points = vec![
        Datapoint::new((1, 1), Label::Positive),
        Datapoint::new((2, 2), Label::Negative),
    ];
    let changed = modify_datapoint(&mut points, (2, 2), Some(Label::Positive));
    assert!(changed);
    assert_eq!(points.len(), 2);
    assert_eq!(points[0], Datapoint::new((1, 1), Label::Positive));
    assert_eq!(points[1], Datapoint::new((2, 2), Label::Positive));
}

#[test]
fn painting_the_same_label_changes_nothing() {
    let mut points = vec![Datapoint::new((1, 1), Label::Negative)];
    let changed = modify_datapoint(&mut points, (1, 1), Some(Label::Negative));
    assert!(!changed);
    assert_eq!(points, vec![Datapoint::new((1, 1), Label::Negative)]);
}

#[test]
fn deleting_an_existing_point_removes_it_and_keeps_order() {
    let mut points = vec![
        Datapoint::new((1, 1), Label::Positive),
        Datapoint::new((2, 2), Label::Negative),
        Datapoint::new((3, 3), Label::Positive),
    ];
    let changed = modify_datapoint(&mut points, (2, 2), None);
    assert!(changed);
    assert_eq!(
        points,
        vec![
            Datapoint::new((1, 1), Label::Positive),
            Datapoint::new((3, 3), Label::Positive),
        ]
    );
}

#[test]
fn deleting_a_missing_point_changes_nothing() {
    let mut points = vec![Datapoint::new((1, 1), Label::Positive)];
    let changed = modify_datapoint(&mut points, (9, 9), None);
    assert!(!changed);
    assert_eq!(points.len(), 1);
}

#[test]
fn edits_touch_only_the_first_of_equal_positions() {
    let mut points = vec![
        Datapoint::new((0, 0), Label::Positive),
        Datapoint::new((0, 0), Label::Negative),
    ];
    let changed = modify_datapoint(&mut points, (0, 0), Some(Label::Negative));
    assert!(changed);
    assert_eq!(points[0], Datapoint::new((0, 0), Label::Negative));
    assert_eq!(points[1], Datapoint::new((0, 0), Label::Negative));

    let removed = modify_datapoint(&mut points, (0, 0), None);
    assert!(removed);
    assert_eq!(points.len(), 1);
}
