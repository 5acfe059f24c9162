use face_stabilizer::geometry::is_collinear;
use face_stabilizer::landmarks::Landmarks;
use face_stabilizer::selector::select_projection;
use face_stabilizer::selector::AnchorIndices;
use face_stabilizer::selector::SelectError;

fn head_anchors() -> AnchorIndices {
    AnchorIndices {
        nose: 0,
        left_outer: 1,
        left_inner: 2,
        right_inner: 3,
        right_outer: 4,
    }
}

#[test]
fn collinear_detects_lines_and_coincidence() {
    assert!(is_collinear((0, 0), (1, 1), (2, 2)));
    assert!(is_collinear((0, 0), (0, 0), (5, 7)));
    assert!(is_collinear((3, 3), (3, 3), (3, 3)));
    assert!(!is_collinear((0, 0), (1, 0), (0, 1)));
    assert!(is_collinear(
        (i64::MIN, i64::MIN),
        (i64::MAX, i64::MAX),
        (0, 0)
    ));
    assert!(!is_collinear((i64::MIN, 0), (i64::MAX, 1), (0, 2)));
}

#[test]
fn first_candidate_wins_when_well_posed() {
    // No three anchors collinear: the first subset (dropping the left outer
    // corner) is taken.
    let lm = Landmarks::new(vec![(5, 1), (0, 10), (3, 11), (7, 12), (10, 9)]);
    let sel = select_projection(&lm, &lm, &head_anchors()).expect("a well-posed face");
    assert_eq!(sel.candidate, 0);
    assert_eq!(sel.reference, vec![(5, 1), (3, 11), (7, 12), (10, 9)]);
    assert_eq!(sel.target, sel.reference);
}

#[test]
fn collinear_anchor_selects_the_subset_excluding_it() {
    // The left inner corner (5, 5) lies on the line through the nose (0, 0)
    // and the right outer corner (10, 10), so the first subset, which keeps
    // it, is degenerate; the second subset drops exactly that corner.
    let lm = Landmarks::new(vec![(0, 0), (10, 0), (5, 5), (0, 10), (10, 10)]);
    let sel = select_projection(&lm, &lm, &head_anchors()).expect("a fallback subset exists");
    assert_eq!(sel.candidate, 1);
    assert_eq!(sel.reference, vec![(0, 0), (10, 0), (0, 10), (10, 10)]);
    assert_eq!(sel.target, sel.reference);
}

#[test]
fn degenerate_target_also_disqualifies_a_candidate() {
    let reference = Landmarks::new(vec![(0, 0), (10, 0), (5, 7), (0, 10), (10, 10)]);
    // Same shape, but the target's left inner corner falls on the
    // nose-to-right-outer line.
    let target = Landmarks::new(vec![(0, 0), (10, 0), (5, 5), (0, 10), (10, 10)]);
    let sel = select_projection(&reference, &target, &head_anchors()).expect("fallback exists");
    assert_eq!(sel.candidate, 1);
}

#[test]
fn all_candidates_degenerate_is_no_valid_projection() {
    // Every anchor on one line: every four-point subset is collinear.
    let lm = Landmarks::new(vec![(0, 0), (1, 1), (2, 2), (3, 3), (4, 4)]);
    let err = select_projection(&lm, &lm, &head_anchors()).unwrap_err();
    assert_eq!(err, SelectError::NoValidProjection);
}

#[test]
fn missing_anchor_indices_are_reported() {
    let short = Landmarks::new(vec![(0, 0), (1, 0), (2, 0)]);
    let full = Landmarks::new(vec![(5, 1), (0, 10), (3, 11), (7, 12), (10, 9)]);
    let err = select_projection(&short, &full, &head_anchors()).unwrap_err();
    assert_eq!(err, SelectError::MissingAnchors);
    let err = select_projection(&full, &short, &head_anchors()).unwrap_err();
    assert_eq!(err, SelectError::MissingAnchors);
}

#[test]
fn standard_anchor_indices_follow_the_68_point_convention() {
    let idx = AnchorIndices::standard();
    assert_eq!(idx.nose, 30);
    assert_eq!(idx.left_outer, 36);
    assert_eq!(idx.left_inner, 39);
    assert_eq!(idx.right_inner, 42);
    assert_eq!(idx.right_outer, 45);
}
