use face_stabilizer::features::Features;
use face_stabilizer::landmarks::Face;
use face_stabilizer::landmarks::Faces;
use face_stabilizer::landmarks::Landmarks;
use face_stabilizer::landmarks::Rect;
use face_stabilizer::pipeline::backup_name;
use face_stabilizer::pipeline::plan_transform;
use face_stabilizer::pipeline::plan_transform_from;
use face_stabilizer::pipeline::single_face;
use face_stabilizer::pipeline::ConfigError;
use face_stabilizer::pipeline::DetectorConfig;
use face_stabilizer::pipeline::DetectorKind;
use face_stabilizer::pipeline::PlanError;
use face_stabilizer::pipeline::PlannedAction;
use face_stabilizer::text::str_lt;

fn face(seed: i64) -> Face {
    Face(
        Rect {
            left: seed,
            top: seed + 1,
            right: seed + 2,
            bottom: seed + 3,
        },
        Landmarks::new(vec![(seed, seed), (seed + 1, seed + 2)]),
    )
}

#[test]
fn plan_copies_reference_and_skips_ambiguous_images() {
    // Three images: the first has exactly one face, the second none, the
    // third two. The run copies the first, skips the other two, and fails
    // nothing.
    let mut store = Features::new(String::from("imgs"));
    store.insert(String::from("a.png"), Faces::new(vec![face(1)]));
    store.insert(String::from("b.png"), Faces::new(vec![]));
    store.insert(String::from("c.png"), Faces::new(vec![face(2), face(3)]));
    let plan = plan_transform(store).expect("the reference is unambiguous");
    assert_eq!(plan.basedir, "imgs");
    assert_eq!(plan.reference_name, "a.png");
    assert_eq!(plan.reference, face(1));
    assert_eq!(
        plan.actions,
        vec![
            (String::from("b.png"), PlannedAction::SkipNoFaces),
            (String::from("c.png"), PlannedAction::SkipMultipleFaces),
        ]
    );
}

#[test]
fn plan_stabilizes_single_face_images() {
    let mut store = Features::new(String::from("d"));
    store.insert(String::from("ref.png"), Faces::new(vec![face(0)]));
    store.insert(String::from("z.png"), Faces::new(vec![face(9)]));
    let plan = plan_transform(store).expect("the reference is unambiguous");
    assert_eq!(plan.reference_name, "ref.png");
    assert_eq!(
        plan.actions,
        vec![(String::from("z.png"), PlannedAction::Stabilize(face(9)))]
    );
}

#[test]
fn plan_uses_the_first_name_in_sorted_order() {
    let mut store = Features::new(String::from("d"));
    store.insert(String::from("zz.png"), Faces::new(vec![face(5)]));
    store.insert(String::from("aa.png"), Faces::new(vec![face(7)]));
    let plan = plan_transform(store).expect("the reference is unambiguous");
    assert_eq!(plan.reference_name, "aa.png");
}

#[test]
fn plan_fails_on_an_empty_store() {
    let store = Features::new(String::from("d"));
    assert_eq!(plan_transform(store).unwrap_err(), PlanError::NoImages);
}

#[test]
fn plan_fails_on_an_ambiguous_reference() {
    let mut store = Features::new(String::from("d"));
    store.insert(String::from("a.png"), Faces::new(vec![face(1), face(2)]));
    assert_eq!(
        plan_transform(store).unwrap_err(),
        PlanError::AmbiguousReference(2)
    );
    let mut store = Features::new(String::from("d"));
    store.insert(String::from("a.png"), Faces::new(vec![]));
    assert_eq!(
        plan_transform(store).unwrap_err(),
        PlanError::AmbiguousReference(0)
    );
}

#[test]
fn an_overriding_reference_replaces_the_sorted_default() {
    let mut store = Features::new(String::from("d"));
    store.insert(String::from("a.png"), Faces::new(vec![face(1)]));
    store.insert(String::from("m.png"), Faces::new(vec![face(2)]));
    store.insert(String::from("z.png"), Faces::new(vec![]));
    let plan = plan_transform_from(store, "m.png").expect("the chosen reference exists");
    assert_eq!(plan.reference_name, "m.png");
    assert_eq!(plan.reference, face(2));
    assert_eq!(
        plan.actions,
        vec![
            (String::from("a.png"), PlannedAction::Stabilize(face(1))),
            (String::from("z.png"), PlannedAction::SkipNoFaces),
        ]
    );
}

#[test]
fn an_unknown_or_ambiguous_override_is_refused() {
    let mut store = Features::new(String::from("d"));
    store.insert(String::from("a.png"), Faces::new(vec![face(1)]));
    store.insert(String::from("m.png"), Faces::new(vec![face(2), face(3)]));
    assert_eq!(
        plan_transform_from(store.clone(), "q.png").unwrap_err(),
        PlanError::MissingReference
    );
    assert_eq!(
        plan_transform_from(store, "m.png").unwrap_err(),
        PlanError::AmbiguousReference(2)
    );
}

#[test]
fn single_face_accepts_exactly_one() {
    assert!(single_face(&Faces::new(vec![])).is_none());
    assert!(single_face(&Faces::new(vec![face(1), face(2)])).is_none());
    let faces = Faces::new(vec![face(4)]);
    assert_eq!(single_face(&faces), Some(&face(4)));
}

#[test]
fn backup_names_append_the_suffix_after_any_extension() {
    assert_eq!(backup_name("landmarks.json"), "landmarks.json.bak");
    assert_eq!(backup_name("landmarks"), "landmarks.bak");
    assert_eq!(backup_name("archive.tar.gz"), "archive.tar.gz.bak");
    assert_eq!(backup_name(""), ".bak");
}

#[test]
fn accurate_detector_needs_a_model_path() {
    let err = DetectorConfig::new(DetectorKind::Accurate, None).unwrap_err();
    assert_eq!(err, ConfigError::AccurateModelMissing);
    let ok = DetectorConfig::new(DetectorKind::Accurate, Some(String::from("mmod.dat")))
        .expect("a model path was supplied");
    assert_eq!(ok.detector_kind(), DetectorKind::Accurate);
    assert_eq!(ok.model().as_deref(), Some("mmod.dat"));
    let fast = DetectorConfig::new(DetectorKind::Fast, None).expect("the fast detector needs none");
    assert_eq!(fast.detector_kind(), DetectorKind::Fast);
}

#[test]
fn store_keeps_names_sorted_and_unique() {
    let mut store = Features::new(String::from("base"));
    store.insert(String::from("m.png"), Faces::new(vec![]));
    store.insert(String::from("a.png"), Faces::new(vec![face(1)]));
    store.insert(String::from("z.png"), Faces::new(vec![]));
    store.insert(String::from("a.png"), Faces::new(vec![face(2)]));
    assert_eq!(store.len(), 3);
    assert_eq!(store.entry(0).0, "a.png");
    assert_eq!(store.entry(0).1, Faces::new(vec![face(2)]));
    assert_eq!(store.entry(1).0, "m.png");
    assert_eq!(store.entry(2).0, "z.png");
}

#[test]
fn first_feature_drains_in_sorted_order() {
    let mut store = Features::new(String::from("base"));
    store.insert(String::from("b"), Faces::new(vec![]));
    store.insert(String::from("a"), Faces::new(vec![]));
    assert_eq!(store.first_feature().unwrap().0, "a");
    assert_eq!(store.first_feature().unwrap().0, "b");
    assert!(store.first_feature().is_none());
}

#[test]
fn retrieve_features_empties_the_store() {
    let mut store = Features::new(String::from("base"));
    store.insert(String::from("b"), Faces::new(vec![]));
    store.insert(String::from("a"), Faces::new(vec![face(3)]));
    let all = store.retrieve_features();
    assert_eq!(all.len(), 2);
    assert_eq!(all[0].0, "a");
    assert_eq!(all[1].0, "b");
    assert_eq!(store.len(), 0);
}

#[test]
fn extracted_stores_round_trip_into_the_same_plan() {
    // The two-phase run: collect detections, persist them, reload them, and
    // plan the transform; the plan matches the one-pass run's.
    let mut store = Features::new(String::from("imgs"));
    store.insert(String::from("a.png"), Faces::new(vec![face(1)]));
    store.insert(String::from("b.png"), Faces::new(vec![]));
    store.insert(String::from("c.png"), Faces::new(vec![face(2), face(3)]));
    let text = face_stabilizer::codec::encode_features(&store, true);
    let reloaded = face_stabilizer::decode::decode_features(&text).expect("persisted store decodes");
    let direct = plan_transform(store).expect("unambiguous reference");
    let reread = plan_transform(reloaded).expect("unambiguous reference");
    assert_eq!(direct, reread);
}

#[test]
fn name_order_is_lexicographic() {
    assert!(str_lt("a.png", "b.png"));
    assert!(str_lt("a", "a.png"));
    assert!(!str_lt("b.png", "a.png"));
    assert!(!str_lt("a.png", "a.png"));
    assert!(str_lt("A.png", "a.png"));
}

#[test]
fn feature_path_joins_base_directory_and_name() {
    let store = Features::new(String::from("imgs"));
    assert_eq!(store.feature_path("a.png"), "imgs/a.png");
}
