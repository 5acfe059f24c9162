use face_stabilizer::codec::encode_features;
use face_stabilizer::features::Features;
use face_stabilizer::gui::Gui;
use face_stabilizer::gui::Message;
use face_stabilizer::landmarks::Faces;

#[test]
fn a_fresh_front_end_has_nothing_loaded() {
    let gui = Gui::new();
    assert!(gui.features().is_none());
    assert_eq!(gui.title(), "Extract Facial Features");
}

#[test]
fn a_decodable_file_replaces_the_loaded_store() {
    let mut store = Features::new(String::from("imgs"));
    store.insert(String::from("a.png"), Faces::new(vec![]));
    let text = encode_features(&store, true);
    let mut gui = Gui::new();
    gui.update(Message::SelectFeaturesFile, Some(&text));
    assert_eq!(gui.features().as_ref(), Some(&store));
}

#[test]
fn a_malformed_file_leaves_the_state_unchanged() {
    let mut gui = Gui::new();
    gui.update(Message::SelectFeaturesFile, Some("not a feature file"));
    assert!(gui.features().is_none());
}

#[test]
fn a_dismissed_dialog_changes_nothing() {
    let mut store = Features::new(String::from("imgs"));
    store.insert(String::from("a.png"), Faces::new(vec![]));
    let text = encode_features(&store, false);
    let mut gui = Gui::new();
    gui.update(Message::SelectFeaturesFile, Some(&text));
    gui.update(Message::SelectFeaturesFile, None);
    assert_eq!(gui.features().as_ref(), Some(&store));
    gui.update(Message::NoOp, None);
    assert_eq!(gui.features().as_ref(), Some(&store));
}
