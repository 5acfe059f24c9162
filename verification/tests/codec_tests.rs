use face_stabilizer::codec::encode_features;
use face_stabilizer::decode::decode_features;
use face_stabilizer::features::Features;
use face_stabilizer::landmarks::Face;
use face_stabilizer::landmarks::Faces;
use face_stabilizer::landmarks::Landmarks;
use face_stabilizer::landmarks::Rect;

fn face(l: i64, t: i64, r: i64, b: i64, pts: Vec<(i64, i64)>) -> Face {
    Face(
        Rect {
            left: l,
            top: t,
            right: r,
            bottom: b,
        },
        Landmarks::new(pts),
    )
}

fn sample_store() -> Features {
    let mut f = Features::new(String::from("imgs"));
    f.insert(
        String::from("a.png"),
        Faces::new(vec![face(1, 2, 3, 4, vec![(10, 20), (30, 40)])]),
    );
    f
}

#[test]
fn encode_compact_exact() {
    let f = sample_store();
    let s = encode_features(&f, false);
    assert_eq!(
        s,
        "{\"basedir\":\"imgs\",\"features\":{\"a.png\":[[{\"left\":1,\"top\":2,\"right\":3,\"bottom\":4},[[10,20],[30,40]]]]}}"
    );
}

#[test]
fn encode_pretty_exact() {
    let f = sample_store();
    let s = encode_features(&f, true);
    let expected = "{\n  \"basedir\": \"imgs\",\n  \"features\": {\n    \"a.png\": [\n      [{\"left\":1,\"top\":2,\"right\":3,\"bottom\":4},[[10,20],[30,40]]]\n    ]\n  }\n}";
    assert_eq!(s, expected);
}

#[test]
fn round_trip_compact() {
    let f = sample_store();
    let s = encode_features(&f, false);
    let g = decode_features(&s).expect("the encoded store must decode");
    assert_eq!(f, g);
}

#[test]
fn round_trip_pretty() {
    let f = sample_store();
    let s = encode_features(&f, true);
    let g = decode_features(&s).expect("the encoded store must decode");
    assert_eq!(f, g);
}

#[test]
fn round_trip_many_entries() {
    let mut f = Features::new(String::from("/data/shots"));
    f.insert(String::from("zzz.jpg"), Faces::new(vec![]));
    f.insert(
        String::from("one.jpg"),
        Faces::new(vec![
            face(-5, -6, 7, 8, vec![(0, 0)]),
            face(0, 0, 0, 0, vec![]),
        ]),
    );
    f.insert(String::from("two.jpg"), Faces::new(vec![face(1, 1, 2, 2, vec![(3, -4), (5, 6)])]));
    for pretty in [false, true] {
        let s = encode_features(&f, pretty);
        let g = decode_features(&s).expect("the encoded store must decode");
        assert_eq!(f, g);
    }
}

#[test]
fn round_trip_extreme_coordinates() {
    let mut f = Features::new(String::from("d"));
    f.insert(
        String::from("x"),
        Faces::new(vec![face(
            i64::MIN,
            i64::MAX,
            0,
            -1,
            vec![(i64::MIN, i64::MAX), (0, -9223372036854775808)],
        )]),
    );
    let s = encode_features(&f, false);
    assert!(s.contains("-9223372036854775808"));
    assert!(s.contains("9223372036854775807"));
    let g = decode_features(&s).expect("the encoded store must decode");
    assert_eq!(f, g);
}

#[test]
fn round_trip_escaped_names() {
    let mut f = Features::new(String::from("dir with \"quotes\" and \\slashes\\"));
    f.insert(String::from("tab\tname\n.png"), Faces::new(vec![]));
    f.insert(String::from("plain \u{7} bell"), Faces::new(vec![]));
    for pretty in [false, true] {
        let s = encode_features(&f, pretty);
        let g = decode_features(&s).expect("the encoded store must decode");
        assert_eq!(f, g);
    }
}

#[test]
fn encode_escapes_control_characters() {
    let mut f = Features::new(String::from("a\u{1f}b"));
    f.insert(String::from("n"), Faces::new(vec![]));
    let s = encode_features(&f, false);
    assert!(s.contains("a\\u001fb"));
}

#[test]
fn decode_accepts_whitespace_and_short_escapes() {
    let text = " { \"basedir\" : \"d\\n\\t\\\"x\\\\\" ,\n\t\"features\" : { \"a\" : [ ] } } ";
    let f = decode_features(text).expect("a spaced document must decode");
    assert_eq!(f.basedir(), "d\n\t\"x\\");
    assert_eq!(f.len(), 1);
    assert_eq!(f.entry(0).0, "a");
    assert_eq!(f.entry(0).1.len(), 0);
}

#[test]
fn decode_accepts_unsorted_and_duplicate_names() {
    let text = "{\"basedir\":\"d\",\"features\":{\"b\":[],\"a\":[],\"b\":[[{\"left\":1,\"top\":1,\"right\":1,\"bottom\":1},[]]]}}";
    let mut f = decode_features(text).expect("the document must decode");
    assert_eq!(f.len(), 2);
    let (first, faces) = f.first_feature().expect("two entries remain");
    assert_eq!(first, "a");
    assert_eq!(faces.len(), 0);
    let (second, faces) = f.first_feature().expect("one entry remains");
    assert_eq!(second, "b");
    assert_eq!(faces.len(), 1);
}

#[test]
fn decode_rejects_malformed_documents() {
    // Truncated, missing keys, wrong keys, unterminated strings.
    assert!(decode_features("").is_none());
    assert!(decode_features("{}").is_none());
    assert!(decode_features("{\"basedir\":\"d\"}").is_none());
    assert!(decode_features("{\"basedir\":\"d\",\"features\":{}").is_none());
    assert!(decode_features("{\"basedir\":\"d\",\"platform\":{}}").is_none());
    assert!(decode_features("{\"basedir\":\"d,\"features\":{}}").is_none());
    // Trailing data after the document.
    assert!(decode_features("{\"basedir\":\"d\",\"features\":{}}x").is_none());
    // Raw control character inside a string.
    assert!(decode_features("{\"basedir\":\"d\u{1}\",\"features\":{}}").is_none());
}

#[test]
fn decode_rejects_bad_numbers() {
    let shape = |n: &str| {
        format!(
            "{{\"basedir\":\"d\",\"features\":{{\"a\":[[{{\"left\":{n},\"top\":1,\"right\":1,\"bottom\":1}},[]]]}}}}"
        )
    };
    assert!(decode_features(&shape("007")).is_none());
    assert!(decode_features(&shape("-")).is_none());
    assert!(decode_features(&shape("1.5")).is_none());
    assert!(decode_features(&shape("9223372036854775808")).is_none());
    assert!(decode_features(&shape("-9223372036854775809")).is_none());
    assert!(decode_features(&shape("9223372036854775807")).is_some());
    assert!(decode_features(&shape("-9223372036854775808")).is_some());
}

#[test]
fn decode_accepts_trailing_whitespace_only() {
    let ok = "{\"basedir\":\"d\",\"features\":{}} \n\t ";
    assert!(decode_features(ok).is_some());
}
