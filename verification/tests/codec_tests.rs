use pi_darts::codec::{decode, encode};
use pi_darts::geometry::{Point, SCALE};
use pi_darts::store::TemplateApp;

fn sample_store() -> TemplateApp {
    TemplateApp {
        points: vec![
            Point { x: 0, y: 0 },
            Point { x: 123_456_789, y: -987_654_321 },
            Point { x: -SCALE, y: SCALE },
            Point { x: SCALE, y: -SCALE },
        ],
        darts_to_throw: "42".to_string(),
    }
}

#[test]
fn round_trip_keeps_points_and_text() {
    let app = sample_store();
    let blob = encode(&app);
    let back = decode(&blob).expect("the encoded record must decode");
    assert_eq!(back.points, app.points);
    assert_eq!(back.darts_to_throw, app.darts_to_throw);
}

#[test]
fn round_trip_of_an_empty_store() {
    let app = TemplateApp {
        points: vec![],
        darts_to_throw: "".to_string(),
    };
    let blob = encode(&app);
    let back = decode(&blob).expect("the encoded record must decode");
    assert_eq!(back.points, app.points);
    assert_eq!(back.darts_to_throw, "");
}

#[test]
fn round_trip_of_a_generated_store() {
    let mut app = TemplateApp::new();
    app.generate(300);
    app.set_pending_text("12".to_string());
    let blob = encode(&app);
    let back = decode(&blob).expect("the encoded record must decode");
    assert_eq!(back.points, app.points);
    assert_eq!(back.darts_to_throw, "12");
}

#[test]
fn text_with_record_like_characters_round_trips() {
    let app = TemplateApp {
        points: vec![Point { x: 1, y: -1 }],
        darts_to_throw: "t0;abc t -12".to_string(),
    };
    let blob = encode(&app);
    let back = decode(&blob).expect("the encoded record must decode");
    assert_eq!(back.darts_to_throw, "t0;abc t -12");
    assert_eq!(back.points, app.points);
}

#[test]
fn a_record_without_the_text_field_defaults_to_zero() {
    let app = sample_store();
    let mut blob = encode(&app);
    // cut the record right after the points: drop the marker and the text
    blob.truncate(16 + 16 * app.points.len());
    let back = decode(&blob).expect("a record cut after its points still decodes");
    assert_eq!(back.points, app.points);
    assert_eq!(back.darts_to_throw, "0");
}

#[test]
fn corrupt_records_are_rejected() {
    // too short for a point count
    assert!(decode(&vec!['0'; 15]).is_none());
    // count field is not hex
    assert!(decode(&vec!['x'; 20]).is_none());
    // claims one point but holds none
    let mut blob: Vec<char> = "0000000000000001".chars().collect();
    assert!(decode(&blob).is_none());
    // a point field that is not hex
    blob.extend("zzzzzzzzzzzzzzzz".chars());
    assert!(decode(&blob).is_none());
    // a coordinate offset above 2 * SCALE
    let mut big: Vec<char> = "0000000000000001".chars().collect();
    big.extend("ffffffff00000000".chars());
    assert!(decode(&big).is_none());
    // points followed by something that is no text marker
    let app = TemplateApp {
        points: vec![Point { x: 7, y: 7 }],
        darts_to_throw: "0".to_string(),
    };
    let mut tail = encode(&app);
    let marker_at = 16 + 16;
    tail[marker_at] = 'x';
    assert!(decode(&tail).is_none());
}

#[test]
fn the_encoded_record_is_printable_and_framed() {
    let app = sample_store();
    let blob = encode(&app);
    assert_eq!(blob.len(), 16 + 16 * app.points.len() + 1 + 2);
    let head: String = blob[..16].iter().collect();
    assert_eq!(head, "0000000000000004");
    assert_eq!(blob[16 + 16 * app.points.len()], 't');
}
