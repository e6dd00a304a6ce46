use pi_darts::geometry::{classify, Point, SCALE};
use pi_darts::store::{DartError, TemplateApp};

#[test]
fn a_new_store_is_empty_with_default_text() {
    let app = TemplateApp::new();
    assert_eq!(app.total_darts(), 0);
    assert_eq!(app.inside_count(), 0);
    assert_eq!(app.pending_text(), "0");
    let d: TemplateApp = Default::default();
    assert_eq!(d.total_darts(), 0);
    assert_eq!(d.pending_text(), "0");
}

#[test]
fn generate_grows_the_store_by_exactly_n() {
    let mut app = TemplateApp::new();
    app.generate(5);
    assert_eq!(app.total_darts(), 5);
    app.generate(0);
    assert_eq!(app.total_darts(), 5);
    app.generate(3);
    assert_eq!(app.total_darts(), 8);
}

#[test]
fn generate_appends_and_preserves_earlier_darts() {
    let mut app = TemplateApp::new();
    app.generate(50);
    let before: Vec<_> = (0..50).map(|i| app.point(i)).collect();
    app.generate(70);
    assert_eq!(app.total_darts(), 120);
    for (i, p) in before.iter().enumerate() {
        assert_eq!(app.point(i), *p);
    }
}

#[test]
fn generated_darts_lie_in_the_sample_square() {
    let mut app = TemplateApp::new();
    app.generate(2000);
    for i in 0..app.total_darts() {
        let p = app.point(i);
        assert!(-SCALE <= p.x && p.x < SCALE);
        assert!(-SCALE <= p.y && p.y < SCALE);
    }
}

#[test]
fn generated_darts_look_uniform() {
    // a loose statistical check: each half of the square gets about half of
    // a large batch, and about pi/4 of the darts land in the disk
    let mut app = TemplateApp::new();
    let n = 100_000;
    app.generate(n);
    let total = app.total_darts();
    assert_eq!(total, n as usize);
    let mut x_pos = 0usize;
    let mut y_pos = 0usize;
    for i in 0..total {
        let p = app.point(i);
        if p.x >= 0 {
            x_pos += 1;
        }
        if p.y >= 0 {
            y_pos += 1;
        }
    }
    let fx = x_pos as f64 / total as f64;
    let fy = y_pos as f64 / total as f64;
    assert!((fx - 0.5).abs() < 0.02, "x fraction {fx}");
    assert!((fy - 0.5).abs() < 0.02, "y fraction {fy}");
    let inside = app.inside_count() as f64 / total as f64;
    let quarter_pi = std::f64::consts::FRAC_PI_4;
    assert!((inside - quarter_pi).abs() < 0.02, "inside fraction {inside}");
}

#[test]
fn throwing_with_valid_text_appends_that_many() {
    let mut app = TemplateApp::new();
    app.set_pending_text("10".to_string());
    assert_eq!(app.throw_darts(), Ok(()));
    assert_eq!(app.total_darts(), 10);
    assert_eq!(app.pending_text(), "10");
}

#[test]
fn throwing_with_negative_count_appends_nothing() {
    let mut app = TemplateApp::new();
    app.set_pending_text("-5".to_string());
    assert_eq!(app.throw_darts(), Ok(()));
    assert_eq!(app.total_darts(), 0);
}

#[test]
fn throwing_with_malformed_text_is_rejected_without_change() {
    let mut app = TemplateApp::new();
    app.generate(4);
    app.set_pending_text("abc".to_string());
    assert_eq!(app.throw_darts(), Err(DartError::InvalidCount));
    assert_eq!(app.total_darts(), 4);
    assert_eq!(app.pending_text(), "abc");
}

#[test]
fn throwing_with_oversized_count_text_is_rejected() {
    let mut app = TemplateApp::new();
    app.set_pending_text("99999999999".to_string());
    assert_eq!(app.throw_darts(), Err(DartError::InvalidCount));
    assert_eq!(app.total_darts(), 0);
    app.set_pending_text("".to_string());
    assert_eq!(app.throw_darts(), Err(DartError::InvalidCount));
    assert_eq!(app.total_darts(), 0);
}

#[test]
fn inside_count_matches_the_classifier() {
    let app = TemplateApp {
        points: vec![
            Point { x: 0, y: 0 },
            Point { x: SCALE, y: 0 },
            Point { x: SCALE, y: SCALE },
            Point { x: -600_000_000, y: 800_000_000 },
            Point { x: 999_999_999, y: -999_999_999 },
        ],
        darts_to_throw: "0".to_string(),
    };
    let by_hand = app
        .points
        .iter()
        .filter(|p| classify(p.x, p.y))
        .count();
    assert_eq!(app.inside_count(), by_hand);
    assert_eq!(app.inside_count(), 3);
    assert_eq!(app.total_darts(), 5);
}
