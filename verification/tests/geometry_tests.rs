use pi_darts::geometry::{circle_steps, classify, square_outline, Point, SCALE};

#[test]
fn classify_boundary_point_is_inside() {
    // (1.0, 0.0) lies on the circle: the disk is closed.
    assert!(classify(SCALE, 0));
}

#[test]
fn classify_just_outside_is_outside() {
    // (1.0001, 0.0) in scaled units.
    assert!(!classify(1_000_100_000, 0));
}

#[test]
fn classify_origin_and_corner() {
    assert!(classify(0, 0));
    // The corner (1, 1) of the square is well outside the disk.
    assert!(!classify(SCALE, SCALE));
    // (0.6, 0.8) is another boundary point: 0.36 + 0.64 == 1.
    assert!(classify(600_000_000, 800_000_000));
    assert!(!classify(600_000_001, 800_000_000));
}

#[test]
fn classify_handles_extreme_coordinates() {
    assert!(!classify(i64::MAX, i64::MAX));
    assert!(!classify(i64::MIN, i64::MIN));
    assert!(!classify(i64::MIN, 0));
}

#[test]
fn circle_polyline_has_513_steps_and_closes() {
    let steps = circle_steps();
    assert_eq!(steps.len(), 513);
    assert_eq!(steps[0], 0);
    assert_eq!(steps[512], 512);
    for (i, s) in steps.iter().enumerate() {
        assert_eq!(*s, i as u64);
    }
    // step 0 and step 512 denote the same direction: a whole number of turns apart
    assert_eq!(steps[0] % 512, steps[512] % 512);
}

#[test]
fn circle_vertices_lie_on_unit_circle() {
    // the documented mapping of a step to a vertex: angle 2*pi*step/512
    let steps = circle_steps();
    for s in steps.iter() {
        let t = (*s as f64) / 512.0 * std::f64::consts::TAU;
        let (x, y) = (t.cos(), t.sin());
        assert!((x * x + y * y - 1.0).abs() < 1e-12);
    }
}

#[test]
fn square_outline_is_the_closed_bounding_square() {
    let sq = square_outline();
    assert_eq!(sq.len(), 5);
    assert_eq!(sq[0], Point { x: -SCALE, y: -SCALE });
    assert_eq!(sq[1], Point { x: SCALE, y: -SCALE });
    assert_eq!(sq[2], Point { x: SCALE, y: SCALE });
    assert_eq!(sq[3], Point { x: -SCALE, y: SCALE });
    assert_eq!(sq[4], sq[0]);
}
