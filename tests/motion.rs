use cnc_motion::circular::{circular_interpolate, resolve_orientation, sample_degrees, ArcPlan};
use cnc_motion::geometry::{CircularMotion, LinearMotion, Motion, MotionError, Point2, Point3, Vector3, SCALE};
use cnc_motion::lexer::{parse_field, split_tokens};
use cnc_motion::linear::{linear_interpolate, steps_between};
use cnc_motion::parser::{parse_line, parse_program, LineStep, ParsedLine};
use cnc_motion::trajectory::{discretize, Path};

fn units(v: f64) -> i64 {
    (v * SCALE as f64).round() as i64
}

fn p3(x: f64, y: f64, z: f64) -> Point3 {
    Point3 { x: units(x), y: units(y), z: units(z) }
}

fn fmt3(p: &Point3) -> String {
    let s = SCALE as f64;
    format!("{:.2}, {:.2}, {:.2}", p.x as f64 / s, p.y as f64 / s, p.z as f64 / s)
}

fn arc_points(plan: &ArcPlan) -> Vec<String> {
    let s = SCALE as f64;
    let mut out = Vec::new();
    for d in plan.degrees.iter() {
        let t = (*d as f64).to_radians();
        let x = (plan.center.x as f64 + plan.radius as f64 * t.cos()) / s;
        let y = (plan.center.y as f64 + plan.radius as f64 * t.sin()) / s;
        out.push(format!("{:.2}, {:.2}", x, y));
    }
    out
}

fn arc(cx: f64, cy: f64, r: f64, cw: bool, stop: f64, o: Option<Vector3>) -> CircularMotion {
    CircularMotion {
        center: Point2 { x: units(cx), y: units(cy) },
        radius: units(r),
        clockwise: cw,
        stop_angle: units(stop),
        orientation: o,
    }
}

#[test]
fn test_linear_motion_calculate() {
    let start = p3(0.0, 0.0, 0.0);
    let end = p3(3.0, 4.0, 5.0);
    let positions: Vec<String> = linear_interpolate(start, end).iter().map(fmt3).collect();
    // ceil(max(3, 4, 5)) = 5 steps, both endpoints included
    assert_eq!(positions.len(), 6);
    assert_eq!(positions[0], "0.00, 0.00, 0.00");
    assert_eq!(positions[5], "3.00, 4.00, 5.00");
}

#[test]
fn test_rotational_motion_calculate() {
    let m = arc(0.0, 0.0, 5.0, true, 90.0, None);
    let plan = circular_interpolate(m).unwrap();
    let positions = arc_points(&plan);
    // 0, 5, ..., 90 degrees
    assert_eq!(positions.len(), 19);
    assert_eq!(positions[0], "5.00, 0.00");
    assert_eq!(positions[18], "0.00, 5.00");
}

#[test]
fn lin_line_round_trip() {
    let st = parse_line(b"LIN X3.0 Y4.0 Z0.0", Point3::origin());
    let expected = Motion::Linear(LinearMotion { start: p3(0.0, 0.0, 0.0), end: p3(3.0, 4.0, 0.0) });
    assert_eq!(st.outcome, Ok(ParsedLine { motion: expected, invalid_fields: 0 }));
    assert_eq!(st.cursor, p3(3.0, 4.0, 0.0));
    let pts = linear_interpolate(st.cursor.clone(), st.cursor);
    assert_eq!(pts.len(), 1);
    let pts = linear_interpolate(Point3::origin(), p3(3.0, 4.0, 0.0));
    assert_eq!(pts.len(), 5);
    assert_eq!(fmt3(&pts[4]), "3.00, 4.00, 0.00");
    assert_eq!(pts[4], p3(3.0, 4.0, 0.0));
}

#[test]
fn cw_line_quarter_arc() {
    let st = parse_line(b"CW X0 Y0 R5.0 A90.0", Point3::origin());
    let m = arc(0.0, 0.0, 5.0, true, 90.0, None);
    assert_eq!(st.outcome, Ok(ParsedLine { motion: Motion::Circular(m), invalid_fields: 0 }));
    assert_eq!(st.cursor, Point3::origin());
    let plan = circular_interpolate(m).unwrap();
    assert_eq!(plan.degrees[0], 0);
    assert_eq!(*plan.degrees.last().unwrap(), 90);
    assert_eq!(plan.direction, Vector3 { i: SCALE, j: 0, k: 0 });
    assert!(plan.clockwise);
    let pts = arc_points(&plan);
    assert_eq!(pts[0], "5.00, 0.00");
    assert_eq!(pts[pts.len() - 1], "0.00, 5.00");
}

#[test]
fn short_line_is_skipped() {
    let lines: Vec<Vec<u8>> = vec![
        b"LIN X1 Y1 Z1".to_vec(),
        b"LIN X2".to_vec(),
        b"LIN X3 Y3 Z3".to_vec(),
    ];
    let steps = parse_program(&lines);
    assert_eq!(steps.len(), 3);
    assert_eq!(steps[1], LineStep { outcome: Err(MotionError::MalformedLine), cursor: p3(1.0, 1.0, 1.0) });
    let expected = Motion::Linear(LinearMotion { start: p3(1.0, 1.0, 1.0), end: p3(3.0, 3.0, 3.0) });
    assert_eq!(steps[2].outcome, Ok(ParsedLine { motion: expected, invalid_fields: 0 }));
    assert_eq!(steps[2].cursor, p3(3.0, 3.0, 3.0));
}

#[test]
fn empty_and_blank_lines_are_malformed() {
    let c = p3(1.0, 2.0, 3.0);
    assert_eq!(parse_line(b"", c).outcome, Err(MotionError::MalformedLine));
    assert_eq!(parse_line(b"   \t ", c).outcome, Err(MotionError::MalformedLine));
    assert_eq!(parse_line(b"LIN X1 Y2", c), LineStep { outcome: Err(MotionError::MalformedLine), cursor: c });
}

#[test]
fn unknown_keyword_is_malformed() {
    let c = p3(1.0, 2.0, 3.0);
    let st = parse_line(b"FOO X1 Y2 Z3", c);
    assert_eq!(st, LineStep { outcome: Err(MotionError::MalformedLine), cursor: c });
    let st = parse_line(b"lin X1 Y2 Z3", c);
    assert_eq!(st.outcome, Err(MotionError::MalformedLine));
}

#[test]
fn unreadable_field_counts_as_zero() {
    let st = parse_line(b"LIN Xabc Y2 Z3.5", p3(1.0, 1.0, 1.0));
    let expected = Motion::Linear(LinearMotion { start: p3(1.0, 1.0, 1.0), end: p3(0.0, 2.0, 3.5) });
    assert_eq!(st.outcome, Ok(ParsedLine { motion: expected, invalid_fields: 1 }));
    assert_eq!(st.cursor, p3(0.0, 2.0, 3.5));
}

#[test]
fn arc_line_with_orientation() {
    let st = parse_line(b"CCW X1 Y-2 R3 I0 J2 A45", p3(7.0, 7.0, 7.0));
    let o = Some(Vector3 { i: 0, j: units(2.0), k: 0 });
    let m = arc(1.0, -2.0, 3.0, false, 45.0, o);
    assert_eq!(st.outcome, Ok(ParsedLine { motion: Motion::Circular(m), invalid_fields: 0 }));
    assert_eq!(st.cursor, p3(7.0, 7.0, 7.0));
    let plan = circular_interpolate(m).unwrap();
    assert_eq!(plan.direction, Vector3 { i: 0, j: SCALE, k: 0 });
    assert_eq!(plan.degrees, vec![0, 5, 10, 15, 20, 25, 30, 35, 40, 45]);
}

#[test]
fn arc_line_with_orientation_needs_seven_tokens() {
    let st = parse_line(b"CW X0 Y0 R1 I1 J0", Point3::origin());
    assert_eq!(st.outcome, Err(MotionError::MalformedLine));
    let st = parse_line(b"CW X0 Y0 R1", Point3::origin());
    assert_eq!(st.outcome, Err(MotionError::MalformedLine));
}

#[test]
fn arc_line_with_bad_radius_is_rejected() {
    let c = p3(1.0, 1.0, 1.0);
    assert_eq!(parse_line(b"CW X0 Y0 R0 A90", c), LineStep { outcome: Err(MotionError::InvalidRadius), cursor: c });
    assert_eq!(parse_line(b"CCW X0 Y0 R-2.5 A90", c).outcome, Err(MotionError::InvalidRadius));
    assert_eq!(parse_line(b"CCW X0 Y0 Rx A90", c).outcome, Err(MotionError::InvalidRadius));
}

#[test]
fn non_positive_radius_gives_no_samples() {
    assert!(matches!(circular_interpolate(arc(0.0, 0.0, 0.0, true, 90.0, None)), Err(MotionError::InvalidRadius)));
    assert!(matches!(circular_interpolate(arc(0.0, 0.0, -1.0, false, 90.0, None)), Err(MotionError::InvalidRadius)));
    assert!(matches!(discretize(Motion::Circular(arc(0.0, 0.0, -1.0, false, 90.0, None))), Err(MotionError::InvalidRadius)));
}

#[test]
fn samples_stop_at_last_multiple_of_five() {
    assert_eq!(sample_degrees(units(92.5)), (0..=18).map(|k| 5 * k).collect::<Vec<i64>>());
    assert_eq!(sample_degrees(units(4.999999)), vec![0]);
    assert_eq!(sample_degrees(units(5.0)), vec![0, 5]);
    assert_eq!(sample_degrees(0), vec![0]);
    assert_eq!(sample_degrees(units(-30.0)), vec![0]);
    assert_eq!(sample_degrees(units(360.0)).len(), 73);
}

#[test]
fn arc_samples_lie_on_the_circle() {
    let plan = circular_interpolate(arc(2.0, -1.0, 3.0, true, 270.0, None)).unwrap();
    let s = SCALE as f64;
    for d in plan.degrees.iter() {
        let t = (*d as f64).to_radians();
        let x = plan.center.x as f64 / s + plan.radius as f64 / s * t.cos();
        let y = plan.center.y as f64 / s + plan.radius as f64 / s * t.sin();
        let dist = ((x - 2.0).powi(2) + (y + 1.0).powi(2)).sqrt();
        assert!((dist - 3.0).abs() < 1e-9);
    }
}

#[test]
fn orientation_is_normalized() {
    assert_eq!(resolve_orientation(Some(Vector3 { i: units(3.0), j: units(4.0), k: 0 })), Vector3 { i: 600_000, j: 800_000, k: 0 });
    assert_eq!(resolve_orientation(Some(Vector3 { i: 0, j: 0, k: units(-0.25) })), Vector3 { i: 0, j: 0, k: -SCALE });
    let v = resolve_orientation(Some(Vector3 { i: 1, j: 1, k: 1 }));
    assert_eq!(v, Vector3 { i: 577_350, j: 577_350, k: 577_350 });
    let mag = ((v.i as f64).powi(2) + (v.j as f64).powi(2) + (v.k as f64).powi(2)).sqrt() / SCALE as f64;
    assert!((mag - 1.0).abs() < 1e-5);
}

#[test]
fn zero_or_absent_orientation_gives_default_axis() {
    assert_eq!(resolve_orientation(Some(Vector3 { i: 0, j: 0, k: 0 })), Vector3 { i: SCALE, j: 0, k: 0 });
    assert_eq!(resolve_orientation(None), Vector3 { i: SCALE, j: 0, k: 0 });
}

#[test]
fn linear_path_is_parametrized() {
    let start = p3(0.0, 0.0, 0.0);
    let end = p3(-2.5, 1.0, 0.0);
    assert_eq!(steps_between(start, end), 3);
    let pts = linear_interpolate(start, end);
    assert_eq!(pts.len(), 4);
    assert_eq!(pts[0], start);
    assert_eq!(pts[1], Point3 { x: -833_333, y: 333_333, z: 0 });
    assert_eq!(pts[2], Point3 { x: -1_666_666, y: 666_666, z: 0 });
    assert_eq!(pts[3], end);
}

#[test]
fn short_segment_has_one_step() {
    let start = p3(1.0, 1.0, 1.0);
    let end = p3(1.0, 1.0, 1.25);
    assert_eq!(steps_between(start, end), 1);
    assert_eq!(linear_interpolate(start, end), vec![start, end]);
}

#[test]
fn zero_length_segment_has_one_point() {
    let p = p3(-4.0, 2.5, 9.0);
    assert_eq!(linear_interpolate(p, p), vec![p]);
    assert_eq!(steps_between(p, p), 1);
}

#[test]
fn fields_are_read_in_millionths() {
    assert_eq!(parse_field(b"X3.25"), Some(3_250_000));
    assert_eq!(parse_field(b"Y-0.5"), Some(-500_000));
    assert_eq!(parse_field(b"Z+7"), Some(7_000_000));
    assert_eq!(parse_field(b"A.5"), Some(500_000));
    assert_eq!(parse_field(b"A5."), Some(5_000_000));
    assert_eq!(parse_field(b"X0.000001"), Some(1));
    assert_eq!(parse_field(b"X1000000"), Some(1_000_000_000_000));
    assert_eq!(parse_field(b"X-1000000.000000"), Some(-1_000_000_000_000));
}

#[test]
fn malformed_fields_are_refused() {
    assert_eq!(parse_field(b""), None);
    assert_eq!(parse_field(b"X"), None);
    assert_eq!(parse_field(b"X."), None);
    assert_eq!(parse_field(b"X-"), None);
    assert_eq!(parse_field(b"Xabc"), None);
    assert_eq!(parse_field(b"X1e3"), None);
    assert_eq!(parse_field(b"X1.2.3"), None);
    assert_eq!(parse_field(b"X1.1234567"), None);
    assert_eq!(parse_field(b"X1000000.5"), None);
    assert_eq!(parse_field(b"X99999999999999999999"), None);
}

#[test]
fn tokens_split_on_any_ascii_whitespace() {
    let t = split_tokens(b"  LIN\tX1  Y2\r\nZ3 ");
    assert_eq!(t, vec![b"LIN".to_vec(), b"X1".to_vec(), b"Y2".to_vec(), b"Z3".to_vec()]);
    assert!(split_tokens(b" \t ").is_empty());
}

#[test]
fn motions_go_to_their_interpolator() {
    let m = Motion::new_linear(p3(0.0, 0.0, 0.0), p3(0.0, 0.0, 2.0));
    match discretize(m) {
        Ok(Path::Linear(pts)) => assert_eq!(pts, vec![p3(0.0, 0.0, 0.0), p3(0.0, 0.0, 1.0), p3(0.0, 0.0, 2.0)]),
        _ => panic!("expected a linear path"),
    }
    let m = Motion::new_circular(Point2 { x: 0, y: 0 }, units(1.0), false, units(10.0), None);
    match discretize(m) {
        Ok(Path::Arc(plan)) => assert_eq!(plan.degrees, vec![0, 5, 10]),
        _ => panic!("expected an arc"),
    }
}
