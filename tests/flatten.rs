use svg::node::element::path::Position;
use svg_flatten::bezier::{cubic_bezier, quadratic_bezier};
use svg_flatten::drawing::{Drawing, StopPolicy};
use svg_flatten::error::PathError;
use svg_flatten::interp::{process_command, resolve, Command, Outcome};
use svg_flatten::output_lines::{render, render_point, OutputLines};
use svg_flatten::transform::{Transform, TransformStack};
use svg_flatten::vec2::Vec2;

fn v(x: i64, y: i64) -> Vec2 {
    Vec2 { x, y }
}

fn coords(line: &Vec<(Vec2, Transform)>) -> Vec<(i64, i64)> {
    line.iter().map(|(p, _)| (p.x, p.y)).collect()
}

fn rendered(d: &Drawing) -> Vec<Vec<(i64, i64)>> {
    render(&d.out)
        .unwrap()
        .iter()
        .map(|l| l.iter().map(|p| (p.x, p.y)).collect())
        .collect()
}

fn non_empty(d: &Drawing) -> Vec<Vec<(Vec2, Transform)>> {
    d.out.lines.iter().filter(|l| !l.is_empty()).cloned().collect()
}

#[test]
fn curve_ends_are_exact() {
    let (s, a, b, e) = (v(-7, 3), v(40, -9), v(13, 22), v(5, 101));
    assert_eq!(quadratic_bezier(0, s, a, e), s);
    assert_eq!(quadratic_bezier(10, s, a, e), e);
    assert_eq!(cubic_bezier(0, s, a, b, e), s);
    assert_eq!(cubic_bezier(10, s, a, b, e), e);
}

#[test]
fn curve_ends_at_coordinate_limits() {
    let (s, a, e) = (v(i64::MIN, i64::MAX), v(i64::MAX, i64::MIN), v(i64::MAX, i64::MAX));
    assert_eq!(quadratic_bezier(0, s, a, e), s);
    assert_eq!(quadratic_bezier(10, s, a, e), e);
    assert_eq!(cubic_bezier(10, s, a, a, e), e);
    let mid = quadratic_bezier(5, v(i64::MAX, i64::MAX), v(i64::MAX, i64::MAX), v(i64::MAX, i64::MAX));
    assert_eq!(mid, v(i64::MAX, i64::MAX));
}

#[test]
fn collinear_controls_give_collinear_samples() {
    let (s, c, e) = (v(0, 0), v(100, 200), v(300, 600));
    for step in 0..=10u8 {
        let p = quadratic_bezier(step, s, c, e);
        assert_eq!((e.x - s.x) * (p.y - s.y) - (e.y - s.y) * (p.x - s.x), 0);
    }
    let (a, b) = (v(1000, 2000), v(2000, 4000));
    let e2 = v(3000, 6000);
    for step in 0..=10u8 {
        let p = cubic_bezier(step, s, a, b, e2);
        assert_eq!((e2.x - s.x) * (p.y - s.y) - (e2.y - s.y) * (p.x - s.x), 0);
    }
}

#[test]
fn quadratic_formula_values() {
    assert_eq!(quadratic_bezier(5, v(0, 0), v(5, 10), v(10, 0)), v(5, 5));
    // 0.81 * 0 + 0.18 * 100 + 0.01 * 200 = 20
    assert_eq!(quadratic_bezier(1, v(0, 0), v(100, 100), v(200, 0)), v(20, 18));
    // -0.5 rounds down to -1
    assert_eq!(quadratic_bezier(5, v(0, 0), v(-1, 1), v(0, 0)), v(-1, 0));
}

#[test]
fn cubic_formula_values() {
    // t = 0.5: 0.125 start + 0.375 control_a + 0.375 control_b + 0.125 end
    assert_eq!(cubic_bezier(5, v(0, 0), v(0, 10), v(10, 10), v(10, 0)), v(5, 7));
    assert_eq!(cubic_bezier(5, v(0, 0), v(0, 80), v(80, 80), v(80, 0)), v(40, 60));
}

#[test]
fn pairs_from_params() {
    assert_eq!(Vec2::many_from_params(&vec![1, 2, 3, 4]), Ok(vec![v(1, 2), v(3, 4)]));
    assert_eq!(Vec2::many_from_params(&vec![]), Ok(vec![]));
    assert_eq!(Vec2::many_from_params(&vec![1, 2, 3]), Err(PathError::MalformedParameters));
    assert_eq!(Vec2::one_from_params(&vec![7, -8]), Ok(v(7, -8)));
    assert_eq!(Vec2::one_from_params(&vec![7, -8, 1, 1]), Err(PathError::MalformedParameters));
    assert_eq!(Vec2::splat(3), v(3, 3));
}

#[test]
fn add_assign_and_checked_add() {
    let mut p = v(1, 2);
    p.add_assign(v(10, -20));
    assert_eq!(p, v(11, -18));
    assert_eq!(v(i64::MAX, 0).checked_add(v(1, 0)), None);
    assert_eq!(resolve(Position::Relative, v(1, 1), v(2, 3)), Some(v(3, 4)));
    assert_eq!(resolve(Position::Absolute, v(1, 1), v(2, 3)), Some(v(2, 3)));
}

#[test]
fn close_repeats_first_point() {
    let mut d = Drawing::new();
    let cmds = vec![
        Command::Move(Position::Absolute, vec![1, 2]),
        Command::Line(Position::Absolute, vec![5, 2, 5, 9]),
        Command::Close,
    ];
    assert_eq!(d.add_path(&cmds), Ok(Outcome::Continue));
    let line = &d.out.lines[0];
    assert_eq!(line.first().unwrap(), line.last().unwrap());
    assert_eq!(coords(line), vec![(1, 2), (5, 2), (5, 9), (1, 2)]);
    assert!(d.out.lines.last().unwrap().is_empty());
}

#[test]
fn zero_offset_only_flips_y() {
    let mut d = Drawing::new();
    d.enter_group(Transform::Translate(v(4, -4))).unwrap();
    d.enter_group(Transform::Translate(v(-4, 4))).unwrap();
    assert_eq!(d.transforms.combine(), Transform::Identity);
    let cmds = vec![Command::Move(Position::Absolute, vec![3, 7, 8, -2])];
    d.add_path(&cmds).unwrap();
    assert_eq!(rendered(&d), vec![vec![(3, -7), (8, 2)]]);
}

#[test]
fn nested_translates_add_up() {
    let mut d = Drawing::new();
    d.enter_group(Transform::Translate(v(10, 0))).unwrap();
    d.enter_group(Transform::Translate(v(2, 3))).unwrap();
    assert_eq!(d.transforms.combine(), Transform::Translate(v(12, 3)));
    let cmds = vec![Command::Move(Position::Absolute, vec![1, 1, 2, 2])];
    d.add_path(&cmds).unwrap();
    assert_eq!(d.out.lines[0][0].1, Transform::Translate(v(12, 3)));
    assert_eq!(rendered(&d), vec![vec![(13, -4), (14, -5)]]);
    d.leave_group().unwrap();
    assert_eq!(d.transforms.combine(), Transform::Translate(v(10, 0)));
    assert_eq!(d.transforms.depth(), 1);
}

#[test]
fn square_end_to_end() {
    let mut d = Drawing::new();
    let cmds = vec![
        Command::Move(Position::Absolute, vec![0, 0]),
        Command::Line(Position::Absolute, vec![10, 0]),
        Command::Line(Position::Absolute, vec![10, 10]),
        Command::Close,
    ];
    assert_eq!(d.add_path(&cmds), Ok(Outcome::Continue));
    let lines = non_empty(&d);
    assert_eq!(lines.len(), 1);
    // each line command records its start point too, so (10,0) comes twice
    assert_eq!(coords(&lines[0]), vec![(0, 0), (10, 0), (10, 0), (10, 10), (0, 0)]);
    let mut distinct = coords(&lines[0]);
    distinct.dedup();
    assert_eq!(distinct, vec![(0, 0), (10, 0), (10, 10), (0, 0)]);
    let mut out: Vec<Vec<(i64, i64)>> = rendered(&d).into_iter().filter(|l| !l.is_empty()).collect();
    out[0].dedup();
    assert_eq!(out, vec![vec![(0, 0), (10, 0), (10, -10), (0, 0)]]);
}

#[test]
fn quadratic_end_to_end() {
    let mut d = Drawing::new();
    let cmds = vec![
        Command::Move(Position::Absolute, vec![0, 0]),
        Command::QuadraticCurve(Position::Absolute, vec![5, 10, 10, 0]),
    ];
    assert_eq!(d.add_path(&cmds), Ok(Outcome::Continue));
    let line = &d.out.lines[0];
    assert_eq!(line.len(), 11);
    assert_eq!(line[5].0, v(5, 5));
    assert_eq!(line[0].0, v(0, 0));
    assert_eq!(line[10].0, v(10, 0));
    assert_eq!(rendered(&d)[0][5], (5, -5));
}

#[test]
fn unsupported_keeps_finished_subpaths() {
    let mut d = Drawing::new();
    let first = vec![
        Command::Move(Position::Absolute, vec![0, 0]),
        Command::Line(Position::Absolute, vec![1, 0]),
        Command::Close,
    ];
    let second = vec![
        Command::Move(Position::Absolute, vec![5, 5]),
        Command::Line(Position::Absolute, vec![6, 5]),
        Command::Close,
        Command::Unsupported,
        Command::Line(Position::Absolute, vec![100, 100]),
    ];
    assert_eq!(d.add_path(&first), Ok(Outcome::Continue));
    assert_eq!(d.add_path(&second), Ok(Outcome::StopDrawing));
    let third = vec![Command::Move(Position::Absolute, vec![9, 9, 10, 10])];
    assert_eq!(d.add_path(&third), Ok(Outcome::StopDrawing));
    let lines = non_empty(&d);
    assert_eq!(lines.len(), 2);
    assert_eq!(coords(&lines[0]), vec![(0, 0), (1, 0), (0, 0)]);
    assert_eq!(coords(&lines[1]), vec![(5, 5), (6, 5), (5, 5)]);
}

#[test]
fn relative_lines_and_axis_lines() {
    let mut d = Drawing::new();
    let cmds = vec![
        Command::Move(Position::Relative, vec![2, 3, 1, 1]),
        Command::HorizontalLine(Position::Relative, vec![4]),
        Command::VerticalLine(Position::Absolute, vec![-6]),
        Command::HorizontalLine(Position::Absolute, vec![0]),
        Command::VerticalLine(Position::Relative, vec![2]),
    ];
    d.add_path(&cmds).unwrap();
    assert_eq!(
        coords(&d.out.lines[0]),
        vec![(2, 3), (3, 4), (3, 4), (7, 4), (7, 4), (7, -6), (7, -6), (0, -6), (0, -6), (0, -4)]
    );
}

#[test]
fn relative_curves_chain_from_segment_start() {
    let mut d = Drawing::new();
    let cmds = vec![
        Command::Move(Position::Absolute, vec![10, 10]),
        Command::QuadraticCurve(Position::Relative, vec![0, 10, 10, 10, 0, 10, 10, 10]),
        Command::CubicCurve(Position::Relative, vec![0, 0, 0, 0, 5, 5]),
    ];
    d.add_path(&cmds).unwrap();
    let line = &d.out.lines[0];
    assert_eq!(line.len(), 33);
    assert_eq!(line[10].0, v(20, 20));
    assert_eq!(line[11].0, v(20, 20));
    assert_eq!(line[21].0, v(30, 30));
    assert_eq!(line[32].0, v(35, 35));
}

#[test]
fn malformed_parameters_are_fatal() {
    let mut d = Drawing::new();
    let odd = vec![Command::Move(Position::Absolute, vec![0, 0]), Command::Line(Position::Absolute, vec![1, 2, 3])];
    assert_eq!(d.add_path(&odd), Err(PathError::MalformedParameters));
    let mut d = Drawing::new();
    let curve = vec![Command::QuadraticCurve(Position::Absolute, vec![1, 2, 3, 4, 5, 6])];
    assert_eq!(d.add_path(&curve), Err(PathError::MalformedParameters));
    let mut d = Drawing::new();
    let cubic = vec![Command::CubicCurve(Position::Absolute, vec![1, 2, 3, 4])];
    assert_eq!(d.add_path(&cubic), Err(PathError::MalformedParameters));
    let mut d = Drawing::new();
    let empty_move = vec![Command::Move(Position::Absolute, vec![])];
    assert_eq!(d.add_path(&empty_move), Err(PathError::MalformedParameters));
    let mut d = Drawing::new();
    let h = vec![Command::HorizontalLine(Position::Absolute, vec![])];
    assert_eq!(d.add_path(&h), Err(PathError::MalformedParameters));
}

#[test]
fn leaving_the_document_is_underflow() {
    let mut d = Drawing::new();
    assert_eq!(d.leave_group(), Err(PathError::StackUnderflow));
    let mut s = TransformStack::new();
    assert_eq!(s.pop(), Err(PathError::StackUnderflow));
    s.push(Transform::Identity).unwrap();
    assert_eq!(s.pop(), Ok(Transform::Identity));
}

#[test]
fn transform_change_across_close_is_fatal() {
    let mut out = OutputLines::new();
    out.new_line();
    out.add_point(v(1, 1), Transform::Identity);
    let mut cpos = v(1, 1);
    let r = process_command(&Command::Close, false, &mut cpos, &mut out, Transform::Translate(v(1, 0)));
    assert_eq!(r, Err(PathError::TransformMismatch));
}

#[test]
fn overflow_is_reported() {
    let mut d = Drawing::new();
    let cmds = vec![
        Command::Move(Position::Absolute, vec![i64::MAX, 0]),
        Command::Line(Position::Relative, vec![1, 0]),
    ];
    assert_eq!(d.add_path(&cmds), Err(PathError::Overflow));
    let mut s = TransformStack::new();
    s.push(Transform::Translate(v(i64::MAX, 0))).unwrap();
    assert_eq!(s.push(Transform::Translate(v(1, 0))), Err(PathError::Overflow));
    assert_eq!(render_point((v(0, i64::MIN), Transform::Identity)), Err(PathError::Overflow));
    assert_eq!(render_point((v(1, 2), Transform::Translate(v(3, 4)))), Ok(v(4, -6)));
}

#[test]
fn output_lines_accessors() {
    let mut out = OutputLines::new();
    out.new_line();
    assert_eq!(out.first_point(), None);
    assert_eq!(out.last_point(), None);
    out.add_point(v(1, 2), Transform::Identity);
    out.add_point(v(3, 4), Transform::Identity);
    assert_eq!(out.first_point(), Some((v(1, 2), Transform::Identity)));
    assert_eq!(out.last_point(), Some((v(3, 4), Transform::Identity)));
}

#[test]
fn path_policy_stops_only_the_path() {
    let mut d = Drawing::with_policy(StopPolicy::CurrentPath);
    let first = vec![Command::Move(Position::Absolute, vec![0, 0]), Command::Unsupported, Command::Line(Position::Absolute, vec![5, 5])];
    assert_eq!(d.add_path(&first), Ok(Outcome::StopDrawing));
    assert!(!d.stopped);
    let second = vec![Command::Move(Position::Absolute, vec![1, 1, 2, 2])];
    assert_eq!(d.add_path(&second), Ok(Outcome::Continue));
    assert_eq!(coords(&d.out.lines[0]), vec![(1, 1), (2, 2)]);
}

#[test]
fn componentwise_operations() {
    assert_eq!(v(7, -7).checked_sub(v(2, 3)), Some(v(5, -10)));
    assert_eq!(v(i64::MIN, 0).checked_sub(v(1, 0)), None);
    assert_eq!(v(3, -4).checked_mul(v(5, 6)), Some(v(15, -24)));
    assert_eq!(v(i64::MAX, 1).checked_mul(v(2, 1)), None);
    assert_eq!(v(7, -7).checked_div(v(2, 2)), Some(v(3, -3)));
    assert_eq!(v(7, -7).checked_div(v(0, 2)), None);
    assert_eq!(v(i64::MIN, 1).checked_div(v(-1, 1)), None);
    assert_eq!(v(7, -7).checked_rem(v(2, -3)), Some(v(1, -1)));
    assert_eq!(v(7, 7).checked_rem(v(2, 0)), None);
    assert_eq!(v(1, 2).add_scalar(10), Some(v(11, 12)));
    assert_eq!(v(1, 2).sub_scalar(10), Some(v(-9, -8)));
    assert_eq!(v(1, 2).mul_scalar(-3), Some(v(-3, -6)));
    assert_eq!(v(9, -9).div_scalar(4), Some(v(2, -2)));
    assert_eq!(v(9, -9).rem_scalar(4), Some(v(1, -1)));
    assert_eq!(v(9, -9).div_scalar(0), None);
}

#[test]
fn group_offset_out_of_range_is_refused() {
    let mut d = Drawing::new();
    d.enter_group(Transform::Translate(v(i64::MAX, 0))).unwrap();
    assert_eq!(d.enter_group(Transform::Translate(v(1, 0))), Err(PathError::Overflow));
    assert_eq!(d.transforms.depth(), 1);
    assert_eq!(d.enter_group(Transform::Identity), Ok(()));
    assert_eq!(d.transforms.depth(), 2);
}

#[test]
fn mismatched_close_leaves_state() {
    let mut out = OutputLines::new();
    out.new_line();
    out.add_point(v(1, 1), Transform::Identity);
    out.add_point(v(4, 1), Transform::Identity);
    let mut cpos = v(4, 1);
    let r = process_command(&Command::Close, false, &mut cpos, &mut out, Transform::Translate(v(0, 2)));
    assert_eq!(r, Err(PathError::TransformMismatch));
    assert_eq!(cpos, v(4, 1));
    assert_eq!(out.lines.len(), 1);
    assert_eq!(coords(&out.lines[0]), vec![(1, 1), (4, 1)]);
}
