use vstd::prelude::*;

use svg::node::element::path::Position;

use crate::bezier::{cubic_bezier, cubic_point, quad_point, quadratic_bezier, STEPS};
use crate::error::PathError;
use crate::output_lines::{OutputLines, Recorded};
use crate::transform::Transform;
use crate::vec2::{pairs_of, Vec2};

verus! {

/// svg's `Position` (`Absolute` or `Relative`), carried by commands as the
/// parser hands it out; Verus reads its two unit variants directly.
#[verifier::external_type_specification]
pub struct ExPosition(Position);

/// One decoded path command; coordinates come as a flat list
/// `x0, y0, x1, y1, ...` (a single value for the horizontal and vertical lines).
#[derive(Debug)]
pub enum Command {
    Move(Position, Vec<i64>),
    Line(Position, Vec<i64>),
    HorizontalLine(Position, Vec<i64>),
    VerticalLine(Position, Vec<i64>),
    Close,
    QuadraticCurve(Position, Vec<i64>),
    CubicCurve(Position, Vec<i64>),
    Unsupported,
}

/// What the caller does after a command: go on, or stop (an unsupported
/// command was met).
#[derive(Debug, Clone, Copy, PartialEq, Eq, Structural)]
pub enum Outcome {
    Continue,
    StopDrawing,
}

/// The pen position after moving by `by` from `cur`: an offset under
/// `Relative`, a replacement under `Absolute`; `None` on overflow.
pub open spec fn moved(pos: Position, cur: Vec2, by: Vec2) -> Option<Vec2> {
    match pos {
        Position::Absolute => Some(by),
        Position::Relative => if cur.sum_fits(by) {
            Some(cur.plus(by))
        } else {
            None
        },
    }
}

/// The last of `w`, or `cur` when `w` is empty.
pub open spec fn last_or(cur: Vec2, w: Seq<Vec2>) -> Vec2 {
    if w.len() == 0 {
        cur
    } else {
        w.last()
    }
}

/// The pen positions after each of the moves `ps`, starting from `cur`.
pub open spec fn walk(pos: Position, cur: Vec2, ps: Seq<Vec2>) -> Option<Seq<Vec2>>
    decreases ps.len(),
{
    if ps.len() == 0 {
        Some(Seq::empty())
    } else {
        match walk(pos, cur, ps.drop_last()) {
            None => None,
            Some(w) => match moved(pos, last_or(cur, w), ps.last()) {
                None => None,
                Some(q) => Some(w.push(q)),
            },
        }
    }
}

/// Points tagged with one transform.
pub open spec fn tagged(w: Seq<Vec2>, tr: Transform) -> Seq<Recorded> {
    w.map_values(|p: Vec2| (p, tr))
}

/// What a run of line moves records: nothing when there are no moves, else
/// the starting position followed by each position reached.
pub open spec fn line_record(cur: Vec2, w: Seq<Vec2>, tr: Transform) -> Seq<Recorded> {
    if w.len() == 0 {
        Seq::empty()
    } else {
        seq![(cur, tr)] + tagged(w, tr)
    }
}

/// `lines` with `rs` appended to its open (last) subpath.
pub open spec fn append_current(lines: Seq<Seq<Recorded>>, rs: Seq<Recorded>) -> Seq<Seq<Recorded>> {
    lines.update(lines.len() - 1, lines.last() + rs)
}

/// The eleven samples of one quadratic segment.
pub open spec fn quad_samples(s: Vec2, c: Vec2, e: Vec2) -> Seq<Vec2> {
    Seq::new(11, |i: int| quad_point(i, s, c, e))
}

/// The eleven samples of one cubic segment.
pub open spec fn cubic_samples(s: Vec2, a: Vec2, b: Vec2, e: Vec2) -> Seq<Vec2> {
    Seq::new(11, |i: int| cubic_point(i, s, a, b, e))
}

/// The end point and samples of the first `k` segments of a chained
/// quadratic curve from `cur`, two points per segment in `pts`.
pub open spec fn quad_chain(pos: Position, cur: Vec2, pts: Seq<Vec2>, k: nat) -> Option<
    (Vec2, Seq<Vec2>),
>
    decreases k,
{
    if k == 0 {
        Some((cur, Seq::empty()))
    } else {
        match quad_chain(pos, cur, pts, (k - 1) as nat) {
            None => None,
            Some((s, smp)) => match (
                moved(pos, s, pts[2 * (k - 1)]),
                moved(pos, s, pts[2 * (k - 1) + 1]),
            ) {
                (Some(c), Some(e)) => Some((e, smp + quad_samples(s, c, e))),
                _ => None,
            },
        }
    }
}

/// The end point and samples of the first `k` segments of a chained cubic
/// curve from `cur`, three points per segment in `pts`.
pub open spec fn cubic_chain(pos: Position, cur: Vec2, pts: Seq<Vec2>, k: nat) -> Option<
    (Vec2, Seq<Vec2>),
>
    decreases k,
{
    if k == 0 {
        Some((cur, Seq::empty()))
    } else {
        match cubic_chain(pos, cur, pts, (k - 1) as nat) {
            None => None,
            Some((s, smp)) => match (
                moved(pos, s, pts[3 * (k - 1)]),
                moved(pos, s, pts[3 * (k - 1) + 1]),
                moved(pos, s, pts[3 * (k - 1) + 2]),
            ) {
                (Some(a), Some(b), Some(e)) => Some((e, smp + cubic_samples(s, a, b, e))),
                _ => None,
            },
        }
    }
}

/// The effect of a run of line moves: the new pen position and subpaths.
pub open spec fn after_line(
    pos: Position,
    cur: Vec2,
    pts: Seq<Vec2>,
    lines: Seq<Seq<Recorded>>,
    tr: Transform,
) -> Result<(Vec2, Seq<Seq<Recorded>>), PathError> {
    match walk(pos, cur, pts) {
        None => Err(PathError::Overflow),
        Some(w) => Ok((last_or(cur, w), append_current(lines, line_record(cur, w, tr)))),
    }
}

pub open spec fn go_on(
    r: Result<(Vec2, Seq<Seq<Recorded>>), PathError>,
) -> Result<(Outcome, Vec2, Seq<Seq<Recorded>>), PathError> {
    match r {
        Err(e) => Err(e),
        Ok((c, l)) => Ok((Outcome::Continue, c, l)),
    }
}

/// The effect of one command, given whether it is the first of its path, the
/// pen position, the subpaths so far and the transform in effect: the
/// outcome, the new pen position and the new subpaths, or the fatal error.
pub open spec fn command_effect(
    cmd: Command,
    first: bool,
    cur: Vec2,
    lines: Seq<Seq<Recorded>>,
    tr: Transform,
) -> Result<(Outcome, Vec2, Seq<Seq<Recorded>>), PathError> {
    match cmd {
        Command::Move(pos, ps) => if ps@.len() % 2 != 0 || ps@.len() == 0 {
            Err(PathError::MalformedParameters)
        } else {
            let pts = pairs_of(ps@);
            match moved(if first { Position::Absolute } else { pos }, cur, pts[0]) {
                None => Err(PathError::Overflow),
                Some(c) => go_on(after_line(pos, c, pts.drop_first(), lines, tr)),
            }
        },
        Command::Line(pos, ps) => if ps@.len() % 2 != 0 {
            Err(PathError::MalformedParameters)
        } else {
            go_on(after_line(pos, cur, pairs_of(ps@), lines, tr))
        },
        Command::HorizontalLine(pos, ps) => if ps@.len() == 0 {
            Err(PathError::MalformedParameters)
        } else {
            let y = match pos {
                Position::Relative => 0,
                Position::Absolute => cur.y,
            };
            go_on(after_line(pos, cur, seq![Vec2 { x: ps@[0], y }], lines, tr))
        },
        Command::VerticalLine(pos, ps) => if ps@.len() == 0 {
            Err(PathError::MalformedParameters)
        } else {
            let x = match pos {
                Position::Relative => 0,
                Position::Absolute => cur.x,
            };
            go_on(after_line(pos, cur, seq![Vec2 { x, y: ps@[0] }], lines, tr))
        },
        Command::Close => {
            let open = lines.last();
            if open.len() == 0 {
                Ok((Outcome::Continue, cur, lines.push(Seq::empty())))
            } else if open[0].1 != tr {
                Err(PathError::TransformMismatch)
            } else {
                Ok(
                    (
                        Outcome::Continue,
                        open[0].0,
                        lines.update(lines.len() - 1, open.push(open[0])).push(Seq::empty()),
                    ),
                )
            }
        },
        Command::QuadraticCurve(pos, ps) => if ps@.len() % 4 != 0 {
            Err(PathError::MalformedParameters)
        } else {
            match quad_chain(pos, cur, pairs_of(ps@), (ps@.len() / 4) as nat) {
                None => Err(PathError::Overflow),
                Some((e, smp)) => Ok((Outcome::Continue, e, append_current(lines, tagged(smp, tr)))),
            }
        },
        Command::CubicCurve(pos, ps) => if ps@.len() % 6 != 0 {
            Err(PathError::MalformedParameters)
        } else {
            match cubic_chain(pos, cur, pairs_of(ps@), (ps@.len() / 6) as nat) {
                None => Err(PathError::Overflow),
                Some((e, smp)) => Ok((Outcome::Continue, e, append_current(lines, tagged(smp, tr)))),
            }
        },
        Command::Unsupported => Ok((Outcome::StopDrawing, cur, lines)),
    }
}

/// The pen position after moving by `by` from `cur`, as `moved` says.
pub fn resolve(pos: Position, cur: Vec2, by: Vec2) -> (r: Option<Vec2>)
    ensures
        r == moved(pos, cur, by),
{
    match pos {
        Position::Absolute => Some(by),
        Position::Relative => cur.checked_add(by),
    }
}

proof fn lemma_append_push(lines: Seq<Seq<Recorded>>, rs: Seq<Recorded>, x: Recorded)
    requires
        lines.len() > 0,
    ensures
        append_current(append_current(lines, rs), seq![x]) == append_current(lines, rs.push(x)),
        append_current(lines, rs).len() == lines.len(),
{
    assert(append_current(lines, rs).last() == lines.last() + rs);
    assert(lines.last() + rs + seq![x] =~= lines.last() + rs.push(x));
    assert(append_current(append_current(lines, rs), seq![x]) =~= append_current(lines, rs.push(x)));
}

proof fn lemma_append_empty(lines: Seq<Seq<Recorded>>)
    requires
        lines.len() > 0,
    ensures
        append_current(lines, Seq::empty()) == lines,
{
    assert(lines.last() + Seq::<Recorded>::empty() =~= lines.last());
    assert(append_current(lines, Seq::empty()) =~= lines);
}

proof fn lemma_walk_stops(pos: Position, cur: Vec2, ps: Seq<Vec2>, i: int)
    requires
        0 <= i <= ps.len(),
        walk(pos, cur, ps.take(i)) is None,
    ensures
        walk(pos, cur, ps) is None,
    decreases ps.len() - i,
{
    if i < ps.len() {
        assert(ps.take(i + 1).drop_last() =~= ps.take(i));
        lemma_walk_stops(pos, cur, ps, i + 1);
    } else {
        assert(ps.take(i) =~= ps);
    }
}

proof fn lemma_quad_chain_stops(pos: Position, cur: Vec2, pts: Seq<Vec2>, k: nat, n: nat)
    requires
        k <= n,
        quad_chain(pos, cur, pts, k) is None,
    ensures
        quad_chain(pos, cur, pts, n) is None,
    decreases n - k,
{
    if k < n {
        lemma_quad_chain_stops(pos, cur, pts, k + 1, n);
    }
}

proof fn lemma_cubic_chain_stops(pos: Position, cur: Vec2, pts: Seq<Vec2>, k: nat, n: nat)
    requires
        k <= n,
        cubic_chain(pos, cur, pts, k) is None,
    ensures
        cubic_chain(pos, cur, pts, n) is None,
    decreases n - k,
{
    if k < n {
        lemma_cubic_chain_stops(pos, cur, pts, k + 1, n);
    }
}

/// Records a point on the open subpath, in the terms of `append_current`.
fn record(out: &mut OutputLines, p: Vec2, tr: Transform, Ghost(base): Ghost<Seq<Seq<Recorded>>>, Ghost(rs): Ghost<Seq<Recorded>>)
    requires
        base.len() > 0,
        old(out).view() == append_current(base, rs),
    ensures
        final(out).view() == append_current(base, rs.push((p, tr))),
{
    proof {
        lemma_append_push(base, rs, (p, tr));
    }
    out.add_point(p, tr);
    proof {
        assert(out.view() =~= append_current(append_current(base, rs), seq![(p, tr)]));
    }
}

/// Moves the pen through `params` one after another, recording the start
/// position and every position reached.
fn lineto(
    params: &Vec<Vec2>,
    pos: Position,
    out: &mut OutputLines,
    cpos: &mut Vec2,
    tr: Transform,
) -> (r: Result<(), PathError>)
    requires
        old(out).view().len() > 0,
    ensures
        r is Ok <==> after_line(pos, *old(cpos), params@, old(out).view(), tr) is Ok,
        r is Err ==> r->Err_0 == PathError::Overflow,
        r is Ok ==> after_line(pos, *old(cpos), params@, old(out).view(), tr)->Ok_0 == (
            *final(cpos),
            final(out).view(),
        ),
{
    let ghost base = out.view();
    let ghost start = *cpos;
    proof {
        lemma_append_empty(base);
    }
    if params.len() > 0 {
        record(out, *cpos, tr, Ghost(base), Ghost(Seq::empty()));
    }
    let ghost mut w: Seq<Vec2> = Seq::empty();
    let mut i: usize = 0;
    while i < params.len()
        invariant
            base.len() > 0,
            base == old(out).view(),
            start == *old(cpos),
            i <= params@.len(),
            w.len() == i,
            walk(pos, start, params@.take(i as int)) == Some(w),
            *cpos == last_or(start, w),
            params@.len() > 0 ==> out.view() == append_current(
                base,
                seq![(start, tr)] + tagged(w, tr),
            ),
            params@.len() == 0 ==> out.view() == base,
        decreases params@.len() - i,
    {
        proof {
            assert(params@.take(i + 1).drop_last() =~= params@.take(i as int));
            assert(params@.take(i + 1).last() == params@[i as int]);
        }
        match resolve(pos, *cpos, params[i]) {
            None => {
                proof {
                    assert(walk(pos, start, params@.take(i + 1)) is None);
                    lemma_walk_stops(pos, start, params@, i + 1);
                }
                return Err(PathError::Overflow);
            },
            Some(q) => {
                *cpos = q;
                proof {
                    assert(tagged(w.push(q), tr) =~= tagged(w, tr).push((q, tr)));
                    assert(seq![(start, tr)] + tagged(w.push(q), tr) =~= (seq![(start, tr)]
                        + tagged(w, tr)).push((q, tr)));
                }
                record(out, q, tr, Ghost(base), Ghost(seq![(start, tr)] + tagged(w, tr)));
                proof {
                    w = w.push(q);
                }
                i = i + 1;
            },
        }
    }
    proof {
        assert(params@.take(i as int) =~= params@);
    }
    Ok(())
}

/// Flattens a chained quadratic curve from the pen position, two points
/// (control, end) per segment, and leaves the pen on the last end point.
fn quadratic_curve(
    points: &Vec<Vec2>,
    pos: Position,
    out: &mut OutputLines,
    cpos: &mut Vec2,
    tr: Transform,
) -> (r: Result<(), PathError>)
    requires
        old(out).view().len() > 0,
        points@.len() % 2 == 0,
    ensures
        r is Ok <==> quad_chain(pos, *old(cpos), points@, (points@.len() / 2) as nat) is Some,
        r is Err ==> r->Err_0 == PathError::Overflow,
        r is Ok ==> ({
            let (e, smp) = quad_chain(pos, *old(cpos), points@, (points@.len() / 2) as nat)->0;
            *final(cpos) == e && final(out).view() == append_current(old(out).view(), tagged(smp, tr))
        }),
{
    let ghost base = out.view();
    let ghost first = *cpos;
    let ghost mut smp: Seq<Vec2> = Seq::empty();
    proof {
        lemma_append_empty(base);
    }
    let mut end = *cpos;
    let mut k: usize = 0;
    while k < points.len() / 2
        invariant
            base.len() > 0,
            base == old(out).view(),
            first == *old(cpos),
            points@.len() % 2 == 0,
            k <= points@.len() / 2,
            quad_chain(pos, first, points@, k as nat) == Some((end, smp)),
            out.view() == append_current(base, tagged(smp, tr)),
        decreases points@.len() / 2 - k,
    {
        let start = end;
        let control = match resolve(pos, start, points[2 * k]) {
            Some(c) => c,
            None => {
                proof {
                    assert(quad_chain(pos, first, points@, (k + 1) as nat) is None);
                    lemma_quad_chain_stops(pos, first, points@, (k + 1) as nat, (points@.len() / 2) as nat);
                }
                return Err(PathError::Overflow);
            },
        };
        let e = match resolve(pos, start, points[2 * k + 1]) {
            Some(e) => e,
            None => {
                proof {
                    assert(quad_chain(pos, first, points@, (k + 1) as nat) is None);
                    lemma_quad_chain_stops(pos, first, points@, (k + 1) as nat, (points@.len() / 2) as nat);
                }
                return Err(PathError::Overflow);
            },
        };
        let mut step: u8 = 0;
        while step <= STEPS
            invariant
                base.len() > 0,
                step <= STEPS + 1,
                out.view() == append_current(
                    base,
                    tagged(smp + quad_samples(start, control, e).take(step as int), tr),
                ),
            decreases STEPS + 1 - step,
        {
            let p = quadratic_bezier(step, start, control, e);
            proof {
                let before = smp + quad_samples(start, control, e).take(step as int);
                assert(smp + quad_samples(start, control, e).take(step + 1) =~= before.push(p));
                assert(tagged(before.push(p), tr) =~= tagged(before, tr).push((p, tr)));
            }
            record(out, p, tr, Ghost(base), Ghost(tagged(smp + quad_samples(start, control, e).take(step as int), tr)));
            step = step + 1;
        }
        proof {
            assert(quad_samples(start, control, e).take(11) =~= quad_samples(start, control, e));
            smp = smp + quad_samples(start, control, e);
        }
        end = e;
        k = k + 1;
    }
    *cpos = end;
    Ok(())
}

/// Flattens a chained cubic curve from the pen position, three points
/// (two controls, end) per segment, and leaves the pen on the last end point.
fn cubic_curve(
    points: &Vec<Vec2>,
    pos: Position,
    out: &mut OutputLines,
    cpos: &mut Vec2,
    tr: Transform,
) -> (r: Result<(), PathError>)
    requires
        old(out).view().len() > 0,
        points@.len() % 3 == 0,
    ensures
        r is Ok <==> cubic_chain(pos, *old(cpos), points@, (points@.len() / 3) as nat) is Some,
        r is Err ==> r->Err_0 == PathError::Overflow,
        r is Ok ==> ({
            let (e, smp) = cubic_chain(pos, *old(cpos), points@, (points@.len() / 3) as nat)->0;
            *final(cpos) == e && final(out).view() == append_current(old(out).view(), tagged(smp, tr))
        }),
{
    let ghost base = out.view();
    let ghost first = *cpos;
    let ghost mut smp: Seq<Vec2> = Seq::empty();
    proof {
        lemma_append_empty(base);
    }
    let mut end = *cpos;
    let mut k: usize = 0;
    while k < points.len() / 3
        invariant
            base.len() > 0,
            base == old(out).view(),
            first == *old(cpos),
            points@.len() % 3 == 0,
            k <= points@.len() / 3,
            cubic_chain(pos, first, points@, k as nat) == Some((end, smp)),
            out.view() == append_current(base, tagged(smp, tr)),
        decreases points@.len() / 3 - k,
    {
        let start = end;
        let control_a = match resolve(pos, start, points[3 * k]) {
            Some(c) => c,
            None => {
                proof {
                    assert(cubic_chain(pos, first, points@, (k + 1) as nat) is None);
                    lemma_cubic_chain_stops(pos, first, points@, (k + 1) as nat, (points@.len() / 3) as nat);
                }
                return Err(PathError::Overflow);
            },
        };
        let control_b = match resolve(pos, start, points[3 * k + 1]) {
            Some(c) => c,
            None => {
                proof {
                    assert(cubic_chain(pos, first, points@, (k + 1) as nat) is None);
                    lemma_cubic_chain_stops(pos, first, points@, (k + 1) as nat, (points@.len() / 3) as nat);
                }
                return Err(PathError::Overflow);
            },
        };
        let e = match resolve(pos, start, points[3 * k + 2]) {
            Some(e) => e,
            None => {
                proof {
                    assert(cubic_chain(pos, first, points@, (k + 1) as nat) is None);
                    lemma_cubic_chain_stops(pos, first, points@, (k + 1) as nat, (points@.len() / 3) as nat);
                }
                return Err(PathError::Overflow);
            },
        };
        let mut step: u8 = 0;
        while step <= STEPS
            invariant
                base.len() > 0,
                step <= STEPS + 1,
                out.view() == append_current(
                    base,
                    tagged(smp + cubic_samples(start, control_a, control_b, e).take(step as int), tr),
                ),
            decreases STEPS + 1 - step,
        {
            let p = cubic_bezier(step, start, control_a, control_b, e);
            proof {
                let before = smp + cubic_samples(start, control_a, control_b, e).take(step as int);
                assert(smp + cubic_samples(start, control_a, control_b, e).take(step + 1) =~= before.push(p));
                assert(tagged(before.push(p), tr) =~= tagged(before, tr).push((p, tr)));
            }
            record(out, p, tr, Ghost(base), Ghost(tagged(smp + cubic_samples(start, control_a, control_b, e).take(step as int), tr)));
            step = step + 1;
        }
        proof {
            assert(cubic_samples(start, control_a, control_b, e).take(11) =~= cubic_samples(start, control_a, control_b, e));
            smp = smp + cubic_samples(start, control_a, control_b, e);
        }
        end = e;
        k = k + 1;
    }
    *cpos = end;
    Ok(())
}

/// Carries out one command of a path: updates the pen position `cpos` and
/// the subpaths `out` under the transform `tr`, as `command_effect` says.
pub fn process_command(
    cmd: &Command,
    first: bool,
    cpos: &mut Vec2,
    out: &mut OutputLines,
    tr: Transform,
) -> (r: Result<Outcome, PathError>)
    requires
        old(out).view().len() > 0,
    ensures
        r is Ok <==> command_effect(*cmd, first, *old(cpos), old(out).view(), tr) is Ok,
        r is Err ==> r->Err_0 == command_effect(*cmd, first, *old(cpos), old(out).view(), tr)->Err_0,
        r is Ok ==> command_effect(*cmd, first, *old(cpos), old(out).view(), tr)->Ok_0 == (
            r->Ok_0,
            *final(cpos),
            final(out).view(),
        ),
        r is Ok ==> final(out).view().len() > 0,
        r is Err && *cmd is Close ==> final(out).view() == old(out).view() && *final(cpos) == *old(
            cpos,
        ),
{
    match cmd {
        Command::Move(pos, params) => {
            if params.len() == 0 {
                return Err(PathError::MalformedParameters);
            }
            let mut points = Vec2::many_from_params(params)?;
            let ghost all = points@;
            let to = points.remove(0);
            proof {
                assert(points@ =~= all.drop_first());
            }
            let p = if first {
                Position::Absolute
            } else {
                *pos
            };
            match resolve(p, *cpos, to) {
                None => Err(PathError::Overflow),
                Some(c) => {
                    *cpos = c;
                    lineto(&points, *pos, out, cpos, tr)?;
                    Ok(Outcome::Continue)
                },
            }
        },
        Command::Line(pos, params) => {
            let points = Vec2::many_from_params(params)?;
            lineto(&points, *pos, out, cpos, tr)?;
            Ok(Outcome::Continue)
        },
        Command::HorizontalLine(pos, params) => {
            if params.len() == 0 {
                return Err(PathError::MalformedParameters);
            }
            let y = match pos {
                Position::Relative => 0,
                Position::Absolute => cpos.y,
            };
            let to = vec![Vec2 { x: params[0], y }];
            assert(to@ =~= seq![Vec2 { x: params@[0], y }]);
            lineto(&to, *pos, out, cpos, tr)?;
            Ok(Outcome::Continue)
        },
        Command::VerticalLine(pos, params) => {
            if params.len() == 0 {
                return Err(PathError::MalformedParameters);
            }
            let x = match pos {
                Position::Relative => 0,
                Position::Absolute => cpos.x,
            };
            let to = vec![Vec2 { x, y: params[0] }];
            assert(to@ =~= seq![Vec2 { x, y: params@[0] }]);
            lineto(&to, *pos, out, cpos, tr)?;
            Ok(Outcome::Continue)
        },
        Command::Close => {
            let ghost lines = out.view();
            if let Some(p) = out.first_point() {
                if p.1 != tr {
                    return Err(PathError::TransformMismatch);
                }
                out.add_point(p.0, p.1);
            }
            if let Some(p) = out.last_point() {
                *cpos = p.0;
            }
            out.new_line();
            proof {
                if lines.last().len() > 0 {
                    let open = lines.last();
                    assert(out.view() =~= lines.update(lines.len() - 1, open.push(open[0])).push(
                        Seq::empty(),
                    ));
                } else {
                    assert(out.view() =~= lines.push(Seq::empty()));
                }
            }
            Ok(Outcome::Continue)
        },
        Command::QuadraticCurve(pos, params) => {
            let points = Vec2::many_from_params(params)?;
            if points.len() % 2 != 0 {
                return Err(PathError::MalformedParameters);
            }
            quadratic_curve(&points, *pos, out, cpos, tr)?;
            Ok(Outcome::Continue)
        },
        Command::CubicCurve(pos, params) => {
            let points = Vec2::many_from_params(params)?;
            if points.len() % 3 != 0 {
                return Err(PathError::MalformedParameters);
            }
            cubic_curve(&points, *pos, out, cpos, tr)?;
            Ok(Outcome::Continue)
        },
        Command::Unsupported => Ok(Outcome::StopDrawing),
    }
}

/// Closing a subpath that has points appends a copy of its first point, with
/// the same coordinates and the same transform, and opens a new subpath.
pub proof fn lemma_close_repeats_first(
    first: bool,
    cur: Vec2,
    lines: Seq<Seq<Recorded>>,
    tr: Transform,
)
    requires
        lines.len() > 0,
        lines.last().len() > 0,
        command_effect(Command::Close, first, cur, lines, tr) is Ok,
    ensures
        ({
            let after = command_effect(Command::Close, first, cur, lines, tr)->Ok_0.2;
            let closed = after[lines.len() - 1];
            &&& after.len() == lines.len() + 1
            &&& closed.len() == lines.last().len() + 1
            &&& closed.last().0 == closed[0].0
            &&& closed.last().1 == closed[0].1
            &&& closed[0] == lines.last()[0]
            &&& after.last().len() == 0
        }),
{
}

} // verus!
