use vstd::prelude::*;

use crate::error::PathError;
use crate::transform::{combined, offset_of, Transform};
use crate::vec2::{fits, Vec2};

verus! {

/// A recorded point with the transform that was in effect when it was recorded.
pub type Recorded = (Vec2, Transform);

/// The subpaths of a drawing, in order; the last one is open and takes new points.
#[derive(Debug)]
pub struct OutputLines {
    pub lines: Vec<Vec<Recorded>>,
}

impl OutputLines {
    pub open spec fn view(&self) -> Seq<Seq<Recorded>> {
        self.lines@.map_values(|l: Vec<Recorded>| l@)
    }

    /// The subpath that is open, or the empty sequence before any was started.
    pub open spec fn current(&self) -> Seq<Recorded> {
        if self.view().len() == 0 {
            Seq::empty()
        } else {
            self.view().last()
        }
    }

    pub fn new() -> (r: OutputLines)
        ensures
            r.view() == Seq::<Seq<Recorded>>::empty(),
    {
        let r = OutputLines { lines: Vec::new() };
        assert(r.view() =~= Seq::<Seq<Recorded>>::empty());
        r
    }

    /// Ends the open subpath, if any, and opens an empty one.
    pub fn new_line(&mut self)
        ensures
            final(self).view() == old(self).view().push(Seq::empty()),
    {
        self.lines.push(Vec::new());
        assert(self.view() =~= old(self).view().push(Seq::empty()));
    }

    /// Appends a point to the open subpath.
    pub fn add_point(&mut self, point: Vec2, transform: Transform)
        requires
            old(self).view().len() > 0,
        ensures
            final(self).view().len() == old(self).view().len(),
            final(self).view() == old(self).view().update(
                old(self).view().len() - 1,
                old(self).current().push((point, transform)),
            ),
    {
        let mut line = self.lines.pop().unwrap();
        line.push((point, transform));
        self.lines.push(line);
        assert(self.view() =~= old(self).view().update(
            old(self).view().len() - 1,
            old(self).current().push((point, transform)),
        ));
    }

    /// The last point of the open subpath.
    pub fn last_point(&self) -> (r: Option<Recorded>)
        requires
            self.view().len() > 0,
        ensures
            r is None <==> self.current().len() == 0,
            r is Some ==> r->0 == self.current().last(),
    {
        let line = &self.lines[self.lines.len() - 1];
        if line.len() == 0 {
            None
        } else {
            Some(line[line.len() - 1])
        }
    }

    /// The first point of the open subpath.
    pub fn first_point(&self) -> (r: Option<Recorded>)
        requires
            self.view().len() > 0,
        ensures
            r is None <==> self.current().len() == 0,
            r is Some ==> r->0 == self.current()[0],
    {
        let line = &self.lines[self.lines.len() - 1];
        if line.len() == 0 {
            None
        } else {
            Some(line[0])
        }
    }
}

/// Where a recorded point lands in the output: its transform applied, and
/// the vertical axis turned over.
pub open spec fn rendered(r: Recorded) -> (int, int) {
    (r.0.x + offset_of(r.1).0, -(r.0.y + offset_of(r.1).1))
}

pub open spec fn rendered_fits(r: Recorded) -> bool {
    fits(rendered(r).0) && fits(r.0.y + offset_of(r.1).1) && fits(rendered(r).1)
}

/// The output position of one recorded point, or `Overflow` when it leaves
/// the coordinate range.
pub fn render_point(r: Recorded) -> (o: Result<Vec2, PathError>)
    ensures
        o is Ok <==> rendered_fits(r),
        o is Ok ==> o->Ok_0.x == rendered(r).0 && o->Ok_0.y == rendered(r).1,
        o is Err ==> o->Err_0 == PathError::Overflow,
{
    let (p, t) = r;
    let moved = match t {
        Transform::Identity => Some(p),
        Transform::Translate(by) => p.checked_add(by),
    };
    match moved {
        Some(m) => if m.y == i64::MIN {
            Err(PathError::Overflow)
        } else {
            Ok(Vec2 { x: m.x, y: -m.y })
        },
        None => Err(PathError::Overflow),
    }
}

/// The output of a drawing: every subpath, in order, each point rendered,
/// or `Overflow` when some point leaves the coordinate range.
pub fn render(out: &OutputLines) -> (o: Result<Vec<Vec<Vec2>>, PathError>)
    ensures
        o is Ok <==> forall|i: int, j: int|
            0 <= i < out.view().len() && 0 <= j < out.view()[i].len() ==> rendered_fits(
                #[trigger] out.view()[i][j],
            ),
        o is Err ==> o->Err_0 == PathError::Overflow,
        o is Ok ==> o->Ok_0@.len() == out.view().len() && forall|i: int|
            0 <= i < out.view().len() ==> (#[trigger] o->Ok_0@[i])@.len() == out.view()[i].len()
                && forall|j: int|
                0 <= j < out.view()[i].len() ==> (#[trigger] o->Ok_0@[i]@[j]).x == rendered(
                    out.view()[i][j],
                ).0 && o->Ok_0@[i]@[j].y == rendered(out.view()[i][j]).1,
{
    let mut res: Vec<Vec<Vec2>> = Vec::new();
    let mut i: usize = 0;
    while i < out.lines.len()
        invariant
            i <= out.view().len(),
            out.view().len() == out.lines@.len(),
            res@.len() == i,
            forall|a: int, j: int|
                0 <= a < i && 0 <= j < out.view()[a].len() ==> rendered_fits(
                    #[trigger] out.view()[a][j],
                ),
            forall|a: int|
                0 <= a < i ==> (#[trigger] res@[a])@.len() == out.view()[a].len() && forall|j: int|
                    0 <= j < out.view()[a].len() ==> (#[trigger] res@[a]@[j]).x == rendered(
                        out.view()[a][j],
                    ).0 && res@[a]@[j].y == rendered(out.view()[a][j]).1,
        decreases out.lines@.len() - i,
    {
        let line = &out.lines[i];
        assert(line@ == out.view()[i as int]);
        let mut row: Vec<Vec2> = Vec::new();
        let mut j: usize = 0;
        while j < line.len()
            invariant
                j <= line@.len(),
                i < out.view().len(),
                line@ == out.view()[i as int],
                row@.len() == j,
                forall|b: int| 0 <= b < j ==> rendered_fits(#[trigger] line@[b]),
                forall|b: int|
                    0 <= b < j ==> (#[trigger] row@[b]).x == rendered(line@[b]).0 && row@[b].y
                        == rendered(line@[b]).1,
            decreases line@.len() - j,
        {
            match render_point(line[j]) {
                Ok(p) => row.push(p),
                Err(e) => {
                    assert(!rendered_fits(out.view()[i as int][j as int]));
                    return Err(e);
                },
            }
            j = j + 1;
        }
        res.push(row);
        i = i + 1;
    }
    Ok(res)
}

/// Where the open groups' offsets cancel, a point recorded under them keeps
/// its coordinates in the output, but for the vertical flip.
pub proof fn lemma_identity_only_flips(s: Seq<Transform>, p: Vec2)
    requires
        combined(s) == Transform::Identity,
    ensures
        rendered((p, combined(s))) == (p.x as int, -p.y),
        rendered_fits((p, combined(s))) <==> p.y != i64::MIN,
{
}

} // verus!
