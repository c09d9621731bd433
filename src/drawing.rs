use vstd::prelude::*;

use crate::error::PathError;
use crate::interp::{command_effect, process_command, Command, Outcome};
use crate::output_lines::{OutputLines, Recorded};
use crate::transform::{combined, total_offset, Transform, TransformStack};
use crate::vec2::{fits, Vec2};

verus! {

/// The subpaths that a new path starts from: the open subpath is ended
/// unless it is still empty.
pub open spec fn begin_path(lines: Seq<Seq<Recorded>>) -> Seq<Seq<Recorded>> {
    if lines.last().len() == 0 {
        lines
    } else {
        lines.push(Seq::empty())
    }
}

/// The effect of the first `n` commands of a path, from the pen at the
/// origin: commands after one that stops the drawing have none.
pub open spec fn path_effect(
    cmds: Seq<Command>,
    n: nat,
    lines: Seq<Seq<Recorded>>,
    tr: Transform,
) -> Result<(Outcome, Vec2, Seq<Seq<Recorded>>), PathError>
    decreases n,
{
    if n == 0 {
        Ok((Outcome::Continue, Vec2 { x: 0, y: 0 }, lines))
    } else {
        match path_effect(cmds, (n - 1) as nat, lines, tr) {
            Err(e) => Err(e),
            Ok((Outcome::StopDrawing, c, l)) => Ok((Outcome::StopDrawing, c, l)),
            Ok((Outcome::Continue, c, l)) => command_effect(cmds[n - 1], n == 1, c, l, tr),
        }
    }
}

proof fn lemma_path_fails_on(
    cmds: Seq<Command>,
    k: nat,
    n: nat,
    lines: Seq<Seq<Recorded>>,
    tr: Transform,
)
    requires
        k <= n,
        path_effect(cmds, k, lines, tr) is Err,
    ensures
        path_effect(cmds, n, lines, tr) == path_effect(cmds, k, lines, tr),
    decreases n - k,
{
    if k < n {
        lemma_path_fails_on(cmds, k + 1, n, lines, tr);
    }
}

proof fn lemma_path_stops_on(
    cmds: Seq<Command>,
    k: nat,
    n: nat,
    lines: Seq<Seq<Recorded>>,
    tr: Transform,
)
    requires
        k <= n,
        path_effect(cmds, k, lines, tr) is Ok,
        path_effect(cmds, k, lines, tr)->Ok_0.0 == Outcome::StopDrawing,
    ensures
        path_effect(cmds, n, lines, tr) == path_effect(cmds, k, lines, tr),
    decreases n - k,
{
    if k < n {
        lemma_path_stops_on(cmds, k + 1, n, lines, tr);
    }
}

/// How far an unsupported command reaches: it ends the whole drawing, or
/// only the path element it stands in.
#[derive(Debug, Clone, Copy, PartialEq, Eq, Structural)]
pub enum StopPolicy {
    WholeDrawing,
    CurrentPath,
}

/// A drawing being built: its subpaths, the transforms of the open groups,
/// what an unsupported command stops, and whether one has stopped it.
pub struct Drawing {
    pub out: OutputLines,
    pub transforms: TransformStack,
    pub policy: StopPolicy,
    pub stopped: bool,
}

impl Drawing {
    pub open spec fn wf(&self) -> bool {
        self.transforms.wf() && self.out.view().len() > 0
    }

    /// An empty drawing in which an unsupported command ends everything.
    pub fn new() -> (r: Drawing)
        ensures
            r.wf(),
            r.out.view() == seq![Seq::<Recorded>::empty()],
            r.transforms.entries@ == seq![Transform::Identity],
            r.policy == StopPolicy::WholeDrawing,
            !r.stopped,
    {
        Drawing::with_policy(StopPolicy::WholeDrawing)
    }

    /// An empty drawing with the given reach of unsupported commands.
    pub fn with_policy(policy: StopPolicy) -> (r: Drawing)
        ensures
            r.wf(),
            r.out.view() == seq![Seq::<Recorded>::empty()],
            r.transforms.entries@ == seq![Transform::Identity],
            r.policy == policy,
            !r.stopped,
    {
        let mut out = OutputLines::new();
        out.new_line();
        assert(out.view() =~= seq![Seq::<Recorded>::empty()]);
        Drawing { out, transforms: TransformStack::new(), policy, stopped: false }
    }

    /// Opens a group with transform `t`.
    pub fn enter_group(&mut self, t: Transform) -> (r: Result<(), PathError>)
        requires
            old(self).wf(),
        ensures
            final(self).wf(),
            final(self).out == old(self).out,
            final(self).stopped == old(self).stopped,
            r is Ok <==> fits(total_offset(old(self).transforms.entries@.push(t)).0) && fits(
                total_offset(old(self).transforms.entries@.push(t)).1,
            ),
            r is Ok ==> final(self).transforms.entries@ == old(self).transforms.entries@.push(t),
            r is Err ==> r->Err_0 == PathError::Overflow && final(self).transforms.entries@ == old(
                self,
            ).transforms.entries@,
    {
        self.transforms.push(t)
    }

    /// Closes the innermost group; `StackUnderflow` when none is open.
    pub fn leave_group(&mut self) -> (r: Result<(), PathError>)
        requires
            old(self).wf(),
        ensures
            final(self).wf(),
            final(self).out == old(self).out,
            final(self).stopped == old(self).stopped,
            r is Ok <==> old(self).transforms.entries@.len() > 1,
            r is Ok ==> final(self).transforms.entries@ == old(
                self,
            ).transforms.entries@.drop_last(),
            r is Err ==> r->Err_0 == PathError::StackUnderflow && final(self).transforms.entries@
                == old(self).transforms.entries@,
    {
        match self.transforms.pop() {
            Ok(_) => Ok(()),
            Err(e) => Err(e),
        }
    }

    /// Runs the commands of one path element under the transform of the open
    /// groups. An unsupported command ends the path; under `WholeDrawing` it
    /// ends the drawing too, and later paths are then ignored.
    pub fn add_path(&mut self, cmds: &Vec<Command>) -> (r: Result<Outcome, PathError>)
        requires
            old(self).wf(),
        ensures
            final(self).transforms == old(self).transforms,
            final(self).policy == old(self).policy,
            old(self).stopped ==> r == Ok::<Outcome, PathError>(Outcome::StopDrawing)
                && final(self).out.view() == old(self).out.view() && final(self).stopped,
            !old(self).stopped ==> ({
                let eff = path_effect(
                    cmds@,
                    cmds@.len(),
                    begin_path(old(self).out.view()),
                    combined(old(self).transforms.entries@),
                );
                &&& r is Ok <==> eff is Ok
                &&& r is Err ==> r->Err_0 == eff->Err_0
                &&& r is Ok ==> r->Ok_0 == eff->Ok_0.0 && final(self).out.view() == eff->Ok_0.2
                    && final(self).wf() && final(self).stopped == (r->Ok_0
                    == Outcome::StopDrawing && old(self).policy == StopPolicy::WholeDrawing)
            }),
    {
        if self.stopped {
            return Ok(Outcome::StopDrawing);
        }
        let tr = self.transforms.combine();
        if let Some(_) = self.out.last_point() {
            self.out.new_line();
        }
        let ghost lines = self.out.view();
        assert(lines == begin_path(old(self).out.view()));
        let mut cpos = Vec2::origin();
        let mut i: usize = 0;
        while i < cmds.len()
            invariant
                self.wf(),
                self.transforms == old(self).transforms,
                self.policy == old(self).policy,
                !self.stopped,
                !old(self).stopped,
                tr == combined(self.transforms.entries@),
                lines == begin_path(old(self).out.view()),
                i <= cmds@.len(),
                path_effect(cmds@, i as nat, lines, tr) == Ok::<
                    (Outcome, Vec2, Seq<Seq<Recorded>>),
                    PathError,
                >((Outcome::Continue, cpos, self.out.view())),
            decreases cmds@.len() - i,
        {
            let o = process_command(&cmds[i], i == 0, &mut cpos, &mut self.out, tr);
            proof {
                assert(path_effect(cmds@, (i + 1) as nat, lines, tr) == command_effect(
                    cmds@[i as int],
                    i == 0,
                    path_effect(cmds@, i as nat, lines, tr)->Ok_0.1,
                    path_effect(cmds@, i as nat, lines, tr)->Ok_0.2,
                    tr,
                ));
            }
            match o {
                Err(e) => {
                    proof {
                        lemma_path_fails_on(cmds@, (i + 1) as nat, cmds@.len(), lines, tr);
                    }
                    return Err(e);
                },
                Ok(Outcome::StopDrawing) => {
                    proof {
                        lemma_path_stops_on(cmds@, (i + 1) as nat, cmds@.len(), lines, tr);
                    }
                    self.stopped = self.policy == StopPolicy::WholeDrawing;
                    return Ok(Outcome::StopDrawing);
                },
                Ok(Outcome::Continue) => {},
            }
            i = i + 1;
        }
        Ok(Outcome::Continue)
    }
}

} // verus!
