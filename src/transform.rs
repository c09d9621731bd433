use vstd::prelude::*;

use crate::error::PathError;
use crate::vec2::{fits, Vec2};

verus! {

/// The coordinate transform of a group: none, or a translation.
#[derive(Debug, Clone, Copy, PartialEq, Eq, Structural)]
pub enum Transform {
    Identity,
    Translate(Vec2),
}

/// The offset that a transform adds to a point.
pub open spec fn offset_of(t: Transform) -> (int, int) {
    match t {
        Transform::Identity => (0, 0),
        Transform::Translate(v) => (v.x as int, v.y as int),
    }
}

/// The summed offset of a stack of transforms.
pub open spec fn total_offset(s: Seq<Transform>) -> (int, int)
    decreases s.len(),
{
    if s.len() == 0 {
        (0, 0)
    } else {
        let r = total_offset(s.drop_last());
        let o = offset_of(s.last());
        (r.0 + o.0, r.1 + o.1)
    }
}

/// The single transform equivalent to a whole stack: `Identity` when the
/// offsets cancel, else the translation by their sum.
pub open spec fn combined(s: Seq<Transform>) -> Transform {
    let t = total_offset(s);
    if t.0 == 0 && t.1 == 0 {
        Transform::Identity
    } else {
        Transform::Translate(Vec2 { x: t.0 as i64, y: t.1 as i64 })
    }
}

/// Every partial sum of the stack, from the bottom up, fits the coordinate range.
pub open spec fn offsets_fit(s: Seq<Transform>) -> bool {
    forall|k: int|
        0 <= k <= s.len() ==> fits(#[trigger] total_offset(s.take(k)).0) && fits(
            total_offset(s.take(k)).1,
        )
}

/// The transforms of the groups that are open, innermost last, above an
/// `Identity` that stands for the document itself.
pub struct TransformStack {
    pub entries: Vec<Transform>,
}

impl TransformStack {
    pub open spec fn wf(&self) -> bool {
        self.entries@.len() >= 1 && self.entries@[0] == Transform::Identity && offsets_fit(
            self.entries@,
        )
    }

    /// The number of groups that are open.
    pub open spec fn depth_spec(&self) -> nat {
        (self.entries@.len() - 1) as nat
    }

    pub fn new() -> (r: TransformStack)
        ensures
            r.wf(),
            r.entries@ == seq![Transform::Identity],
    {
        let mut entries: Vec<Transform> = Vec::new();
        entries.push(Transform::Identity);
        proof {
            assert(entries@.take(0) =~= Seq::<Transform>::empty());
            assert(entries@.take(1) =~= entries@);
            assert(total_offset(entries@) == total_offset(entries@.drop_last()));
            assert(entries@.drop_last() =~= Seq::<Transform>::empty());
        }
        TransformStack { entries }
    }

    pub fn depth(&self) -> (r: usize)
        requires
            self.wf(),
        ensures
            r == self.depth_spec(),
    {
        self.entries.len() - 1
    }

    /// Opens a group with transform `t`; refused when the summed offset
    /// would leave the coordinate range.
    pub fn push(&mut self, t: Transform) -> (r: Result<(), PathError>)
        requires
            old(self).wf(),
        ensures
            final(self).wf(),
            r is Ok <==> fits(total_offset(old(self).entries@.push(t)).0) && fits(
                total_offset(old(self).entries@.push(t)).1,
            ),
            r is Ok ==> final(self).entries@ == old(self).entries@.push(t),
            r is Err ==> r->Err_0 == PathError::Overflow && *final(self) == *old(self),
    {
        let cur = self.combine_offset();
        let add = match t {
            Transform::Identity => Vec2 { x: 0, y: 0 },
            Transform::Translate(v) => v,
        };
        proof {
            let s = self.entries@.push(t);
            assert(s.drop_last() =~= self.entries@);
        }
        match cur.checked_add(add) {
            Some(_) => {
                let ghost before = self.entries@;
                self.entries.push(t);
                proof {
                    let s = self.entries@;
                    assert forall|k: int| 0 <= k <= s.len() implies fits(
                        #[trigger] total_offset(s.take(k)).0,
                    ) && fits(total_offset(s.take(k)).1) by {
                        if k < s.len() {
                            assert(s.take(k) =~= before.take(k));
                        } else {
                            assert(s.take(k) =~= s);
                        }
                    }
                }
                Ok(())
            },
            None => Err(PathError::Overflow),
        }
    }

    /// Closes the innermost group; refused when no group is open.
    pub fn pop(&mut self) -> (r: Result<Transform, PathError>)
        requires
            old(self).wf(),
        ensures
            final(self).wf(),
            r is Ok <==> old(self).entries@.len() > 1,
            r is Ok ==> final(self).entries@ == old(self).entries@.drop_last() && r->Ok_0
                == old(self).entries@.last(),
            r is Err ==> r->Err_0 == PathError::StackUnderflow && *final(self) == *old(self),
    {
        if self.entries.len() <= 1 {
            return Err(PathError::StackUnderflow);
        }
        let ghost before = self.entries@;
        let t = self.entries.pop().unwrap();
        proof {
            let s = self.entries@;
            assert(s =~= before.drop_last());
            assert forall|k: int| 0 <= k <= s.len() implies fits(
                #[trigger] total_offset(s.take(k)).0,
            ) && fits(total_offset(s.take(k)).1) by {
                assert(s.take(k) =~= before.take(k));
                assert(fits(total_offset(before.take(k)).0));
            }
        }
        Ok(t)
    }

    /// The summed offset of all entries.
    fn combine_offset(&self) -> (r: Vec2)
        requires
            self.wf(),
        ensures
            r.x == total_offset(self.entries@).0,
            r.y == total_offset(self.entries@).1,
    {
        let mut acc = Vec2 { x: 0, y: 0 };
        let mut i: usize = 0;
        while i < self.entries.len()
            invariant
                self.wf(),
                i <= self.entries@.len(),
                acc.x == total_offset(self.entries@.take(i as int)).0,
                acc.y == total_offset(self.entries@.take(i as int)).1,
            decreases self.entries@.len() - i,
        {
            let ghost s = self.entries@;
            proof {
                assert(s.take(i + 1).drop_last() =~= s.take(i as int));
                assert(s.take(i + 1).last() == s[i as int]);
                assert(fits(total_offset(s.take(i + 1)).0));
                assert(fits(total_offset(s.take(i + 1)).1));
            }
            match self.entries[i] {
                Transform::Identity => {},
                Transform::Translate(by) => acc.add_assign(by),
            }
            i = i + 1;
        }
        proof {
            assert(self.entries@.take(i as int) =~= self.entries@);
        }
        acc
    }

    /// The one transform that the open groups amount to together.
    pub fn combine(&self) -> (r: Transform)
        requires
            self.wf(),
        ensures
            r == combined(self.entries@),
    {
        let sum = self.combine_offset();
        if sum.x != 0 || sum.y != 0 {
            Transform::Translate(sum)
        } else {
            Transform::Identity
        }
    }
}

/// Opening a group that translates by `a` and, inside it, one that
/// translates by `b` adds both offsets to what the stack had.
pub proof fn lemma_nested_translates_add(s: Seq<Transform>, a: Vec2, b: Vec2)
    ensures
        total_offset(s.push(Transform::Translate(a)).push(Transform::Translate(b))) == (
            total_offset(s).0 + a.x + b.x,
            total_offset(s).1 + a.y + b.y,
        ),
{
    let s1 = s.push(Transform::Translate(a));
    let s2 = s1.push(Transform::Translate(b));
    assert(s2.drop_last() =~= s1);
    assert(s1.drop_last() =~= s);
    assert(s2.last() == Transform::Translate(b));
    assert(s1.last() == Transform::Translate(a));
    assert(total_offset(s1) == (total_offset(s).0 + a.x, total_offset(s).1 + a.y));
    assert(total_offset(s2) == (total_offset(s1).0 + b.x, total_offset(s1).1 + b.y));
}

} // verus!
