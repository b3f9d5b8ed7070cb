//! The one invariant of the rings: a window that was taken in and not yet
//! taken out is a member of exactly one ring, at exactly one position.

use crate::columns::ColumnsModel;
use crate::manager::{lemma_rings_inserted, lemma_rings_removed, RingsModel};
use crate::ring::{RingModel, WindowId};
use vstd::prelude::*;

verus! {

/// One change of membership.
pub enum Step {
    /// Window `id` is taken into the tag `label`, `focused` having the focus.
    Insert { id: WindowId, focused: Option<WindowId>, label: Seq<char> },
    /// Window `id` is taken out.
    Delete { id: WindowId },
}

/// The rings after one step.
pub open spec fn step_taken(m: RingsModel, step: Step) -> RingsModel {
    match step {
        Step::Insert { id, focused, label } => m.inserted(id, focused, label),
        Step::Delete { id } => m.removed(id),
    }
}

/// The rings after all the steps, first to last.
pub open spec fn run(m: RingsModel, steps: Seq<Step>) -> RingsModel
    decreases steps.len(),
{
    if steps.len() == 0 {
        m
    } else {
        step_taken(run(m, steps.drop_last()), steps.last())
    }
}

/// Whether every insertion among the steps names a tag that exists and a
/// window that is in no ring at that moment.
pub open spec fn orderly(m: RingsModel, steps: Seq<Step>) -> bool
    decreases steps.len(),
{
    if steps.len() == 0 {
        true
    } else {
        &&& orderly(m, steps.drop_last())
        &&& steps.last() matches Step::Insert { id, focused, label } ==> {
            &&& m.tag_index(label) is Some
            &&& !run(m, steps.drop_last()).contains(id)
        }
    }
}

/// Whether window `x` is alive after the steps: the last step that names
/// it took it in, or none names it and it was a member before.
pub open spec fn alive(m: RingsModel, steps: Seq<Step>, x: WindowId) -> bool
    decreases steps.len(),
{
    if steps.len() == 0 {
        m.contains(x)
    } else {
        match steps.last() {
            Step::Insert { id, .. } => id == x || alive(m, steps.drop_last(), x),
            Step::Delete { id } => id != x && alive(m, steps.drop_last(), x),
        }
    }
}

/// The ring of one side of a tag.
pub open spec fn ring_at(m: RingsModel, tag: int, right: bool) -> RingModel {
    if right {
        m.columns[tag].right
    } else {
        m.columns[tag].left
    }
}

/// Whether window `x` stands at position `pos` of the ring on that side of that tag.
pub open spec fn stands_at(m: RingsModel, x: WindowId, tag: int, right: bool, pos: int) -> bool {
    &&& 0 <= tag < m.columns.len()
    &&& 0 <= pos < ring_at(m, tag, right).members.len()
    &&& ring_at(m, tag, right).members[pos] == x
}

/// A member of well-formed rings stands at one place and at no other.
pub proof fn lemma_one_place(m: RingsModel, x: WindowId)
    requires
        m.wf(),
        m.contains(x),
    ensures
        exists|tag: int, right: bool, pos: int|
            {
                &&& #[trigger] stands_at(m, x, tag, right, pos)
                &&& forall|t: int, r: bool, p: int| #[trigger]
                    stands_at(m, x, t, r, p) ==> t == tag && r == right && p == pos
            },
{
    let tag = m.home(x);
    let c = m.columns[tag];
    assert(c.wf());
    let right = !c.left.members.contains(x);
    let ring = ring_at(m, tag, right);
    assert(ring.members.contains(x));
    let pos = ring.members.index_of(x);
    assert(stands_at(m, x, tag, right, pos));
    assert forall|t: int, r: bool, p: int| #[trigger] stands_at(m, x, t, r, p) implies t == tag && r
        == right && p == pos by {
        assert(ring_at(m, t, r).members.contains(x));
        assert(m.columns[t].contains(x));
        if t != tag {
            assert(m.columns[tag].contains(x));
        }
    }
}

/// A window that is no member stands nowhere.
pub proof fn lemma_no_place(m: RingsModel, x: WindowId)
    requires
        !m.contains(x),
    ensures
        forall|t: int, r: bool, p: int| !#[trigger] stands_at(m, x, t, r, p),
{
    assert forall|t: int, r: bool, p: int| !#[trigger] stands_at(m, x, t, r, p) by {
        if stands_at(m, x, t, r, p) {
            assert(ring_at(m, t, r).members.contains(x));
            assert(m.columns[t].contains(x));
        }
    }
}

/// Steps leave the labels of the tags as they are.
pub proof fn lemma_run_keeps_tags(m: RingsModel, steps: Seq<Step>)
    ensures
        run(m, steps).names == m.names,
    decreases steps.len(),
{
    if steps.len() > 0 {
        lemma_run_keeps_tags(m, steps.drop_last());
    }
}

/// Whatever orderly sequence of insertions and deletions the rings go
/// through, they stay well formed, and their members are the windows that
/// are alive: each of these stands at exactly one position of exactly one
/// ring, and no other window stands anywhere.
pub proof fn lemma_membership(m: RingsModel, steps: Seq<Step>, x: WindowId)
    requires
        m.wf(),
        orderly(m, steps),
    ensures
        run(m, steps).wf(),
        run(m, steps).contains(x) <==> alive(m, steps, x),
        alive(m, steps, x) ==> exists|tag: int, right: bool, pos: int|
            {
                &&& #[trigger] stands_at(run(m, steps), x, tag, right, pos)
                &&& forall|t: int, r: bool, p: int| #[trigger]
                    stands_at(run(m, steps), x, t, r, p) ==> t == tag && r == right && p == pos
            },
        !alive(m, steps, x) ==> forall|t: int, r: bool, p: int| !#[trigger] stands_at(
            run(m, steps),
            x,
            t,
            r,
            p,
        ),
    decreases steps.len(),
{
    if steps.len() > 0 {
        let before = run(m, steps.drop_last());
        lemma_membership(m, steps.drop_last(), x);
        lemma_run_keeps_tags(m, steps.drop_last());
        match steps.last() {
            Step::Insert { id, focused, label } => {
                assert(before.tag_index(label) == m.tag_index(label));
                lemma_rings_inserted(before, id, focused, label);
            },
            Step::Delete { id } => {
                lemma_rings_removed(before, id);
            },
        }
    }
    let after = run(m, steps);
    if after.contains(x) {
        lemma_one_place(after, x);
    } else {
        lemma_no_place(after, x);
    }
}

} // verus!
