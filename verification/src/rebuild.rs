//! A rebuild syncs the tags one after the other. Doing it twice is doing
//! it once.

use crate::columns::{lemma_attach_order_members, lemma_visible_shape};
use crate::manager::RingsModel;
use crate::ring::WindowId;
use crate::sync::{
    attached_to, carried_out, hidden_label, lemma_settled_sync, lemma_sync_effect,
    lemma_sync_settles, parked, sync_plan,
};
use vstd::prelude::*;

verus! {

/// The windows that tag `i` displays, in the order in which they are attached.
pub open spec fn order_of(m: RingsModel, i: int) -> Seq<WindowId> {
    m.columns[i].attach_order(m.fullscreen, m.last_focus)
}

/// The tag of each window after the first `k` tags were synced, one after
/// the other, `reports[i]` being what the window system showed as attached
/// to tag `i` when its turn came.
pub open spec fn rebuilt(
    m: RingsModel,
    at: Map<WindowId, Seq<char>>,
    reports: Seq<Seq<WindowId>>,
    k: nat,
) -> Map<WindowId, Seq<char>>
    decreases k,
{
    if k == 0 {
        at
    } else {
        carried_out(
            rebuilt(m, at, reports, (k - 1) as nat),
            m.tag_plan(m.names[k - 1], reports[k - 1]),
        )
    }
}

/// Whether each of the first `k` reports lists the windows that were on its
/// tag when its turn came, and no others.
pub open spec fn faithful(
    m: RingsModel,
    at: Map<WindowId, Seq<char>>,
    reports: Seq<Seq<WindowId>>,
    k: nat,
) -> bool
    decreases k,
{
    k == 0 || (faithful(m, at, reports, (k - 1) as nat) && reports[k - 1].to_set() == attached_to(
        rebuilt(m, at, reports, (k - 1) as nat),
        m.names[k - 1],
    ))
}

/// The plan for the tag at position `i` is made from the windows that its
/// own columns display.
pub proof fn lemma_own_plan(m: RingsModel, i: int, report: Seq<WindowId>)
    requires
        m.wf(),
        0 <= i < m.names.len(),
    ensures
        m.tag_plan(m.names[i], report) == sync_plan(report, order_of(m, i), m.names[i]),
        m.names[i] != hidden_label(),
{
    assert(m.names.contains(m.names[i]));
    assert(m.names.index_of(m.names[i]) == i);
}

/// A window that a tag displays is a member of one of its rings.
pub proof fn lemma_order_members(m: RingsModel, i: int, x: WindowId)
    requires
        m.wf(),
        0 <= i < m.columns.len(),
        order_of(m, i).contains(x),
    ensures
        m.columns[i].contains(x),
{
    let shown = m.columns[i].visible(m.fullscreen);
    let order = order_of(m, i);
    assert(m.columns[i].wf());
    lemma_visible_shape(m.columns[i], m.fullscreen);
    lemma_attach_order_members(m.columns[i], m.fullscreen, m.last_focus, x);
    assert(m.columns[i].left.focus() == Some(x) ==> m.columns[i].left.members.contains(x));
    assert(m.columns[i].right.focus() == Some(x) ==> m.columns[i].right.members.contains(x));
}

/// After the first `k` tags were synced, each of them holds the windows it
/// displays and no others.
proof fn lemma_rebuilt_settles(
    m: RingsModel,
    at: Map<WindowId, Seq<char>>,
    reports: Seq<Seq<WindowId>>,
    k: nat,
    i: int,
)
    requires
        m.wf(),
        k <= m.names.len(),
        faithful(m, at, reports, k),
        0 <= i < k,
    ensures
        attached_to(rebuilt(m, at, reports, k), m.names[i]) == order_of(m, i).to_set(),
    decreases k,
{
    let prev = rebuilt(m, at, reports, (k - 1) as nat);
    let after = rebuilt(m, at, reports, k);
    let label = m.names[k - 1];
    let report = reports[k - 1];
    let order = order_of(m, k - 1);
    lemma_own_plan(m, k - 1, report);
    if i == k - 1 {
        lemma_sync_settles(prev, report, order, label);
    } else {
        lemma_rebuilt_settles(m, at, reports, (k - 1) as nat, i);
        let other = m.names[i];
        lemma_own_plan(m, i, report);
        assert forall|x: WindowId| attached_to(after, other).contains(x) <==> order_of(
            m,
            i,
        ).to_set().contains(x) by {
            lemma_sync_effect(prev, report, order, label, x);
            if order.contains(x) {
                lemma_order_members(m, k - 1, x);
                if order_of(m, i).contains(x) {
                    lemma_order_members(m, i, x);
                }
            } else if report.contains(x) {
                assert(report.to_set().contains(x));
                assert(attached_to(prev, label).contains(x));
                assert(!attached_to(prev, other).contains(x));
                assert(!order_of(m, i).to_set().contains(x));
            } else {
                assert(attached_to(prev, other).contains(x) <==> order_of(m, i).to_set().contains(
                    x,
                ));
            }
        }
        assert(attached_to(after, other) =~= order_of(m, i).to_set());
    }
}

/// Syncing tags that are in line already changes nothing and parks nothing.
proof fn lemma_rebuilt_again(
    m: RingsModel,
    settled: Map<WindowId, Seq<char>>,
    again: Seq<Seq<WindowId>>,
    k: nat,
)
    requires
        m.wf(),
        k <= m.names.len(),
        faithful(m, settled, again, k),
        forall|i: int|
            0 <= i < m.names.len() ==> attached_to(settled, #[trigger] m.names[i]) == order_of(
                m,
                i,
            ).to_set(),
    ensures
        rebuilt(m, settled, again, k) == settled,
        forall|i: int|
            0 <= i < k ==> parked(#[trigger] again[i], order_of(m, i)) == Seq::<WindowId>::empty(),
    decreases k,
{
    if k > 0 {
        lemma_rebuilt_again(m, settled, again, (k - 1) as nat);
        lemma_own_plan(m, k - 1, again[k - 1]);
        lemma_settled_sync(settled, again[k - 1], order_of(m, k - 1), m.names[k - 1]);
    }
}

/// A rebuild is idempotent. Let the tags be synced one after the other,
/// each from a report of the windows that are on it at its turn. Then every
/// tag holds the windows that it displays and no others; and a second
/// rebuild from the same rings parks no window on the hidden tag and leaves
/// every window on the tag where it is.
pub proof fn lemma_rebuild_idempotent(
    m: RingsModel,
    at: Map<WindowId, Seq<char>>,
    reports: Seq<Seq<WindowId>>,
    again: Seq<Seq<WindowId>>,
)
    requires
        m.wf(),
        faithful(m, at, reports, m.names.len()),
        faithful(m, rebuilt(m, at, reports, m.names.len()), again, m.names.len()),
    ensures
        forall|i: int|
            0 <= i < m.names.len() ==> attached_to(
                rebuilt(m, at, reports, m.names.len()),
                #[trigger] m.names[i],
            ) == order_of(m, i).to_set(),
        forall|i: int|
            0 <= i < m.names.len() ==> parked(#[trigger] again[i], order_of(m, i)) == Seq::<
                WindowId,
            >::empty(),
        rebuilt(m, rebuilt(m, at, reports, m.names.len()), again, m.names.len()) == rebuilt(
            m,
            at,
            reports,
            m.names.len(),
        ),
{
    let n = m.names.len();
    let settled = rebuilt(m, at, reports, n);
    assert forall|i: int| 0 <= i < n implies attached_to(settled, #[trigger] m.names[i])
        == order_of(m, i).to_set() by {
        lemma_rebuilt_settles(m, at, reports, n, i);
    }
    lemma_rebuilt_again(m, settled, again, n);
}

} // verus!
