//! The rings at work on the window manager's own record of tags and
//! windows, a `penrose` stack set.
//!
//! Each function here reads what it needs from the stack set, lets the
//! functions of [`crate::events`] decide, and carries the commands out.
//! What is said of the stack set is said of what it holds, that is, which
//! windows are attached to which tag, and of its focus. It rests on the
//! contracts of the calls into `penrose` at the top of this file, which are
//! taken on trust.

use crate::events;
use crate::events::{commands_view, Command, CommandModel, RingEvent};
use crate::focus::{focus_move, labels_view, FocusTarget};
use crate::manager::{Rings, RingsModel};
use crate::rebuild::{lemma_order_members, lemma_own_plan, order_of};
use crate::ring::WindowId;
use crate::seqs::{lemma_push_contains, lemma_take_next};
use crate::sync::{all_to, hidden_label, lemma_parked_members, parked, plan_view};
use penrose::pure::StackSet;
use penrose::Xid;
use std::hash::Hash;
use vstd::prelude::*;

verus! {

/// `penrose::pure::StackSet`, the window manager's record of screens, tags
/// and windows. Nothing of its inside is known here.
#[verifier::external_type_specification]
#[verifier::external_body]
#[verifier::reject_recursive_types(C)]
pub struct ExStackSet<C: Clone + PartialEq + Eq + Hash>(StackSet<C>);

/// `penrose::Xid`, the handle of a window: a number in a wrapper.
#[verifier::external_type_specification]
#[verifier::external_body]
pub struct ExXid(Xid);

/// What the stack set holds: for the label of each of its tags, the windows
/// attached to that tag, in stack order; of two tags with one label, those
/// of the first.
pub uninterp spec fn attached(cs: StackSet<Xid>) -> Map<Seq<char>, Seq<WindowId>>;

/// The focus of each stack: for the label of each tag that has windows,
/// the window that has the focus within the tag's stack; of two tags with
/// one label, that of the first.
pub uninterp spec fn tag_focus(cs: StackSet<Xid>) -> Map<Seq<char>, WindowId>;

/// The labels of all tags of the stack set, those on a screen first.
pub uninterp spec fn tag_labels(cs: StackSet<Xid>) -> Seq<Seq<char>>;

/// The window that has the focus in the stack set, if any.
pub uninterp spec fn focused_client(cs: StackSet<Xid>) -> Option<WindowId>;

/// The label of the tag on the focused screen.
pub uninterp spec fn current_label(cs: StackSet<Xid>) -> Seq<char>;

/// The labels of the tags that are on a screen, in the order of the screens.
pub uninterp spec fn screen_labels(cs: StackSet<Xid>) -> Seq<Seq<char>>;

/// Whether no two tags of the stack set have the same label.
pub open spec fn apart(cs: StackSet<Xid>) -> bool {
    tag_labels(cs).no_duplicates()
}

/// Whether some tag holds the window `id`.
pub open spec fn held(at: Map<Seq<char>, Seq<WindowId>>, id: WindowId) -> bool {
    exists|l: Seq<char>| at.dom().contains(l) && #[trigger] at[l].contains(id)
}

/// Whether every window is held once: no tag holds a window twice, and no
/// two tags hold the same window.
pub open spec fn proper(at: Map<Seq<char>, Seq<WindowId>>) -> bool {
    &&& forall|l: Seq<char>| at.dom().contains(l) ==> (#[trigger] at[l]).no_duplicates()
    &&& forall|l1: Seq<char>, l2: Seq<char>, x: WindowId|
        at.dom().contains(l1) && at.dom().contains(l2) && l1 != l2 ==> !(
        #[trigger] at[l1].contains(x) && #[trigger] at[l2].contains(x))
}

/// Whether `after` is what a move of the window `id` to the tag `tag` can
/// make of `before`.
pub open spec fn moved(
    before: Map<Seq<char>, Seq<WindowId>>,
    after: Map<Seq<char>, Seq<WindowId>>,
    id: WindowId,
    tag: Seq<char>,
) -> bool {
    // the tags stay
    &&& after.dom() == before.dom()
    // every other window stays on its tag
    &&& forall|l: Seq<char>, x: WindowId|
        #![trigger after[l].contains(x)]
        before.dom().contains(l) && x != id ==> (after[l].contains(x) <==> before[l].contains(x))
    // without the tag, or without the window, nothing changes
    &&& !before.dom().contains(tag) || !held(before, id) ==> after == before
    // with both, the window is on the tag afterwards
    &&& before.dom().contains(tag) && held(before, id) ==> after[tag].contains(id)
    // where every window was held once, it still is, and the window is on no other tag
    &&& proper(before) ==> proper(after)
    &&& proper(before) && before.dom().contains(tag) && held(before, id) ==> forall|l: Seq<char>|
        before.dom().contains(l) && l != tag ==> !(#[trigger] after[l]).contains(id)
}

/// Whether `focus_after` is what a move of the window `id` to the tag
/// `tag` can make of the focus of each stack.
pub open spec fn landed(
    before: Map<Seq<char>, Seq<WindowId>>,
    focus_before: Map<Seq<char>, WindowId>,
    focus_after: Map<Seq<char>, WindowId>,
    id: WindowId,
    tag: Seq<char>,
) -> bool {
    // the window has the focus of the tag's stack
    &&& before.dom().contains(tag) && held(before, id) ==> focus_after.dom().contains(tag)
        && focus_after[tag] == id
    // the focus of every other stack that did not hold the window stays
    &&& forall|l: Seq<char>|
        #![trigger focus_after[l]]
        before.dom().contains(l) && l != tag && !before[l].contains(id)
            && focus_before.dom().contains(l) ==> focus_after.dom().contains(l) && focus_after[l]
            == focus_before[l]
}

/// Whether, of each of the first `i` tags of the rings that the stack set
/// has, the window attached last has the focus of the tag's stack, if the
/// stack set holds it.
pub open spec fn heads_upto(
    m: RingsModel,
    at: Map<Seq<char>, Seq<WindowId>>,
    focus: Map<Seq<char>, WindowId>,
    i: int,
) -> bool {
    forall|j: int|
        0 <= j < i && at.dom().contains(#[trigger] m.names[j]) && order_of(m, j).len() > 0 && held(
            at,
            order_of(m, j).last(),
        ) ==> focus.dom().contains(m.names[j]) && focus[m.names[j]] == order_of(m, j).last()
}

/// Whether the two hold the same tags and the same windows.
pub open spec fn same_holdings(
    a: Map<Seq<char>, Seq<WindowId>>,
    b: Map<Seq<char>, Seq<WindowId>>,
) -> bool {
    &&& a.dom() == b.dom()
    &&& forall|x: WindowId| held(a, x) <==> held(b, x)
}

/// Whether tag `j` of the rings, if the stack set has it, holds the windows
/// that it displays, as far as the stack set holds them, and no others.
pub open spec fn settled_tag(m: RingsModel, at: Map<Seq<char>, Seq<WindowId>>, j: int) -> bool {
    at.dom().contains(m.names[j]) ==> forall|x: WindowId|
        #[trigger] at[m.names[j]].contains(x) <==> order_of(m, j).contains(x) && held(at, x)
}

/// Whether the first `i` tags of the rings are settled.
pub open spec fn settled_upto(m: RingsModel, at: Map<Seq<char>, Seq<WindowId>>, i: int) -> bool {
    forall|j: int| 0 <= j < i ==> #[trigger] settled_tag(m, at, j)
}

/// Whether the stack set is in line with the rings: every tag of the rings
/// that it has holds the windows that the tag displays, as far as it holds
/// them, and no others.
pub open spec fn in_line(m: RingsModel, at: Map<Seq<char>, Seq<WindowId>>) -> bool {
    settled_upto(m, at, m.names.len() as int)
}

/// The label that follows `current` among the labels, the first one
/// following the last.
pub open spec fn next_label(labels: Seq<Seq<char>>, current: Seq<char>) -> Seq<char> {
    let at = labels.index_of(current);
    if at + 1 == labels.len() {
        labels[0]
    } else {
        labels[at + 1]
    }
}

/// Whether some tag of the rings displays the window `x`.
pub open spec fn displayed(m: RingsModel, x: WindowId) -> bool {
    exists|i: int| 0 <= i < m.names.len() && #[trigger] order_of(m, i).contains(x)
}

/// Whether every window that no tag displays, and that was on a tag that
/// is none of the rings', the hidden tag among them, is still on that tag.
pub open spec fn strangers_stay(
    m: RingsModel,
    before: Map<Seq<char>, Seq<WindowId>>,
    after: Map<Seq<char>, Seq<WindowId>>,
) -> bool {
    forall|l: Seq<char>, x: WindowId|
        before.dom().contains(l) && !m.names.contains(l) && !displayed(m, x)
            && #[trigger] before[l].contains(x) ==> after[l].contains(x)
}

/// Whether every window is held once and the hidden tag is there.
pub open spec fn sound(at: Map<Seq<char>, Seq<WindowId>>) -> bool {
    proper(at) && at.dom().contains(hidden_label())
}

/// `StackSet::workspaces`, with `Workspace::tag` on each: the labels of all
/// tags. The contract only names the result.
#[verifier::external_body]
fn all_tags(cs: &StackSet<Xid>) -> (r: Vec<String>)
    ensures
        labels_view(r@) == tag_labels(*cs),
{
    cs.workspaces().map(|ws| ws.tag().to_string()).collect()
}

/// `StackSet::current_client`: the focused window of the focused screen's
/// tag, handed out as a number. The contract only names the result.
#[verifier::external_body]
fn current_client(cs: &StackSet<Xid>) -> (r: Option<WindowId>)
    ensures
        r == focused_client(*cs),
{
    cs.current_client().map(|id| **id)
}

/// `StackSet::current_tag`: the label of the tag on the focused screen.
/// The contract only names the result.
#[verifier::external_body]
fn current_tag(cs: &StackSet<Xid>) -> (r: String)
    ensures
        r@ == current_label(*cs),
{
    cs.current_tag().to_string()
}

/// `StackSet::on_screen_workspaces`, with `Workspace::tag` on each: the
/// labels of the tags that are on a screen. The contract only names the
/// result.
#[verifier::external_body]
fn on_screen_tags(cs: &StackSet<Xid>) -> (r: Vec<String>)
    ensures
        labels_view(r@) == screen_labels(*cs),
{
    cs.on_screen_workspaces().map(|ws| ws.tag().to_string()).collect()
}

/// `StackSet::workspace` and `Workspace::clients`: the windows attached to
/// a tag, as numbers, or `None` when there is no such tag. The contract
/// only names the result.
#[verifier::external_body]
fn clients_on(cs: &StackSet<Xid>, tag: &str) -> (r: Option<Vec<WindowId>>)
    ensures
        match r {
            Some(v) => attached(*cs).dom().contains(tag@) && attached(*cs)[tag@] == v@,
            None => !attached(*cs).dom().contains(tag@),
        },
{
    cs.workspace(tag).map(|ws| ws.clients().map(|id| **id).collect())
}

/// `StackSet::move_client_to_tag`. It returns at once when no tag has the
/// label. Else it takes the window out of the first stack that holds it,
/// returns if there was none, and inserts it into the stack of the tag.
/// With the labels of the tags apart, so that each stack is the entry of
/// its label in [`attached`], the contract says of this what [`moved`]
/// lists: the tags stay; every other window stays on its tag; the window
/// ends on the tag if the stack set had both; and in a stack set that held
/// every window once, where the first stack to hold the window is the only
/// one, the window is then on no other tag. It inserts the window at the
/// focus of the tag's stack, and a stack that it does not take the window
/// from it leaves as it is: so the contract says what [`landed`] lists, that
/// the window has the focus of the tag's stack, and that the focus of every
/// other stack that did not hold the window stays.
#[verifier::external_body]
fn relocate(cs: &mut StackSet<Xid>, id: WindowId, tag: &str)
    requires
        apart(*old(cs)),
    ensures
        tag_labels(*final(cs)) == tag_labels(*old(cs)),
        moved(attached(*old(cs)), attached(*final(cs)), id, tag@),
        landed(attached(*old(cs)), tag_focus(*old(cs)), tag_focus(*final(cs)), id, tag@),
{
    cs.move_client_to_tag(&Xid::from(id), tag)
}

/// `StackSet::focus_client`. It focuses the tag of the first stack that
/// holds the window and then moves the focus within the focused stack until
/// it is on the window; of an unknown window it takes no note. With two
/// tags of one label the focused stack may be another than the one that
/// holds the window, and the search would not end: that is left out. Neither
/// step moves a window to another tag or place, nor changes a label, so the
/// contract says that the labels are still apart, that the stack set holds
/// what it held, and that a window it holds has the focus afterwards.
#[verifier::external_body]
fn focus_client(cs: &mut StackSet<Xid>, id: WindowId)
    requires
        apart(*old(cs)),
    ensures
        apart(*final(cs)),
        attached(*final(cs)) == attached(*old(cs)),
        held(attached(*old(cs)), id) ==> focused_client(*final(cs)) == Some(id),
{
    cs.focus_client(&Xid::from(id))
}

/// `StackSet::focus_tag`. It moves the focus to the screen that shows the
/// tag, or brings the tag to the focused screen; an unknown tag changes
/// nothing. The contract says that the labels are still apart, that the
/// stack set holds what it held, and that a tag it has is the one on the
/// focused screen afterwards.
#[verifier::external_body]
fn focus_tag(cs: &mut StackSet<Xid>, tag: &str)
    requires
        apart(*old(cs)),
    ensures
        apart(*final(cs)),
        attached(*final(cs)) == attached(*old(cs)),
        attached(*old(cs)).dom().contains(tag@) ==> current_label(*final(cs)) == tag@,
{
    cs.focus_tag(tag)
}

/// `StackSet::next_screen`. With one screen it returns at once; else it
/// moves the focus of the screens one down, from the last to the first,
/// which keeps their order. The contract says that the labels are still
/// apart, that the stack set holds what it held, that the tags on screen
/// are the same in the same order, and that the tag on the focused screen
/// is then the one that followed it in that order.
#[verifier::external_body]
fn next_screen(cs: &mut StackSet<Xid>)
    requires
        apart(*old(cs)),
    ensures
        apart(*final(cs)),
        attached(*final(cs)) == attached(*old(cs)),
        screen_labels(*final(cs)) == screen_labels(*old(cs)),
        current_label(*final(cs)) == next_label(
            screen_labels(*old(cs)),
            current_label(*old(cs)),
        ),
{
    cs.next_screen()
}

/// Whether no label occurs twice in the list.
fn distinct(labels: &Vec<String>) -> (r: bool)
    ensures
        r == labels_view(labels@).no_duplicates(),
{
    let ghost views = labels_view(labels@);
    let mut i: usize = 0;
    while i < labels.len()
        invariant
            i <= labels.len(),
            views == labels_view(labels@),
            forall|a: int, b: int| 0 <= a < i && 0 <= b < a ==> views[a] != views[b],
        decreases labels.len() - i,
    {
        let mut j: usize = 0;
        while j < i
            invariant
                j <= i,
                i < labels.len(),
                views == labels_view(labels@),
                forall|b: int| 0 <= b < j ==> views[i as int] != views[b],
            decreases i - j,
        {
            if labels[i] == labels[j] {
                assert(views[i as int] == views[j as int]);
                return false;
            }
            j += 1;
        }
        i += 1;
    }
    assert forall|a: int, b: int| 0 <= a < views.len() && 0 <= b < views.len() && a
        != b implies views[a] != views[b] by {
        if b < a {
            assert(views[a] != views[b]);
        } else {
            assert(views[b] != views[a]);
        }
    }
    true
}

/// Whether no two tags of the stack set have the same label.
pub fn tags_apart(cs: &StackSet<Xid>) -> (r: bool)
    ensures
        r == apart(*cs),
{
    let labels = all_tags(cs);
    distinct(&labels)
}

/// A move keeps the tags and the windows that are held.
pub proof fn lemma_moved_holdings(
    before: Map<Seq<char>, Seq<WindowId>>,
    after: Map<Seq<char>, Seq<WindowId>>,
    id: WindowId,
    tag: Seq<char>,
)
    requires
        moved(before, after, id, tag),
    ensures
        same_holdings(before, after),
{
    assert forall|x: WindowId| held(before, x) <==> held(after, x) by {
        if before.dom().contains(tag) && held(before, id) {
            if x == id {
                assert(after[tag].contains(id));
            } else {
                if held(before, x) {
                    let l = choose|l: Seq<char>|
                        before.dom().contains(l) && #[trigger] before[l].contains(x);
                    assert(after[l].contains(x));
                }
                if held(after, x) {
                    let l = choose|l: Seq<char>|
                        after.dom().contains(l) && #[trigger] after[l].contains(x);
                    assert(after[l].contains(x));
                    assert(before[l].contains(x));
                }
            }
        }
    }
}

/// What tag `label` holds of window `x` in the middle of its turn, `k`
/// relocations of its plan being done: what it held at the start, less the
/// windows parked so far, and the windows attached so far.
spec fn turn_holds(
    list: Seq<WindowId>,
    now: Map<Seq<char>, Seq<WindowId>>,
    aside: Seq<WindowId>,
    order: Seq<WindowId>,
    k: int,
    x: WindowId,
) -> bool {
    let parks = if k <= aside.len() {
        k
    } else {
        aside.len() as int
    };
    let attaches = if k <= aside.len() {
        0
    } else {
        k - aside.len()
    };
    (list.contains(x) && !aside.take(parks).contains(x)) || (order.take(attaches).contains(x)
        && held(now, x))
}

spec fn in_turn(
    list: Seq<WindowId>,
    now: Map<Seq<char>, Seq<WindowId>>,
    label: Seq<char>,
    aside: Seq<WindowId>,
    order: Seq<WindowId>,
    k: int,
) -> bool {
    forall|x: WindowId| #[trigger]
        now[label].contains(x) <==> turn_holds(list, now, aside, order, k, x)
}

/// The window and the tag of relocation `k` of the plan for a tag.
spec fn step_id(aside: Seq<WindowId>, order: Seq<WindowId>, k: int) -> WindowId {
    if k < aside.len() {
        aside[k]
    } else {
        order[k - aside.len()]
    }
}

spec fn step_tag(aside: Seq<WindowId>, label: Seq<char>, k: int) -> Seq<char> {
    if k < aside.len() {
        hidden_label()
    } else {
        label
    }
}

/// One relocation of a tag's plan keeps the earlier tags settled and takes
/// the tag one step further in its turn.
proof fn lemma_turn_step(
    m: RingsModel,
    i: int,
    begin: Map<Seq<char>, Seq<WindowId>>,
    before: Map<Seq<char>, Seq<WindowId>>,
    after: Map<Seq<char>, Seq<WindowId>>,
    k: int,
)
    requires
        m.wf(),
        0 <= i < m.names.len(),
        begin.dom().contains(m.names[i]),
        proper(begin),
        settled_upto(m, begin, i),
        same_holdings(begin, before),
        sound(before),
        0 <= k < parked(begin[m.names[i]], order_of(m, i)).len() + order_of(m, i).len(),
        settled_upto(m, before, i),
        in_turn(
            begin[m.names[i]],
            before,
            m.names[i],
            parked(begin[m.names[i]], order_of(m, i)),
            order_of(m, i),
            k,
        ),
        moved(
            before,
            after,
            step_id(parked(begin[m.names[i]], order_of(m, i)), order_of(m, i), k),
            step_tag(parked(begin[m.names[i]], order_of(m, i)), m.names[i], k),
        ),
    ensures
        settled_upto(m, after, i),
        in_turn(
            begin[m.names[i]],
            after,
            m.names[i],
            parked(begin[m.names[i]], order_of(m, i)),
            order_of(m, i),
            k + 1,
        ),
{
    let label = m.names[i];
    let list = begin[label];
    let order = order_of(m, i);
    let aside = parked(list, order);
    let id = step_id(aside, order, k);
    let tag = step_tag(aside, label, k);
    lemma_moved_holdings(before, after, id, tag);
    lemma_parked_members(list, order);
    lemma_own_plan(m, i, list);
    assert(label != hidden_label());
    if k < aside.len() {
        assert(aside.contains(id));
        assert(list.contains(id));
        assert(held(begin, id));
    } else {
        assert(order.contains(id));
    }
    assert forall|x: WindowId| #[trigger]
        after[label].contains(x) <==> turn_holds(list, after, aside, order, k + 1, x) by {
        assert(before[label].contains(x) <==> turn_holds(list, before, aside, order, k, x));
        if k < aside.len() {
            lemma_take_next(aside, k, x);
            assert(order.take(0) =~= Seq::<WindowId>::empty());
        } else {
            lemma_take_next(order, k - aside.len(), x);
            assert(aside.take(aside.len() as int) =~= aside);
        }
        if x != id {
            assert(after[label].contains(x) <==> before[label].contains(x));
        } else if k < aside.len() {
            assert(!after[label].contains(id));
        } else if held(before, id) {
            assert(after[label].contains(id));
        } else {
            assert(after == before);
        }
    }
    assert forall|j: int| 0 <= j < i implies #[trigger] settled_tag(m, after, j) by {
        assert(settled_tag(m, before, j));
        assert(settled_tag(m, begin, j));
        let other = m.names[j];
        if after.dom().contains(other) {
            assert(other != label);
            assert(other != hidden_label()) by {
                assert(m.names.contains(other));
            }
            assert forall|x: WindowId| #[trigger]
                after[other].contains(x) <==> order_of(m, j).contains(x) && held(after, x) by {
                assert(before[other].contains(x) <==> order_of(m, j).contains(x) && held(
                    before,
                    x,
                ));
                if x != id {
                    assert(after[other].contains(x) <==> before[other].contains(x));
                } else if !held(before, id) {
                    assert(after == before);
                } else {
                    assert(!after[other].contains(id));
                    if k < aside.len() {
                        assert(begin[label].contains(id));
                        assert(!begin[other].contains(id));
                        assert(begin[other].contains(id) <==> order_of(m, j).contains(id) && held(
                            begin,
                            id,
                        ));
                    } else {
                        lemma_order_members(m, i, id);
                        if order_of(m, j).contains(id) {
                            lemma_order_members(m, j, id);
                        }
                    }
                }
            }
        }
    }
}

/// One relocation of a tag's plan leaves every window where it is that no
/// tag displays and that was on a tag that is none of the rings'.
proof fn lemma_stranger_step(
    m: RingsModel,
    i: int,
    start: Map<Seq<char>, Seq<WindowId>>,
    begin: Map<Seq<char>, Seq<WindowId>>,
    before: Map<Seq<char>, Seq<WindowId>>,
    after: Map<Seq<char>, Seq<WindowId>>,
    k: int,
)
    requires
        m.wf(),
        0 <= i < m.names.len(),
        begin.dom().contains(m.names[i]),
        proper(begin),
        same_holdings(start, begin),
        same_holdings(start, before),
        strangers_stay(m, start, begin),
        strangers_stay(m, start, before),
        0 <= k < parked(begin[m.names[i]], order_of(m, i)).len() + order_of(m, i).len(),
        moved(
            before,
            after,
            step_id(parked(begin[m.names[i]], order_of(m, i)), order_of(m, i), k),
            step_tag(parked(begin[m.names[i]], order_of(m, i)), m.names[i], k),
        ),
    ensures
        strangers_stay(m, start, after),
{
    let label = m.names[i];
    let list = begin[label];
    let order = order_of(m, i);
    let aside = parked(list, order);
    let id = step_id(aside, order, k);
    lemma_parked_members(list, order);
    assert(m.names.contains(label));
    assert forall|l: Seq<char>, x: WindowId|
        start.dom().contains(l) && !m.names.contains(l) && !displayed(m, x)
            && #[trigger] start[l].contains(x) implies after[l].contains(x) by {
        assert(before[l].contains(x));
        assert(begin[l].contains(x));
        if x == id {
            if k < aside.len() {
                assert(aside.contains(id));
                assert(begin[label].contains(x));
                assert(l != label);
            } else {
                assert(order.contains(id));
                assert(order_of(m, i).contains(x));
            }
        } else {
            assert(after[l].contains(x) <==> before[l].contains(x));
        }
    }
}

/// One relocation of a tag's plan leaves the focus of the stacks of the
/// earlier tags as it is, and an attached window has the focus of the
/// tag's stack.
proof fn lemma_head_step(
    m: RingsModel,
    i: int,
    start: Map<Seq<char>, Seq<WindowId>>,
    begin: Map<Seq<char>, Seq<WindowId>>,
    before: Map<Seq<char>, Seq<WindowId>>,
    after: Map<Seq<char>, Seq<WindowId>>,
    focus_before: Map<Seq<char>, WindowId>,
    focus_after: Map<Seq<char>, WindowId>,
    k: int,
)
    requires
        m.wf(),
        0 <= i < m.names.len(),
        begin.dom().contains(m.names[i]),
        proper(begin),
        settled_upto(m, begin, i),
        same_holdings(start, begin),
        same_holdings(start, before),
        settled_upto(m, before, i),
        0 <= k < parked(begin[m.names[i]], order_of(m, i)).len() + order_of(m, i).len(),
        heads_upto(m, start, focus_before, i),
        landed(
            before,
            focus_before,
            focus_after,
            step_id(parked(begin[m.names[i]], order_of(m, i)), order_of(m, i), k),
            step_tag(parked(begin[m.names[i]], order_of(m, i)), m.names[i], k),
        ),
    ensures
        heads_upto(m, start, focus_after, i),
        k >= parked(begin[m.names[i]], order_of(m, i)).len() && held(
            start,
            step_id(parked(begin[m.names[i]], order_of(m, i)), order_of(m, i), k),
        ) ==> focus_after.dom().contains(m.names[i]) && focus_after[m.names[i]] == step_id(
            parked(begin[m.names[i]], order_of(m, i)),
            order_of(m, i),
            k,
        ),
{
    let label = m.names[i];
    let list = begin[label];
    let order = order_of(m, i);
    let aside = parked(list, order);
    let id = step_id(aside, order, k);
    let tag = step_tag(aside, label, k);
    lemma_parked_members(list, order);
    lemma_own_plan(m, i, list);
    assert(m.names.contains(label));
    assert forall|j: int|
        0 <= j < i && start.dom().contains(#[trigger] m.names[j]) && order_of(m, j).len() > 0
            && held(start, order_of(m, j).last()) implies focus_after.dom().contains(m.names[j])
        && focus_after[m.names[j]] == order_of(m, j).last() by {
        let other = m.names[j];
        assert(m.names.contains(other));
        assert(other != label);
        assert(other != tag);
        assert(settled_tag(m, before, j));
        assert(settled_tag(m, begin, j));
        assert(focus_before.dom().contains(other));
        if k < aside.len() {
            assert(aside.contains(id));
            assert(begin[label].contains(id));
            assert(held(begin, id));
            assert(!begin[other].contains(id));
            assert(begin[other].contains(id) <==> order_of(m, j).contains(id) && held(begin, id));
        } else {
            assert(order.contains(id));
            lemma_order_members(m, i, id);
            if order_of(m, j).contains(id) {
                lemma_order_members(m, j, id);
            }
        }
        assert(before[other].contains(id) <==> order_of(m, j).contains(id) && held(before, id));
        assert(!before[other].contains(id));
        assert(focus_after[other] == focus_before[other]);
    }
}

/// When all relocations of a tag's plan are done, the tag is settled.
proof fn lemma_turn_done(
    m: RingsModel,
    i: int,
    begin: Map<Seq<char>, Seq<WindowId>>,
    now: Map<Seq<char>, Seq<WindowId>>,
)
    requires
        m.wf(),
        0 <= i < m.names.len(),
        begin.dom().contains(m.names[i]),
        same_holdings(begin, now),
        settled_upto(m, now, i),
        in_turn(
            begin[m.names[i]],
            now,
            m.names[i],
            parked(begin[m.names[i]], order_of(m, i)),
            order_of(m, i),
            (parked(begin[m.names[i]], order_of(m, i)).len() + order_of(m, i).len()) as int,
        ),
    ensures
        settled_upto(m, now, i + 1),
{
    let label = m.names[i];
    let list = begin[label];
    let order = order_of(m, i);
    let aside = parked(list, order);
    let k = (aside.len() + order.len()) as int;
    lemma_parked_members(list, order);
    assert(aside.take(aside.len() as int) =~= aside);
    assert(order.take(order.len() as int) =~= order);
    assert forall|x: WindowId| #[trigger]
        now[label].contains(x) <==> order.contains(x) && held(now, x) by {
        assert(now[label].contains(x) <==> turn_holds(list, now, aside, order, k, x));
        if list.contains(x) {
            assert(held(begin, x));
        }
    }
    assert(settled_tag(m, now, i));
    assert forall|j: int| 0 <= j < i + 1 implies #[trigger] settled_tag(m, now, j) by {
        if j < i {
            assert(settled_tag(m, now, j));
        }
    }
}

/// Brings every tag of the stack set in line with what the rings display:
/// tag by tag, in the order of the tags, the relocations of
/// [`Rings::sync_tag`] for the windows then attached to the tag. A tag that
/// the stack set does not have is passed over. A stack set with two tags of
/// one label is left as it is.
///
/// The stack set keeps its tags and its windows. If it held every window
/// once and has the hidden tag, then afterwards every tag of the rings that
/// it has holds the windows that the tag displays, as far as the stack set
/// holds them, and no others.
pub fn rebuild(rings: &Rings, cs: &mut StackSet<Xid>)
    requires
        rings.wf(),
    ensures
        apart(*old(cs)) ==> brought_in_line(rings@, *old(cs), *final(cs)),
        !apart(*old(cs)) ==> *final(cs) == *old(cs),
{
    if tags_apart(cs) {
        rebuild_tags(rings, cs);
    }
}

/// What a rebuild makes of a stack set with the labels of its tags apart.
pub open spec fn brought_in_line(
    m: RingsModel,
    before: StackSet<Xid>,
    after: StackSet<Xid>,
) -> bool {
    &&& apart(after)
    &&& same_holdings(attached(before), attached(after))
    &&& proper(attached(before)) ==> proper(attached(after))
    &&& sound(attached(before)) ==> in_line(m, attached(after))
    &&& sound(attached(before)) ==> strangers_stay(m, attached(before), attached(after))
    &&& sound(attached(before)) ==> heads_upto(
        m,
        attached(before),
        tag_focus(after),
        m.names.len() as int,
    )
}

fn rebuild_tags(rings: &Rings, cs: &mut StackSet<Xid>)
    requires
        rings.wf(),
        apart(*old(cs)),
    ensures
        brought_in_line(rings@, *old(cs), *final(cs)),
{
    let ghost start = attached(*cs);
    let n = rings.tag_count();
    let mut i: usize = 0;
    while i < n
        invariant
            rings.wf(),
            n == rings@.names.len(),
            i <= n,
            apart(*cs),
            same_holdings(start, attached(*cs)),
            proper(start) ==> proper(attached(*cs)),
            sound(start) ==> settled_upto(rings@, attached(*cs), i as int),
            sound(start) ==> strangers_stay(rings@, start, attached(*cs)),
            sound(start) ==> heads_upto(rings@, start, tag_focus(*cs), i as int),
        decreases n - i,
    {
        let label = rings.tag_label(i);
        if let Some(list) = clients_on(cs, label.as_str()) {
            let plan = rings.sync_tag(label.as_str(), &list);
            let ghost begin = attached(*cs);
            let ghost order = order_of(rings@, i as int);
            let ghost aside = parked(list@, order);
            proof {
                lemma_own_plan(rings@, i as int, list@);
                assert(plan_view(plan@).len() == aside.len() + order.len());
                if sound(start) {
                    assert(aside.take(0) =~= Seq::<WindowId>::empty());
                    assert(order.take(0) =~= Seq::<WindowId>::empty());
                    assert(in_turn(list@, begin, label@, aside, order, 0));
                }
            }
            let mut k: usize = 0;
            while k < plan.len()
                invariant
                    rings.wf(),
                    i < n,
                    n == rings@.names.len(),
                    k <= plan.len(),
                    apart(*cs),
                    label@ == rings@.names[i as int],
                    begin.dom().contains(label@),
                    list@ == begin[label@],
                    order == order_of(rings@, i as int),
                    aside == parked(list@, order),
                    plan_view(plan@) == all_to(aside, hidden_label()) + all_to(order, label@),
                    same_holdings(start, begin),
                    same_holdings(start, attached(*cs)),
                    proper(start) ==> proper(begin) && proper(attached(*cs)),
                    sound(start) ==> settled_upto(rings@, begin, i as int),
                    sound(start) ==> settled_upto(rings@, attached(*cs), i as int),
                    sound(start) ==> in_turn(list@, attached(*cs), label@, aside, order, k as int),
                    sound(start) ==> strangers_stay(rings@, start, begin),
                    sound(start) ==> strangers_stay(rings@, start, attached(*cs)),
                    sound(start) ==> heads_upto(rings@, start, tag_focus(*cs), i as int),
                    sound(start) && k > aside.len() && held(start, order[k - 1 - aside.len()])
                        ==> tag_focus(*cs).dom().contains(label@) && tag_focus(*cs)[label@]
                        == order[k - 1 - aside.len()],
                decreases plan.len() - k,
            {
                let ghost before = attached(*cs);
                let ghost focus_before = tag_focus(*cs);
                proof {
                    let step = plan_view(plan@)[k as int];
                    let parks = all_to(aside, hidden_label());
                    let attaches = all_to(order, label@);
                    assert(step == plan@[k as int]@);
                    assert(parks.len() == aside.len());
                    assert(attaches.len() == order.len());
                    assert(plan_view(plan@).len() == plan@.len());
                    assert((parks + attaches).len() == parks.len() + attaches.len());
                    if k < aside.len() {
                        assert((parks + attaches)[k as int] == parks[k as int]);
                    } else {
                        assert((parks + attaches)[k as int] == attaches[k - parks.len()]);
                    }
                    assert(step.id == step_id(aside, order, k as int));
                    assert(step.tag == step_tag(aside, label@, k as int));
                }
                relocate(cs, plan[k].id, plan[k].tag.as_str());
                proof {
                    let after = attached(*cs);
                    lemma_moved_holdings(
                        before,
                        after,
                        step_id(aside, order, k as int),
                        step_tag(aside, label@, k as int),
                    );
                    if sound(start) {
                        lemma_turn_step(rings@, i as int, begin, before, after, k as int);
                        lemma_stranger_step(
                            rings@,
                            i as int,
                            start,
                            begin,
                            before,
                            after,
                            k as int,
                        );
                        lemma_head_step(
                            rings@,
                            i as int,
                            start,
                            begin,
                            before,
                            after,
                            focus_before,
                            tag_focus(*cs),
                            k as int,
                        );
                    }
                }
                k += 1;
            }
            proof {
                if sound(start) {
                    lemma_turn_done(rings@, i as int, begin, attached(*cs));
                    assert(heads_upto(rings@, start, tag_focus(*cs), i + 1)) by {
                        if order.len() > 0 {
                            assert(order[plan.len() - 1 - aside.len()] == order.last());
                        }
                    }
                }
            }
        } else {
            proof {
                let now = attached(*cs);
                if sound(start) {
                    assert(settled_tag(rings@, now, i as int));
                    assert forall|j: int| 0 <= j < i + 1 implies #[trigger] settled_tag(
                        rings@,
                        now,
                        j,
                    ) by {
                        if j < i {
                            assert(settled_tag(rings@, now, j));
                        }
                    }
                }
            }
        }
        i += 1;
    }
}

/// Whether the commands end with the tags rebuilt: they hold a rebuild,
/// and no relocation after the last one.
pub open spec fn settles(commands: Seq<CommandModel>) -> bool
    decreases commands.len(),
{
    if commands.len() == 0 {
        false
    } else {
        match commands.last() {
            CommandModel::Rebuild => true,
            CommandModel::Relocate { .. } => false,
            _ => settles(commands.drop_last()),
        }
    }
}

/// The window that the commands leave focused: the one of their last
/// focus command, if no other change of focus follows it.
pub open spec fn focus_goal(commands: Seq<CommandModel>) -> Option<WindowId>
    decreases commands.len(),
{
    if commands.len() == 0 {
        None
    } else {
        match commands.last() {
            CommandModel::Focus(id) => Some(id),
            CommandModel::Refresh => focus_goal(commands.drop_last()),
            _ => None,
        }
    }
}

/// Whether the commands ask for a new layout and nothing else; no command
/// at all is such a list.
pub open spec fn only_refresh(commands: Seq<CommandModel>) -> bool
    decreases commands.len(),
{
    commands.len() == 0 || (commands.last() == CommandModel::Refresh && only_refresh(
        commands.drop_last(),
    ))
}

/// Whether the commands move no window: they hold no relocation and no rebuild.
pub open spec fn keeps_windows(commands: Seq<CommandModel>) -> bool
    decreases commands.len(),
{
    if commands.len() == 0 {
        true
    } else {
        match commands.last() {
            CommandModel::Rebuild => false,
            CommandModel::Relocate { .. } => false,
            _ => keeps_windows(commands.drop_last()),
        }
    }
}

/// The tag that the commands leave focused: the one of their last command
/// to focus a tag, if no other change of focus follows it.
pub open spec fn tag_goal(commands: Seq<CommandModel>) -> Option<Seq<char>>
    decreases commands.len(),
{
    if commands.len() == 0 {
        None
    } else {
        match commands.last() {
            CommandModel::FocusTag(label) => Some(label),
            CommandModel::Refresh => tag_goal(commands.drop_last()),
            _ => None,
        }
    }
}

/// The edge at which the commands arrive on the next screen: that of their
/// one command to go there, if they hold nothing else but requests for a
/// new layout.
pub open spec fn screen_goal(commands: Seq<CommandModel>) -> Option<bool>
    decreases commands.len(),
{
    if commands.len() == 0 {
        None
    } else {
        match commands.last() {
            CommandModel::NextScreen { left_edge } => if only_refresh(commands.drop_last()) {
                Some(left_edge)
            } else {
                None
            },
            CommandModel::Refresh => screen_goal(commands.drop_last()),
            _ => None,
        }
    }
}

/// The one relocation of the commands, if they hold one and no other, and
/// no rebuild: its window and its tag.
pub open spec fn move_goal(commands: Seq<CommandModel>) -> Option<(WindowId, Seq<char>)>
    decreases commands.len(),
{
    if commands.len() == 0 {
        None
    } else {
        match commands.last() {
            CommandModel::Relocate { id, tag } => if keeps_windows(commands.drop_last()) {
                Some((id, tag))
            } else {
                None
            },
            CommandModel::Rebuild => None,
            _ => move_goal(commands.drop_last()),
        }
    }
}

/// What going to the next screen makes of the focus. The tag on the
/// focused screen is then the one that followed it among the tags on
/// screen. The cursor at the given edge of that tag has the focus, if the
/// stack set holds it; where the tag has no window, the focus is on the tag.
pub open spec fn arrived(
    m: RingsModel,
    before: StackSet<Xid>,
    after: StackSet<Xid>,
    left_edge: bool,
) -> bool {
    let label = next_label(screen_labels(before), current_label(before));
    match m.edge_cursor(left_edge, label) {
        Some(x) => held(attached(before), x) ==> focused_client(after) == Some(x),
        None => current_label(after) == label,
    }
}

/// What carrying out `commands` for the rings `m` makes of a stack set.
/// A stack set with two tags of one label is left as it is, and no new
/// layout is due. Else a new layout is due if the commands ask for one, and
/// the stack set keeps its tags and its windows. If it held every window
/// once and has the hidden tag, and the commands end with the tags
/// rebuilt, it is in line with the rings afterwards. A window that the
/// commands leave focused has the focus if the stack set holds it.
pub open spec fn carried(
    m: RingsModel,
    commands: Seq<CommandModel>,
    before: StackSet<Xid>,
    after: StackSet<Xid>,
    refresh: bool,
) -> bool {
    if apart(before) {
        carried_apart(m, commands, before, after, refresh)
    } else {
        after == before && !refresh
    }
}

/// What carrying out `commands` makes of a stack set with the labels of
/// its tags apart.
pub open spec fn carried_apart(
    m: RingsModel,
    commands: Seq<CommandModel>,
    before: StackSet<Xid>,
    after: StackSet<Xid>,
    refresh: bool,
) -> bool {
    &&& apart(after)
    &&& refresh == commands.contains(CommandModel::Refresh)
    &&& same_holdings(attached(before), attached(after))
    &&& proper(attached(before)) ==> proper(attached(after))
    &&& sound(attached(before)) && settles(commands) ==> in_line(m, attached(after))
    &&& match focus_goal(commands) {
        Some(id) => held(attached(before), id) ==> focused_client(after) == Some(id),
        None => true,
    }
    &&& match tag_goal(commands) {
        Some(label) => attached(before).dom().contains(label) ==> current_label(after) == label,
        None => true,
    }
    &&& match screen_goal(commands) {
        Some(left_edge) => arrived(m, before, after, left_edge),
        None => true,
    }
    &&& match move_goal(commands) {
        Some(r) => moved(attached(before), attached(after), r.0, r.1),
        None => true,
    }
    &&& only_refresh(commands) ==> after == before
}

/// Carries the commands out on the stack set, first to last, and says
/// whether a new layout was asked for, which is left to the caller.
pub fn carry_out(rings: &Rings, cs: &mut StackSet<Xid>, commands: &Vec<Command>) -> (refresh: bool)
    requires
        rings.wf(),
    ensures
        carried(rings@, commands_view(commands@), *old(cs), *final(cs), refresh),
{
    if tags_apart(cs) {
        carry_out_apart(rings, cs, commands)
    } else {
        false
    }
}

fn carry_out_apart(rings: &Rings, cs: &mut StackSet<Xid>, commands: &Vec<Command>) -> (refresh:
    bool)
    requires
        rings.wf(),
        apart(*old(cs)),
    ensures
        carried_apart(rings@, commands_view(commands@), *old(cs), *final(cs), refresh),
{
    let ghost first = *cs;
    let ghost start = attached(*cs);
    let ghost all = commands_view(commands@);
    let mut refresh = false;
    let mut i: usize = 0;
    while i < commands.len()
        invariant
            rings.wf(),
            i <= commands.len(),
            apart(*cs),
            all == commands_view(commands@),
            start == attached(first),
            refresh == all.take(i as int).contains(CommandModel::Refresh),
            same_holdings(start, attached(*cs)),
            proper(start) ==> proper(attached(*cs)),
            sound(start) && settles(all.take(i as int)) ==> in_line(rings@, attached(*cs)),
            match focus_goal(all.take(i as int)) {
                Some(id) => held(start, id) ==> focused_client(*cs) == Some(id),
                None => true,
            },
            match tag_goal(all.take(i as int)) {
                Some(label) => start.dom().contains(label) ==> current_label(*cs) == label,
                None => true,
            },
            match screen_goal(all.take(i as int)) {
                Some(left_edge) => arrived(rings@, first, *cs, left_edge),
                None => true,
            },
            match move_goal(all.take(i as int)) {
                Some(r) => moved(start, attached(*cs), r.0, r.1),
                None => true,
            },
            keeps_windows(all.take(i as int)) ==> attached(*cs) == start,
            only_refresh(all.take(i as int)) ==> *cs == first,
        decreases commands.len() - i,
    {
        proof {
            assert(all.take(i as int + 1) =~= all.take(i as int).push(all[i as int]));
            assert(all.take(i as int + 1).drop_last() =~= all.take(i as int));
            lemma_push_contains(all.take(i as int), all[i as int]);
            assert(all[i as int] == commands@[i as int]@);
        }
        let ghost before = attached(*cs);
        match &commands[i] {
            Command::Relocate { id, tag } => {
                relocate(cs, *id, tag.as_str());
                proof {
                    lemma_moved_holdings(before, attached(*cs), *id, tag@);
                }
            },
            Command::Rebuild => {
                rebuild_tags(rings, cs);
            },
            Command::Focus(id) => {
                focus_client(cs, *id);
            },
            Command::FocusTag(label) => {
                focus_tag(cs, label.as_str());
            },
            Command::NextScreen { left_edge } => {
                next_screen(cs);
                let tag = current_tag(cs);
                if let Some(id) = rings.get_left_or_right_or_only(*left_edge, tag.as_str()) {
                    focus_client(cs, id);
                }
            },
            Command::Refresh => {
                refresh = true;
            },
        }
        i += 1;
    }
    proof {
        assert(all.take(commands.len() as int) =~= all);
    }
    refresh
}

/// A new window arrives: it is taken into the tag on the focused screen
/// and gets the focus.
pub fn rings_manage(rings: &mut Rings, cs: &mut StackSet<Xid>, id: WindowId)
    requires
        old(rings).wf(),
    ensures
        final(rings).wf(),
        final(rings)@ == events::managed(old(rings)@, id, current_label(*old(cs))),
        carried(
            final(rings)@,
            events::manage_commands(old(rings)@, id),
            *old(cs),
            *final(cs),
            false,
        ),
{
    let tag = current_tag(cs);
    let commands = events::manage(rings, id, tag.as_str());
    let refresh = carry_out(rings, cs, &commands);
    proof {
        let c = events::manage_commands(old(rings)@, id);
        if c.contains(CommandModel::Refresh) {
            let i = choose|i: int| 0 <= i < c.len() && c[i] == CommandModel::Refresh;
        }
    }
}

/// Notes which window has the focus in the stack set.
pub fn rings_refresh(rings: &mut Rings, cs: &StackSet<Xid>)
    requires
        old(rings).wf(),
    ensures
        final(rings).wf(),
        final(rings)@ == (RingsModel { last_focus: focused_client(*cs), ..old(rings)@ }),
{
    events::refresh(rings, current_client(cs));
}

/// Takes note of an event and says whether a new layout is due.
pub fn rings_event(rings: &mut Rings, cs: &mut StackSet<Xid>, event: RingEvent) -> (refresh: bool)
    requires
        old(rings).wf(),
    ensures
        final(rings).wf(),
        final(rings)@ == events::event_taken(old(rings)@, event),
        carried(
            final(rings)@,
            events::event_commands(old(rings)@, event),
            *old(cs),
            *final(cs),
            refresh,
        ),
{
    let commands = events::event(rings, event);
    carry_out(rings, cs, &commands)
}

/// Moves the focus one column to the left or the right and says whether a
/// new layout is due.
pub fn move_focus(rings: &Rings, cs: &mut StackSet<Xid>, left: bool) -> (refresh: bool)
    requires
        rings.wf(),
    ensures
        carried(
            rings@,
            events::move_focus_commands(
                rings@,
                left,
                focused_client(*old(cs)),
                screen_labels(*old(cs)),
            ),
            *old(cs),
            *final(cs),
            refresh,
        ),
{
    let labels = on_screen_tags(cs);
    let focused = current_client(cs);
    let commands = events::move_focus(rings, left, focused, &labels);
    carry_out(rings, cs, &commands)
}

/// Rotates the column that shows the focused window and says whether a new
/// layout is due.
pub fn ring_rotate(rings: &mut Rings, cs: &mut StackSet<Xid>, right: bool) -> (refresh: bool)
    requires
        old(rings).wf(),
    ensures
        final(rings).wf(),
        final(rings)@ == events::rotation_taken(
            old(rings)@,
            focused_client(*old(cs)),
            current_label(*old(cs)),
            right,
        ),
        carried(
            final(rings)@,
            events::rotation_commands(
                old(rings)@,
                focused_client(*old(cs)),
                current_label(*old(cs)),
                right,
            ),
            *old(cs),
            *final(cs),
            refresh,
        ),
{
    let tag = current_tag(cs);
    let focused = current_client(cs);
    let commands = events::rotate(rings, focused, tag.as_str(), right);
    carry_out(rings, cs, &commands)
}

/// Exchanges the columns of the tag on the focused screen and says whether
/// a new layout is due.
pub fn swap_cols(rings: &mut Rings, cs: &mut StackSet<Xid>) -> (refresh: bool)
    requires
        old(rings).wf(),
    ensures
        final(rings).wf(),
        final(rings)@ == old(rings)@.columns_swapped(current_label(*old(cs))),
        carried(
            final(rings)@,
            events::swap_columns_commands(
                old(rings)@,
                focused_client(*old(cs)),
                current_label(*old(cs)),
            ),
            *old(cs),
            *final(cs),
            refresh,
        ),
{
    let tag = current_tag(cs);
    let focused = current_client(cs);
    let commands = events::swap_columns(rings, focused, tag.as_str());
    carry_out(rings, cs, &commands)
}

/// Moves the focused window one place within its column.
pub fn swap_ring(rings: &mut Rings, cs: &StackSet<Xid>, right: bool)
    requires
        old(rings).wf(),
    ensures
        final(rings).wf(),
        final(rings)@ == old(rings)@.ring_swapped(focused_client(*cs), current_label(*cs), right),
{
    let tag = current_tag(cs);
    let focused = current_client(cs);
    rings.swap_ring(focused, tag.as_str(), right);
}

/// Toggles the scratchpad on the tag of the focused screen and says whether
/// a new layout is due.
pub fn toggle_scratchpad(rings: &mut Rings, cs: &mut StackSet<Xid>) -> (refresh: bool)
    requires
        old(rings).wf(),
    ensures
        final(rings).wf(),
        final(rings)@ == events::scratchpad_toggled(
            old(rings)@,
            focused_client(*old(cs)),
            current_label(*old(cs)),
        ),
        carried(
            final(rings)@,
            events::toggle_commands(old(rings)@, focused_client(*old(cs))),
            *old(cs),
            *final(cs),
            refresh,
        ),
{
    let tag = current_tag(cs);
    let focused = current_client(cs);
    let commands = events::toggle_scratchpad(rings, focused, tag.as_str());
    carry_out(rings, cs, &commands)
}

/// Pops the window last focused out of the rings and says whether a new
/// layout is due.
pub fn pop_last_focused(rings: &mut Rings, cs: &mut StackSet<Xid>) -> (refresh: bool)
    requires
        old(rings).wf(),
    ensures
        final(rings).wf(),
        final(rings)@ == events::popped(old(rings)@),
        carried(final(rings)@, events::pop_commands(old(rings)@), *old(cs), *final(cs), refresh),
{
    let commands = events::pop_last_focused(rings);
    carry_out(rings, cs, &commands)
}

/// Links the focused window as scratchpad, or unlinks it.
pub fn link_scratchpad(rings: &mut Rings, cs: &StackSet<Xid>)
    ensures
        final(rings)@ == old(rings)@.scratchpad_linked(focused_client(*cs)),
{
    rings.link_scratchpad(current_client(cs));
}

/// The commands of the events: which of them end with the tags rebuilt,
/// and which window they leave focused.
pub proof fn lemma_event_commands(m: RingsModel, ev: RingEvent)
    ensures
        settles(events::event_commands(m, ev)) <==> events::event_commands(m, ev).len() > 0,
        focus_goal(events::event_commands(m, ev)) == (match ev {
            RingEvent::Destroy(id) => m.focus_after_removal(id),
            RingEvent::PropertyChange { id, is_fullscreen } => if m.fullscreen.contains(id)
                != is_fullscreen {
                Some(id)
            } else {
                None
            },
        }),
{
    let c = events::event_commands(m, ev);
    reveal_with_fuel(settles, 4);
    reveal_with_fuel(focus_goal, 4);
    if c.len() > 0 {
        match ev {
            RingEvent::Destroy(id) => {
                lemma_framed(m.focus_after_removal(id));
                assert(m.contains(id));
            },
            RingEvent::PropertyChange { id, is_fullscreen } => {
                let d = seq![CommandModel::Rebuild, CommandModel::Focus(id), CommandModel::Refresh];
                assert(d.drop_last() =~= seq![CommandModel::Rebuild, CommandModel::Focus(id)]);
            },
        }
    } else {
        match ev {
            RingEvent::Destroy(id) => {
                assert(!m.contains(id));
            },
            RingEvent::PropertyChange { id, is_fullscreen } => {},
        }
    }
}

/// The commands that follow an arrival, a rotation, an exchange of
/// columns, a toggle of the scratchpad and a pop: when they end with the
/// tags rebuilt, and which window they leave focused.
pub proof fn lemma_action_commands(
    m: RingsModel,
    id: WindowId,
    focused: Option<WindowId>,
    label: Seq<char>,
    forward: bool,
)
    ensures
        settles(events::manage_commands(m, id)) <==> !m.contains(id),
        !m.contains(id) ==> focus_goal(events::manage_commands(m, id)) == Some(id),
        settles(events::rotation_commands(m, focused, label, forward)) <==> focused is Some,
        focused matches Some(fid) ==> focus_goal(
            events::rotation_commands(m, focused, label, forward),
        ) == Some(events::rotation_focus(m, fid, label, forward)),
        settles(events::swap_columns_commands(m, focused, label)) <==> m.can_swap_columns(label),
        m.can_swap_columns(label) ==> focus_goal(events::swap_columns_commands(m, focused, label))
            == focused,
        settles(events::toggle_commands(m, focused)) <==> m.scratchpad is Some,
        m.scratchpad matches Some(sid) ==> focus_goal(events::toggle_commands(m, focused)) == (
        if !m.shows(sid) {
            Some(sid)
        } else if focused == Some(sid) {
            m.focus_after_removal(sid)
        } else {
            None
        }),
        settles(events::pop_commands(m)) <==> m.last_focus is Some && m.focus_after_removal(
            m.last_focus.unwrap(),
        ) is Some,
        settles(events::pop_commands(m)) ==> focus_goal(events::pop_commands(m))
            == m.focus_after_removal(m.last_focus.unwrap()),
{
    reveal_with_fuel(settles, 5);
    reveal_with_fuel(focus_goal, 5);
    let rebuild = CommandModel::Rebuild;
    let refresh = CommandModel::Refresh;
    if !m.contains(id) {
        let c = events::manage_commands(m, id);
        assert(c.drop_last() =~= seq![rebuild]);
    }
    if let Some(fid) = focused {
        let c = events::rotation_commands(m, focused, label, forward);
        let t = CommandModel::Focus(events::rotation_focus(m, fid, label, forward));
        assert(c.drop_last() =~= seq![rebuild, t]);
    }
    if m.can_swap_columns(label) {
        lemma_framed(focused);
    }
    if let Some(sid) = m.scratchpad {
        let c = events::toggle_commands(m, focused);
        if m.shows(sid) {
            if focused == Some(sid) {
                lemma_framed(m.focus_after_removal(sid));
            } else {
                assert(c.drop_last() =~= seq![rebuild]);
            }
        } else {
            assert(c.drop_last() =~= seq![rebuild, CommandModel::Focus(sid)]);
        }
    }
    if let Some(lf) = m.last_focus {
        let c = events::pop_commands(m);
        let park = CommandModel::Relocate { id: lf, tag: hidden_label() };
        match m.focus_after_removal(lf) {
            Some(next) => {
                let t = CommandModel::Focus(next);
                assert(c =~= seq![park, rebuild, t, refresh]);
                assert(c.drop_last() =~= seq![park, rebuild, t]);
                assert(c.drop_last().drop_last() =~= seq![park, rebuild]);
            },
            None => {
                assert(c =~= seq![park]);
            },
        }
    }
}

/// The commands that move the focus across the screens: what they leave
/// focused. A window next in the cycle gets the focus; a tag without
/// windows next in the cycle gets it; and a focused window without a place
/// in the cycle, or none, leads to the next screen, to the edge that faces
/// the way the focus came.
pub proof fn lemma_move_focus_commands(
    m: RingsModel,
    left: bool,
    focused: Option<WindowId>,
    labels: Seq<Seq<char>>,
)
    ensures
        ({
            let c = events::move_focus_commands(m, left, focused, labels);
            let target = match focused {
                Some(fid) => focus_move(m, left, fid, labels),
                None => None,
            };
            match target {
                Some(FocusTarget::Window(id)) => focus_goal(c) == Some(id),
                Some(FocusTarget::Tag(label)) => tag_goal(c) == Some(label),
                None => screen_goal(c) == Some(!left),
            }
        }),
{
    let c = events::move_focus_commands(m, left, focused, labels);
    reveal_with_fuel(focus_goal, 3);
    reveal_with_fuel(tag_goal, 3);
    reveal_with_fuel(screen_goal, 3);
    reveal_with_fuel(only_refresh, 3);
    assert(c.len() == 2);
    assert(c.drop_last().len() == 1);
    assert(c.drop_last().last() == c[0]);
    assert(c.drop_last().drop_last().len() == 0);
}

/// No command at all leaves the stack set as it is: so it is after a report
/// of a fullscreen state that is none, after the loss of a window that is
/// no member, and after a toggle without a scratchpad.
pub proof fn lemma_idle_commands(m: RingsModel, id: WindowId, focused: Option<WindowId>)
    ensures
        only_refresh(Seq::<CommandModel>::empty()),
        only_refresh(events::property_commands(m, id, m.fullscreen.contains(id))),
        !m.contains(id) ==> only_refresh(events::destroy_commands(m, id)),
        m.scratchpad is None ==> only_refresh(events::toggle_commands(m, focused)),
        m.contains(id) ==> only_refresh(events::manage_commands(m, id)),
{
}

/// The pop of a window whose removal moves no focus is its relocation to
/// the hidden tag and nothing else.
pub proof fn lemma_pop_alone(m: RingsModel)
    requires
        m.last_focus is Some,
        m.focus_after_removal(m.last_focus.unwrap()) is None,
    ensures
        move_goal(events::pop_commands(m)) == Some((m.last_focus.unwrap(), hidden_label())),
{
    let c = events::pop_commands(m);
    reveal_with_fuel(move_goal, 2);
    reveal_with_fuel(keeps_windows, 2);
    assert(c.len() == 1);
    assert(c.drop_last().len() == 0);
}

/// A rebuild, a focus command if there is a target, and a refresh: they
/// end with the tags rebuilt and leave the target focused.
pub proof fn lemma_framed(target: Option<WindowId>)
    ensures
        settles(
            seq![CommandModel::Rebuild] + events::focus_on(target) + seq![CommandModel::Refresh],
        ),
        focus_goal(
            seq![CommandModel::Rebuild] + events::focus_on(target) + seq![CommandModel::Refresh],
        ) == target,
{
    let c = seq![CommandModel::Rebuild] + events::focus_on(target) + seq![CommandModel::Refresh];
    reveal_with_fuel(settles, 4);
    reveal_with_fuel(focus_goal, 4);
    match target {
        Some(id) => {
            assert(c =~= seq![
                CommandModel::Rebuild,
                CommandModel::Focus(id),
                CommandModel::Refresh,
            ]);
            assert(c.drop_last() =~= seq![CommandModel::Rebuild, CommandModel::Focus(id)]);
        },
        None => {
            assert(c =~= seq![CommandModel::Rebuild, CommandModel::Refresh]);
            assert(c.drop_last() =~= seq![CommandModel::Rebuild]);
        },
    }
}

} // verus!
