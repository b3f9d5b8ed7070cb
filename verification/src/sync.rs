//! Bringing the tags of the window system in line with what the rings display.
//!
//! For one tag the plan is: park every window that is attached to the tag
//! but not displayed on the hidden tag, then attach the displayed windows.

use crate::ring::WindowId;
use crate::seqs::lemma_push_contains;
use vstd::prelude::*;

verus! {

/// The label of the tag on which windows wait that no tag displays.
pub open spec fn hidden_label() -> Seq<char> {
    "reikai"@
}

/// The tag on which windows wait that no tag displays.
pub fn hidden_tag() -> (r: String)
    ensures
        r@ == hidden_label(),
{
    "reikai".to_owned()
}

/// An order to the window system: put window `id` on the tag `tag`.
#[derive(Debug, Clone, PartialEq, Eq)]
pub struct Relocation {
    pub id: WindowId,
    pub tag: String,
}

/// What a [`Relocation`] stands for.
pub struct RelocationModel {
    pub id: WindowId,
    pub tag: Seq<char>,
}

impl View for Relocation {
    type V = RelocationModel;

    open spec fn view(&self) -> RelocationModel {
        RelocationModel { id: self.id, tag: self.tag@ }
    }
}

/// The views of a list of relocations.
pub open spec fn plan_view(plan: Seq<Relocation>) -> Seq<RelocationModel> {
    plan.map_values(|r: Relocation| r@)
}

/// The attached windows that are not displayed, in the order in which they are attached.
pub open spec fn parked(attached: Seq<WindowId>, shown: Seq<WindowId>) -> Seq<WindowId> {
    attached.filter(|x: WindowId| !shown.contains(x))
}

/// Relocations that put each of `ids`, in turn, on `tag`.
pub open spec fn all_to(ids: Seq<WindowId>, tag: Seq<char>) -> Seq<RelocationModel> {
    ids.map_values(|x: WindowId| RelocationModel { id: x, tag })
}

/// The plan for one tag: the attached windows that are not displayed go to
/// the hidden tag, then the displayed ones are attached in the given order.
pub open spec fn sync_plan(attached: Seq<WindowId>, order: Seq<WindowId>, label: Seq<char>) -> Seq<
    RelocationModel,
> {
    all_to(parked(attached, order), hidden_label()) + all_to(order, label)
}

/// The tag of each window after the window system has carried out one relocation.
pub open spec fn relocated(at: Map<WindowId, Seq<char>>, r: RelocationModel) -> Map<
    WindowId,
    Seq<char>,
> {
    at.insert(r.id, r.tag)
}

/// The tag of each window after the window system has carried out a plan, first to last.
pub open spec fn carried_out(at: Map<WindowId, Seq<char>>, plan: Seq<RelocationModel>) -> Map<
    WindowId,
    Seq<char>,
>
    decreases plan.len(),
{
    if plan.len() == 0 {
        at
    } else {
        relocated(carried_out(at, plan.drop_last()), plan.last())
    }
}

/// The windows that the window system has on the tag `label`.
pub open spec fn attached_to(at: Map<WindowId, Seq<char>>, label: Seq<char>) -> Set<WindowId> {
    Set::new(|x: WindowId| at.dom().contains(x) && at[x] == label)
}

/// Whether `x` is among `v`.
pub fn holds(v: &Vec<WindowId>, x: WindowId) -> (r: bool)
    ensures
        r == v@.contains(x),
{
    let mut i: usize = 0;
    while i < v.len()
        invariant
            i <= v.len(),
            forall|j: int| 0 <= j < i ==> v@[j] != x,
        decreases v.len() - i,
    {
        if v[i] == x {
            return true;
        }
        i += 1;
    }
    false
}

/// The relocations that bring one tag in line: first every window of
/// `attached` that is not in `order` goes to the hidden tag, then every
/// window of `order` goes to the tag `label`, in that order.
pub fn plan_tag(attached: &Vec<WindowId>, order: &Vec<WindowId>, label: &str) -> (plan: Vec<
    Relocation,
>)
    ensures
        plan_view(plan@) == sync_plan(attached@, order@, label@),
{
    let mut plan: Vec<Relocation> = Vec::new();
    let mut i: usize = 0;
    proof {
        assert(plan_view(plan@) =~= all_to(parked(attached@.take(0), order@), hidden_label()));
    }
    while i < attached.len()
        invariant
            i <= attached.len(),
            plan_view(plan@) == all_to(parked(attached@.take(i as int), order@), hidden_label()),
        decreases attached.len() - i,
    {
        let x = attached[i];
        proof {
            assert(attached@.take(i as int + 1) =~= attached@.take(i as int).push(x));
            lemma_parked_push(attached@.take(i as int), x, order@);
        }
        if !holds(order, x) {
            let ghost before = plan@;
            let r = Relocation { id: x, tag: hidden_tag() };
            plan.push(r);
            proof {
                lemma_plan_view_push(before, r);
                lemma_all_to_push(parked(attached@.take(i as int), order@), x, hidden_label());
            }
        }
        i += 1;
    }
    proof {
        assert(attached@.take(attached.len() as int) =~= attached@);
    }
    let ghost first = plan@;
    let mut j: usize = 0;
    proof {
        assert(plan_view(plan@) =~= plan_view(first) + all_to(order@.take(0), label@));
    }
    while j < order.len()
        invariant
            j <= order.len(),
            plan_view(first) == all_to(parked(attached@, order@), hidden_label()),
            plan_view(plan@) == plan_view(first) + all_to(order@.take(j as int), label@),
        decreases order.len() - j,
    {
        let ghost before = plan@;
        let r = Relocation { id: order[j], tag: label.to_owned() };
        plan.push(r);
        proof {
            assert(order@.take(j as int + 1) =~= order@.take(j as int).push(order@[j as int]));
            lemma_plan_view_push(before, r);
            lemma_all_to_push(order@.take(j as int), order@[j as int], label@);
            assert(plan_view(plan@) =~= plan_view(first) + all_to(
                order@.take(j as int + 1),
                label@,
            ));
        }
        j += 1;
    }
    proof {
        assert(order@.take(order.len() as int) =~= order@);
    }
    plan
}

/// Carrying out two plans in a row is carrying out the one plan they make together.
pub proof fn lemma_carried_out_append(
    at: Map<WindowId, Seq<char>>,
    a: Seq<RelocationModel>,
    b: Seq<RelocationModel>,
)
    ensures
        carried_out(at, a + b) == carried_out(carried_out(at, a), b),
    decreases b.len(),
{
    if b.len() == 0 {
        assert(a + b =~= a);
    } else {
        assert((a + b).drop_last() =~= a + b.drop_last());
        assert((a + b).last() == b.last());
        lemma_carried_out_append(at, a, b.drop_last());
    }
}

/// After all of `ids` were sent to one tag, they are on it and every other
/// window is where it was.
pub proof fn lemma_all_to_effect(
    at: Map<WindowId, Seq<char>>,
    ids: Seq<WindowId>,
    tag: Seq<char>,
    x: WindowId,
)
    ensures
        carried_out(at, all_to(ids, tag)).dom().contains(x) <==> at.dom().contains(x)
            || ids.contains(x),
        ids.contains(x) ==> carried_out(at, all_to(ids, tag))[x] == tag,
        !ids.contains(x) ==> carried_out(at, all_to(ids, tag))[x] == at[x],
    decreases ids.len(),
{
    let plan = all_to(ids, tag);
    let done = carried_out(at, plan);
    if ids.len() > 0 {
        let rest = ids.drop_last();
        let last = ids.last();
        let before = carried_out(at, all_to(rest, tag));
        assert(plan.drop_last() =~= all_to(rest, tag));
        assert(plan.last() == RelocationModel { id: last, tag });
        assert(done == before.insert(last, tag));
        lemma_all_to_effect(at, rest, tag, x);
        assert(ids =~= rest.push(last));
        lemma_push_contains(rest, last);
    }
}

/// The parked windows are the attached ones that are not displayed.
pub proof fn lemma_parked_members(attached: Seq<WindowId>, shown: Seq<WindowId>)
    ensures
        forall|x: WindowId|
            parked(attached, shown).contains(x) <==> attached.contains(x) && !shown.contains(x),
    decreases attached.len(),
{
    if attached.len() > 0 {
        let rest = attached.drop_last();
        let last = attached.last();
        assert(attached =~= rest.push(last));
        lemma_parked_members(rest, shown);
        lemma_parked_push(rest, last, shown);
        lemma_push_contains(rest, last);
        lemma_push_contains(parked(rest, shown), last);
    }
}

/// A list of windows that are all displayed has none to park.
pub proof fn lemma_nothing_to_park(attached: Seq<WindowId>, shown: Seq<WindowId>)
    requires
        forall|x: WindowId| attached.contains(x) ==> shown.contains(x),
    ensures
        parked(attached, shown) == Seq::<WindowId>::empty(),
{
    let p = parked(attached, shown);
    lemma_parked_members(attached, shown);
    if p.len() > 0 {
        assert(p.contains(p[0]));
    }
    assert(p =~= Seq::<WindowId>::empty());
}

/// Where one window is after the plan for a tag was carried out: on the
/// tag if it is displayed, on the hidden tag if it was attached and is not
/// displayed, and where it was before otherwise.
pub proof fn lemma_sync_effect(
    at: Map<WindowId, Seq<char>>,
    attached: Seq<WindowId>,
    order: Seq<WindowId>,
    label: Seq<char>,
    x: WindowId,
)
    ensures
        carried_out(at, sync_plan(attached, order, label)).dom().contains(x) <==> at.dom().contains(
            x,
        ) || order.contains(x) || attached.contains(x),
        order.contains(x) ==> carried_out(at, sync_plan(attached, order, label))[x] == label,
        !order.contains(x) && attached.contains(x) ==> carried_out(
            at,
            sync_plan(attached, order, label),
        )[x] == hidden_label(),
        !order.contains(x) && !attached.contains(x) ==> carried_out(
            at,
            sync_plan(attached, order, label),
        )[x] == at[x],
{
    let aside = parked(attached, order);
    let mid = carried_out(at, all_to(aside, hidden_label()));
    lemma_carried_out_append(at, all_to(aside, hidden_label()), all_to(order, label));
    lemma_parked_members(attached, order);
    lemma_all_to_effect(at, aside, hidden_label(), x);
    lemma_all_to_effect(mid, order, label, x);
}

/// After the plan for a tag was carried out, the tag holds the displayed
/// windows and no others.
pub proof fn lemma_sync_settles(
    at: Map<WindowId, Seq<char>>,
    attached: Seq<WindowId>,
    order: Seq<WindowId>,
    label: Seq<char>,
)
    requires
        label != hidden_label(),
        attached.to_set() == attached_to(at, label),
    ensures
        attached_to(carried_out(at, sync_plan(attached, order, label)), label) == order.to_set(),
{
    let after = carried_out(at, sync_plan(attached, order, label));
    assert forall|x: WindowId| attached_to(after, label).contains(x) <==> order.to_set().contains(
        x,
    ) by {
        lemma_sync_effect(at, attached, order, label, x);
        if !order.contains(x) && !attached.contains(x) {
            assert(!attached.to_set().contains(x));
            assert(!attached_to(at, label).contains(x));
        }
    }
    assert(attached_to(after, label) =~= order.to_set());
}

/// On a tag that holds the displayed windows and no others, the plan parks
/// nothing, and carrying it out leaves every window where it is.
pub proof fn lemma_settled_sync(
    at: Map<WindowId, Seq<char>>,
    attached: Seq<WindowId>,
    order: Seq<WindowId>,
    label: Seq<char>,
)
    requires
        attached.to_set() == attached_to(at, label),
        attached_to(at, label) == order.to_set(),
    ensures
        parked(attached, order) == Seq::<WindowId>::empty(),
        carried_out(at, sync_plan(attached, order, label)) == at,
{
    assert forall|x: WindowId| attached.contains(x) implies order.contains(x) by {
        assert(attached.to_set().contains(x));
        assert(order.to_set().contains(x));
    }
    lemma_nothing_to_park(attached, order);
    let after = carried_out(at, sync_plan(attached, order, label));
    assert forall|x: WindowId| #[trigger] after.dom().contains(x) == at.dom().contains(x) by {
        lemma_sync_effect(at, attached, order, label, x);
        if order.contains(x) {
            assert(order.to_set().contains(x));
            assert(attached_to(at, label).contains(x));
        }
    }
    assert forall|x: WindowId| after.dom().contains(x) implies #[trigger] after[x] == at[x] by {
        lemma_sync_effect(at, attached, order, label, x);
        if order.contains(x) {
            assert(order.to_set().contains(x));
            assert(attached_to(at, label).contains(x));
        }
    }
    assert(after =~= at);
}

/// Syncing a tag is idempotent. When the plan for a tag has been carried
/// out, the tag holds the displayed windows and no others; a second plan
/// for the same displayed windows, made from what the tag then holds,
/// parks nothing, and carrying it out leaves every window where it is.
pub proof fn lemma_sync_idempotent(
    at: Map<WindowId, Seq<char>>,
    attached: Seq<WindowId>,
    order: Seq<WindowId>,
    label: Seq<char>,
    again: Seq<WindowId>,
)
    requires
        label != hidden_label(),
        attached.to_set() == attached_to(at, label),
        again.to_set() == attached_to(carried_out(at, sync_plan(attached, order, label)), label),
    ensures
        attached_to(carried_out(at, sync_plan(attached, order, label)), label) == order.to_set(),
        parked(again, order) == Seq::<WindowId>::empty(),
        carried_out(
            carried_out(at, sync_plan(attached, order, label)),
            sync_plan(again, order, label),
        ) == carried_out(at, sync_plan(attached, order, label)),
{
    lemma_sync_settles(at, attached, order, label);
    lemma_settled_sync(carried_out(at, sync_plan(attached, order, label)), again, order, label);
}

/// Parking decides on each attached window by itself.
pub proof fn lemma_parked_push(s: Seq<WindowId>, x: WindowId, shown: Seq<WindowId>)
    ensures
        parked(s.push(x), shown) == (if shown.contains(x) {
            parked(s, shown)
        } else {
            parked(s, shown).push(x)
        }),
{
    s.lemma_filter_push(x, |y: WindowId| !shown.contains(y));
}

proof fn lemma_all_to_push(ids: Seq<WindowId>, x: WindowId, tag: Seq<char>)
    ensures
        all_to(ids.push(x), tag) == all_to(ids, tag).push(RelocationModel { id: x, tag }),
{
    assert(all_to(ids.push(x), tag) =~= all_to(ids, tag).push(RelocationModel { id: x, tag }));
}

proof fn lemma_plan_view_push(plan: Seq<Relocation>, r: Relocation)
    ensures
        plan_view(plan.push(r)) == plan_view(plan).push(r@),
{
    assert(plan_view(plan.push(r)) =~= plan_view(plan).push(r@));
}

} // verus!
