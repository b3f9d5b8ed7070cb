//! The two columns of one tag.

use crate::ring::{lemma_inserted_wf, lemma_removed_wf, lemma_swapped_wf, Ring, RingModel, WindowId};
use crate::seqs::lemma_reverse_contains;
use std::collections::HashSet;
use vstd::prelude::*;

verus! {

broadcast use vstd::std_specs::hash::group_hash_axioms;

/// What a [`ColumnPair`] stands for: the ring of the left and of the right column.
pub struct ColumnsModel {
    pub left: RingModel,
    pub right: RingModel,
}

impl ColumnsModel {
    /// Both rings are well formed and share no member.
    pub open spec fn wf(self) -> bool {
        &&& self.left.wf()
        &&& self.right.wf()
        &&& forall|x: WindowId| !(self.left.members.contains(x) && self.right.members.contains(x))
    }

    /// Two empty columns.
    pub open spec fn empty() -> ColumnsModel {
        ColumnsModel { left: RingModel::empty(), right: RingModel::empty() }
    }

    /// Whether `id` is a member of one of the two rings.
    pub open spec fn contains(self, id: WindowId) -> bool {
        self.left.members.contains(id) || self.right.members.contains(id)
    }

    /// Whether `id` is the window that one of the columns shows.
    pub open spec fn shows(self, id: WindowId) -> bool {
        self.left.focus() == Some(id) || self.right.focus() == Some(id)
    }

    /// The windows under the two cursors, left first; an empty column gives none.
    pub open spec fn cursors(self) -> Seq<WindowId> {
        let l = match self.left.focus() {
            Some(x) => seq![x],
            None => Seq::empty(),
        };
        let r = match self.right.focus() {
            Some(x) => seq![x],
            None => Seq::empty(),
        };
        l + r
    }

    /// The windows that the tag displays: the two cursors, left first, unless
    /// one of them is fullscreen; then that one alone, the right one where
    /// both are.
    pub open spec fn visible(self, fullscreen: Set<WindowId>) -> Seq<WindowId> {
        match (self.left.focus(), self.right.focus()) {
            (_, Some(r)) if fullscreen.contains(r) => seq![r],
            (Some(l), _) if fullscreen.contains(l) => seq![l],
            _ => self.cursors(),
        }
    }

    /// The displayed windows in the order in which they are attached to the
    /// tag. Of two, the one that had the focus last is attached last; where
    /// neither had it, the left one is attached last.
    pub open spec fn attach_order(
        self,
        fullscreen: Set<WindowId>,
        last_focus: Option<WindowId>,
    ) -> Seq<WindowId> {
        let shown = self.visible(fullscreen);
        if shown.len() == 2 && last_focus == Some(shown[1]) {
            shown
        } else {
            shown.reverse()
        }
    }

    /// Whether `id` is the window that the left column shows.
    pub open spec fn shows_left(self, id: WindowId) -> bool {
        self.left.focus() == Some(id)
    }

    /// Whether a new window goes to the right column: the left one has
    /// members already, and the right one is empty or shows the focused window.
    pub open spec fn goes_right(self, focused: Option<WindowId>) -> bool {
        self.left.members.len() != 0 && (self.right.members.len() == 0 || self.right.focus()
            == focused)
    }

    /// `id` inserted into the column that the rule of [`ColumnsModel::goes_right`] picks.
    pub open spec fn inserted(self, id: WindowId, focused: Option<WindowId>) -> ColumnsModel {
        if self.goes_right(focused) {
            ColumnsModel { left: self.left, right: self.right.inserted(id) }
        } else {
            ColumnsModel { left: self.left.inserted(id), right: self.right }
        }
    }

    /// The column that shows `focused` rotated; unchanged when neither shows it.
    pub open spec fn rotated(self, focused: WindowId, forward: bool) -> ColumnsModel {
        if self.left.focus() == Some(focused) {
            ColumnsModel { left: self.left.rotated(forward), right: self.right }
        } else if self.right.focus() == Some(focused) {
            ColumnsModel { left: self.left, right: self.right.rotated(forward) }
        } else {
            self
        }
    }

    /// The window that a rotation lands on, if it moves a cursor.
    pub open spec fn rotation_target(self, focused: WindowId, forward: bool) -> Option<WindowId> {
        if self.left.focus() == Some(focused) {
            if self.left.members.len() < 2 {
                None
            } else {
                self.left.rotated(forward).focus()
            }
        } else if self.right.focus() == Some(focused) {
            if self.right.members.len() < 2 {
                None
            } else {
                self.right.rotated(forward).focus()
            }
        } else {
            None
        }
    }

    /// `id` taken out of the ring that holds it. When that empties the left
    /// ring, the right ring takes its place.
    pub open spec fn removed(self, id: WindowId) -> ColumnsModel {
        if self.left.members.contains(id) {
            let l = self.left.removed(id);
            if l.members.len() == 0 {
                ColumnsModel { left: self.right, right: l }
            } else {
                ColumnsModel { left: l, right: self.right }
            }
        } else {
            ColumnsModel { left: self.left, right: self.right.removed(id) }
        }
    }

    /// The window to focus after `id` was taken out: the left cursor when a
    /// ring was emptied, the repaired cursor when `id` was under the cursor of
    /// its ring, and none otherwise.
    pub open spec fn focus_after_removal(self, id: WindowId) -> Option<WindowId> {
        if self.left.members.contains(id) {
            if self.left.members.len() == 1 {
                self.right.focus()
            } else if self.left.focus() == Some(id) {
                self.left.removed(id).focus()
            } else {
                None
            }
        } else if self.right.members.contains(id) {
            if self.right.members.len() == 1 {
                self.left.focus()
            } else if self.right.focus() == Some(id) {
                self.right.removed(id).focus()
            } else {
                None
            }
        } else {
            None
        }
    }

    /// Whether both columns have members.
    pub open spec fn can_swap_columns(self) -> bool {
        self.left.members.len() != 0 && self.right.members.len() != 0
    }

    /// Left and right exchanged, each ring as it is, if both have members.
    pub open spec fn columns_swapped(self) -> ColumnsModel {
        if self.can_swap_columns() {
            ColumnsModel { left: self.right, right: self.left }
        } else {
            self
        }
    }

    /// The focused window moved one place within the column that shows it.
    pub open spec fn ring_swapped(self, focused: Option<WindowId>, forward: bool) -> ColumnsModel {
        if focused is None {
            self
        } else if self.left.focus() == focused {
            ColumnsModel { left: self.left.swapped(forward), right: self.right }
        } else if self.right.focus() == focused {
            ColumnsModel { left: self.left, right: self.right.swapped(forward) }
        } else {
            self
        }
    }
}

/// The left and the right column of a tag.
#[derive(Debug, Clone)]
pub struct ColumnPair {
    left: Ring,
    right: Ring,
}

impl View for ColumnPair {
    type V = ColumnsModel;

    closed spec fn view(&self) -> ColumnsModel {
        ColumnsModel { left: self.left@, right: self.right@ }
    }
}

impl ColumnPair {
    /// Both rings are well formed and share no member.
    pub open spec fn wf(&self) -> bool {
        self@.wf()
    }

    /// A pair of empty columns.
    pub fn new() -> (r: ColumnPair)
        ensures
            r.wf(),
            r@ == ColumnsModel::empty(),
    {
        ColumnPair { left: Ring::new(), right: Ring::new() }
    }

    /// The ring of the left column.
    pub fn left(&self) -> (r: &Ring)
        ensures
            r@ == self@.left,
    {
        &self.left
    }

    /// The ring of the right column.
    pub fn right(&self) -> (r: &Ring)
        ensures
            r@ == self@.right,
    {
        &self.right
    }

    /// Whether `id` is a member of one of the two rings.
    pub fn contains(&self, id: WindowId) -> (r: bool)
        requires
            self.wf(),
        ensures
            r == self@.contains(id),
    {
        self.left.contains(id) || self.right.contains(id)
    }

    /// Whether one of the columns shows `id`.
    pub fn shows(&self, id: WindowId) -> (r: bool)
        requires
            self.wf(),
        ensures
            r == self@.shows(id),
    {
        self.left.focus() == Some(id) || self.right.focus() == Some(id)
    }

    /// The windows under the two cursors, left first.
    pub fn cursors(&self) -> (r: Vec<WindowId>)
        requires
            self.wf(),
        ensures
            r@ == self@.cursors(),
    {
        let mut v: Vec<WindowId> = Vec::new();
        if let Some(l) = self.left.focus() {
            v.push(l);
        }
        if let Some(r) = self.right.focus() {
            v.push(r);
        }
        proof {
            assert(v@ =~= self@.cursors());
        }
        v
    }

    /// The windows that the tag displays, given the fullscreen windows: the
    /// two cursors, left first; a cursor that is fullscreen alone, the right
    /// one where both are.
    pub fn visible(&self, fullscreen: &HashSet<WindowId>) -> (r: Vec<WindowId>)
        requires
            self.wf(),
        ensures
            r@ == self@.visible(fullscreen@),
    {
        let l = self.left.focus();
        let r = self.right.focus();
        let mut v: Vec<WindowId> = Vec::new();
        if let Some(rid) = r {
            if fullscreen.contains(&rid) {
                v.push(rid);
                assert(v@ =~= self@.visible(fullscreen@));
                return v;
            }
        }
        if let Some(lid) = l {
            if fullscreen.contains(&lid) {
                v.push(lid);
                assert(v@ =~= self@.visible(fullscreen@));
                return v;
            }
            v.push(lid);
        }
        if let Some(rid) = r {
            v.push(rid);
        }
        assert(v@ =~= self@.visible(fullscreen@));
        v
    }

    /// Whether `id` is the window that the left column shows.
    pub fn shows_left(&self, id: WindowId) -> (r: bool)
        requires
            self.wf(),
        ensures
            r == self@.shows_left(id),
    {
        self.left.focus() == Some(id)
    }

    /// The displayed windows in the order in which they are attached to the
    /// tag. Of two, the one that had the focus last is attached last; where
    /// neither had it, the left one is attached last.
    pub fn attach_order(
        &self,
        fullscreen: &HashSet<WindowId>,
        last_focus: Option<WindowId>,
    ) -> (r: Vec<WindowId>)
        requires
            self.wf(),
        ensures
            r@ == self@.attach_order(fullscreen@, last_focus),
    {
        let v = self.visible(fullscreen);
        if v.len() == 2 && last_focus == Some(v[1]) {
            return v;
        }
        let mut out: Vec<WindowId> = Vec::new();
        let mut i: usize = v.len();
        while i > 0
            invariant
                i <= v.len(),
                out.len() == v.len() - i,
                forall|j: int| 0 <= j < out.len() ==> out@[j] == v@[v.len() - 1 - j],
            decreases i,
        {
            i -= 1;
            out.push(v[i]);
        }
        proof {
            assert(out@ =~= v@.reverse());
        }
        out
    }

    /// Puts a new window into a column: into the left one while it is empty,
    /// else into the right one if that is empty or shows the focused window,
    /// else into the left one. The caller sees to it that `id` is new.
    pub fn insert(&mut self, id: WindowId, focused: Option<WindowId>)
        requires
            old(self).wf(),
            !old(self)@.contains(id),
        ensures
            final(self).wf(),
            final(self)@ == old(self)@.inserted(id, focused),
    {
        proof {
            lemma_columns_inserted(self@, id, focused);
        }
        if self.left.len() == 0 {
            self.left.insert(id);
        } else if self.right.len() == 0 || self.right.focus() == focused {
            self.right.insert(id);
        } else {
            self.left.insert(id);
        }
    }

    /// Rotates the column that shows `focused` and returns the window it now
    /// shows. Returns `None`, and changes no cursor, when neither column shows
    /// `focused` or the column has fewer than two members.
    pub fn rotate(&mut self, focused: WindowId, right: bool) -> (r: Option<WindowId>)
        requires
            old(self).wf(),
        ensures
            final(self).wf(),
            final(self)@ == old(self)@.rotated(focused, right),
            r == old(self)@.rotation_target(focused, right),
    {
        if self.left.focus() == Some(focused) {
            self.left.rotate(right)
        } else if self.right.focus() == Some(focused) {
            self.right.rotate(right)
        } else {
            None
        }
    }

    /// Takes `id` out of the ring that holds it and returns the window to
    /// focus next, if the focus has to move.
    pub fn delete(&mut self, id: WindowId) -> (r: Option<WindowId>)
        requires
            old(self).wf(),
        ensures
            final(self).wf(),
            final(self)@ == old(self)@.removed(id),
            r == old(self)@.focus_after_removal(id),
    {
        proof {
            lemma_columns_removed(self@, id);
        }
        let was_left = self.left.focus() == Some(id);
        let was_right = self.right.focus() == Some(id);
        match self.left.delete(id) {
            (true, _) => {
                std::mem::swap(&mut self.left, &mut self.right);
                return self.left.focus();
            },
            (false, Some(next)) => {
                return if was_left {
                    Some(next)
                } else {
                    None
                };
            },
            (false, None) => {},
        }
        match self.right.delete(id) {
            (true, _) => self.left.focus(),
            (false, Some(next)) => if was_right {
                Some(next)
            } else {
                None
            },
            (false, None) => None,
        }
    }

    /// Exchanges the two columns when both have members, and says whether it did.
    pub fn swap_columns(&mut self) -> (r: bool)
        requires
            old(self).wf(),
        ensures
            final(self).wf(),
            final(self)@ == old(self)@.columns_swapped(),
            r == old(self)@.can_swap_columns(),
    {
        if self.left.len() > 0 && self.right.len() > 0 {
            std::mem::swap(&mut self.left, &mut self.right);
            true
        } else {
            false
        }
    }

    /// Moves the focused window one place within the column that shows it.
    pub fn swap_ring(&mut self, focused: Option<WindowId>, right: bool)
        requires
            old(self).wf(),
        ensures
            final(self).wf(),
            final(self)@ == old(self)@.ring_swapped(focused, right),
    {
        proof {
            lemma_swapped_wf(self@.left, right);
            lemma_swapped_wf(self@.right, right);
        }
        if focused.is_none() {
            return ;
        }
        if self.left.focus() == focused {
            self.left.swap(right);
        } else if self.right.focus() == focused {
            self.right.swap(right);
        }
    }
}

/// A fullscreen window under a cursor is displayed alone, whatever the other
/// column shows; where both cursors are fullscreen this holds of the right one.
pub proof fn lemma_fullscreen_suppression(m: ColumnsModel, fullscreen: Set<WindowId>, id: WindowId)
    requires
        m.wf(),
        m.shows(id),
        fullscreen.contains(id),
        !(m.left.focus() == Some(id) && m.right.focus() is Some && fullscreen.contains(
            m.right.focus().unwrap(),
        )),
    ensures
        m.visible(fullscreen) == seq![id],
{
    if m.left.focus() == Some(id) && m.right.focus() == Some(id) {
        assert(m.left.members.contains(id));
        assert(m.right.members.contains(id));
    }
}

/// The windows that are attached to a tag are the windows that it displays.
pub proof fn lemma_attach_order_members(
    m: ColumnsModel,
    fullscreen: Set<WindowId>,
    last_focus: Option<WindowId>,
    x: WindowId,
)
    ensures
        m.attach_order(fullscreen, last_focus).contains(x) <==> m.visible(fullscreen).contains(x),
{
    lemma_reverse_contains(m.visible(fullscreen), x);
}

/// Of two displayed windows the one that had the focus last is attached last.
pub proof fn lemma_last_focus_attached_last(
    m: ColumnsModel,
    fullscreen: Set<WindowId>,
    last_focus: WindowId,
)
    requires
        m.wf(),
        m.visible(fullscreen).len() == 2,
        m.visible(fullscreen).contains(last_focus),
    ensures
        m.attach_order(fullscreen, Some(last_focus)).len() == 2,
        m.attach_order(fullscreen, Some(last_focus)).last() == last_focus,
{
    let shown = m.visible(fullscreen);
    let i = choose|i: int| 0 <= i < shown.len() && shown[i] == last_focus;
    if i == 0 {
        assert(shown.reverse()[1] == shown[0]);
    }
}

/// A tag displays at most two windows, each of them under a cursor, and none twice.
pub proof fn lemma_visible_shape(m: ColumnsModel, fullscreen: Set<WindowId>)
    requires
        m.wf(),
    ensures
        m.visible(fullscreen).len() <= 2,
        m.visible(fullscreen).no_duplicates(),
        forall|x: WindowId| m.visible(fullscreen).contains(x) ==> m.shows(x),
        m.visible(fullscreen).len() == 0 <==> m.left.members.len() == 0 && m.right.members.len()
            == 0,
{
    let v = m.visible(fullscreen);
    if m.left.focus() is Some && m.right.focus() is Some {
        let l = m.left.focus().unwrap();
        let r = m.right.focus().unwrap();
        assert(m.left.members.contains(l));
        assert(m.right.members.contains(r));
        assert(l != r);
    }
    assert forall|x: WindowId| v.contains(x) implies m.shows(x) by {
        let i = choose|i: int| 0 <= i < v.len() && v[i] == x;
    }
}

/// Inserting a new window keeps the pair well formed and adds just that window.
pub proof fn lemma_columns_inserted(m: ColumnsModel, id: WindowId, focused: Option<WindowId>)
    requires
        m.wf(),
        !m.contains(id),
    ensures
        m.inserted(id, focused).wf(),
        m.inserted(id, focused).shows(id),
        forall|x: WindowId| m.inserted(id, focused).contains(x) <==> (x == id || m.contains(x)),
{
    lemma_inserted_wf(m.left, id);
    lemma_inserted_wf(m.right, id);
}

/// Removing a window keeps the pair well formed and takes out just that window.
pub proof fn lemma_columns_removed(m: ColumnsModel, id: WindowId)
    requires
        m.wf(),
    ensures
        m.removed(id).wf(),
        forall|x: WindowId| m.removed(id).contains(x) <==> (x != id && m.contains(x)),
        !m.contains(id) ==> m.removed(id) == m,
{
    lemma_removed_wf(m.left, id);
    lemma_removed_wf(m.right, id);
}

} // verus!
