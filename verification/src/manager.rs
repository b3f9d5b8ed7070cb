//! The rings of all tags, with the overlays that sit on top of them.

use crate::columns::{
    lemma_columns_inserted, lemma_columns_removed, lemma_fullscreen_suppression, ColumnPair,
    ColumnsModel,
};
use crate::ring::{lemma_swapped_wf, WindowId};
use crate::sync::{hidden_label, plan_tag, plan_view, sync_plan, Relocation, RelocationModel};
use std::collections::HashSet;
use vstd::prelude::*;

verus! {

broadcast use vstd::std_specs::hash::group_hash_axioms;

/// What a [`Rings`] stands for.
pub struct RingsModel {
    /// The column pair of each tag, in the order of the tags.
    pub columns: Seq<ColumnsModel>,
    /// The label of each tag.
    pub names: Seq<Seq<char>>,
    /// The window that had the focus when the manager last looked.
    pub last_focus: Option<WindowId>,
    /// The window that is linked as scratchpad.
    pub scratchpad: Option<WindowId>,
    /// The windows that are fullscreen.
    pub fullscreen: Set<WindowId>,
}

impl RingsModel {
    /// Every tag has its label and its column pair, no label occurs twice or
    /// is that of the hidden tag, and no window is a member of two rings.
    pub open spec fn wf(self) -> bool {
        &&& self.columns.len() == self.names.len()
        &&& self.names.no_duplicates()
        &&& !self.names.contains(hidden_label())
        &&& forall|i: int| 0 <= i < self.columns.len() ==> (#[trigger] self.columns[i]).wf()
        &&& forall|i: int, j: int, x: WindowId|
            0 <= i < self.columns.len() && 0 <= j < self.columns.len() && i != j ==> !(
            #[trigger] self.columns[i].contains(x) && #[trigger] self.columns[j].contains(x))
    }

    /// The position of the tag with this label.
    pub open spec fn tag_index(self, label: Seq<char>) -> Option<int> {
        if self.names.contains(label) {
            Some(self.names.index_of(label))
        } else {
            None
        }
    }

    /// Whether `id` is a member of some ring.
    pub open spec fn contains(self, id: WindowId) -> bool {
        exists|i: int| 0 <= i < self.columns.len() && #[trigger] self.columns[i].contains(id)
    }

    /// The position of the tag that holds `id`.
    pub open spec fn home(self, id: WindowId) -> int {
        choose|i: int| 0 <= i < self.columns.len() && #[trigger] self.columns[i].contains(id)
    }

    /// Whether `id` is under the cursor of some column.
    pub open spec fn shows(self, id: WindowId) -> bool {
        exists|i: int| 0 <= i < self.columns.len() && #[trigger] self.columns[i].shows(id)
    }

    /// These rings with other columns.
    pub open spec fn with_columns(self, columns: Seq<ColumnsModel>) -> RingsModel {
        RingsModel { columns, ..self }
    }

    /// `id` inserted into the tag with this label; unchanged when there is no such tag.
    pub open spec fn inserted(
        self,
        id: WindowId,
        focused: Option<WindowId>,
        label: Seq<char>,
    ) -> RingsModel {
        match self.tag_index(label) {
            Some(i) => self.with_columns(
                self.columns.update(i, self.columns[i].inserted(id, focused)),
            ),
            None => self,
        }
    }

    /// The column of the tag that shows `focused` rotated; unchanged when
    /// there is no such tag.
    pub open spec fn rotated(
        self,
        focused: WindowId,
        label: Seq<char>,
        forward: bool,
    ) -> RingsModel {
        match self.tag_index(label) {
            Some(i) => self.with_columns(
                self.columns.update(i, self.columns[i].rotated(focused, forward)),
            ),
            None => self,
        }
    }

    /// The window that a rotation in the tag lands on, if it moves a cursor.
    pub open spec fn rotation_target(
        self,
        focused: WindowId,
        label: Seq<char>,
        forward: bool,
    ) -> Option<WindowId> {
        match self.tag_index(label) {
            Some(i) => self.columns[i].rotation_target(focused, forward),
            None => None,
        }
    }

    /// `id` taken out of the ring that holds it; unchanged when none does.
    pub open spec fn removed(self, id: WindowId) -> RingsModel {
        if self.contains(id) {
            let i = self.home(id);
            self.with_columns(self.columns.update(i, self.columns[i].removed(id)))
        } else {
            self
        }
    }

    /// The window to focus after `id` was taken out, if the focus has to move.
    pub open spec fn focus_after_removal(self, id: WindowId) -> Option<WindowId> {
        if self.contains(id) {
            self.columns[self.home(id)].focus_after_removal(id)
        } else {
            None
        }
    }

    /// Whether the tag exists and both its columns have members.
    pub open spec fn can_swap_columns(self, label: Seq<char>) -> bool {
        match self.tag_index(label) {
            Some(i) => self.columns[i].can_swap_columns(),
            None => false,
        }
    }

    /// The columns of the tag exchanged, if both have members.
    pub open spec fn columns_swapped(self, label: Seq<char>) -> RingsModel {
        match self.tag_index(label) {
            Some(i) => self.with_columns(self.columns.update(i, self.columns[i].columns_swapped())),
            None => self,
        }
    }

    /// The focused window moved one place within the column of the tag that shows it.
    pub open spec fn ring_swapped(
        self,
        focused: Option<WindowId>,
        label: Seq<char>,
        forward: bool,
    ) -> RingsModel {
        match self.tag_index(label) {
            Some(i) => self.with_columns(
                self.columns.update(i, self.columns[i].ring_swapped(focused, forward)),
            ),
            None => self,
        }
    }

    /// The cursor at one edge of a tag: the left column's, or the right
    /// column's when `left` is false; the other column's when that one is empty.
    pub open spec fn edge_cursor(self, left: bool, label: Seq<char>) -> Option<WindowId> {
        match self.tag_index(label) {
            Some(i) => {
                let l = self.columns[i].left.focus();
                let r = self.columns[i].right.focus();
                if left {
                    if l is Some {
                        l
                    } else {
                        r
                    }
                } else {
                    if r is Some {
                        r
                    } else {
                        l
                    }
                }
            },
            None => None,
        }
    }

    /// Whether `id` is under the cursor of the left column of some tag.
    pub open spec fn shows_left(self, id: WindowId) -> bool {
        exists|i: int| 0 <= i < self.columns.len() && #[trigger] self.columns[i].shows_left(id)
    }

    /// The windows that the tag with this label displays; none when there is
    /// no such tag.
    pub open spec fn visible(self, label: Seq<char>) -> Seq<WindowId> {
        match self.tag_index(label) {
            Some(i) => self.columns[i].visible(self.fullscreen),
            None => Seq::empty(),
        }
    }

    /// The relocations that bring the tag with this label in line with what
    /// it displays, given the windows that are attached to it.
    pub open spec fn tag_plan(
        self,
        label: Seq<char>,
        attached: Seq<WindowId>,
    ) -> Seq<RelocationModel> {
        match self.tag_index(label) {
            Some(i) => sync_plan(
                attached,
                self.columns[i].attach_order(self.fullscreen, self.last_focus),
                label,
            ),
            None => Seq::empty(),
        }
    }

    /// The fullscreen mark of `id` set or cleared.
    pub open spec fn with_fullscreen(self, id: WindowId, on: bool) -> RingsModel {
        RingsModel {
            fullscreen: if on {
                self.fullscreen.insert(id)
            } else {
                self.fullscreen.remove(id)
            },
            ..self
        }
    }

    /// The scratchpad link after it was asked for the focused window: that
    /// window, or none if it was the scratchpad already.
    pub open spec fn scratchpad_linked(self, focused: Option<WindowId>) -> RingsModel {
        match focused {
            Some(id) => RingsModel {
                scratchpad: if self.scratchpad == Some(id) {
                    None
                } else {
                    Some(id)
                },
                ..self
            },
            None => self,
        }
    }

    /// `id` taken out of its ring, and out of the overlays.
    pub open spec fn destroyed(self, id: WindowId) -> RingsModel {
        RingsModel {
            scratchpad: if self.scratchpad == Some(id) {
                None
            } else {
                self.scratchpad
            },
            fullscreen: self.fullscreen.remove(id),
            ..self.removed(id)
        }
    }

    /// For each tag its label and the windows under its cursors, left first.
    pub open spec fn current_view(self) -> Seq<(Seq<char>, Seq<WindowId>)> {
        Seq::new(self.columns.len(), |i: int| (self.names[i], self.columns[i].cursors()))
    }
}

/// The rings of all tags, the window last focused, the scratchpad link and
/// the set of fullscreen windows.
#[derive(Debug)]
pub struct Rings {
    tags: Vec<ColumnPair>,
    tag_names: Vec<String>,
    last_focus: Option<WindowId>,
    scratchpad: Option<WindowId>,
    fullscreen: HashSet<WindowId>,
}

impl View for Rings {
    type V = RingsModel;

    closed spec fn view(&self) -> RingsModel {
        RingsModel {
            columns: self.tags@.map_values(|c: ColumnPair| c@),
            names: self.tag_names@.map_values(|s: String| s@),
            last_focus: self.last_focus,
            scratchpad: self.scratchpad,
            fullscreen: self.fullscreen@,
        }
    }
}

impl Rings {
    /// The rings are well formed: see [`RingsModel::wf`].
    pub open spec fn wf(&self) -> bool {
        self@.wf()
    }

    /// The rings of the four tags `g`, `m`, `l` and `w`, all empty, with no
    /// focus, no scratchpad and no fullscreen window.
    pub fn new() -> (r: Rings)
        ensures
            r.wf(),
            r@.names == seq!["g"@, "m"@, "l"@, "w"@],
            r@.columns == Seq::new(4, |i: int| ColumnsModel::empty()),
            r@.last_focus is None,
            r@.scratchpad is None,
            r@.fullscreen == Set::<WindowId>::empty(),
    {
        let mut tags: Vec<ColumnPair> = Vec::new();
        let mut tag_names: Vec<String> = Vec::new();
        tag_names.push("g".to_owned());
        tag_names.push("m".to_owned());
        tag_names.push("l".to_owned());
        tag_names.push("w".to_owned());
        let mut i: usize = 0;
        while i < 4
            invariant
                i <= 4,
                tags.len() == i,
                forall|j: int| 0 <= j < i ==> (#[trigger] tags@[j])@ == ColumnsModel::empty(),
            decreases 4 - i,
        {
            tags.push(ColumnPair::new());
            i += 1;
        }
        let r = Rings {
            tags,
            tag_names,
            last_focus: None,
            scratchpad: None,
            fullscreen: HashSet::new(),
        };
        proof {
            reveal_strlit("g");
            reveal_strlit("m");
            reveal_strlit("l");
            reveal_strlit("w");
            reveal_strlit("reikai");
            assert(r@.names =~= seq!["g"@, "m"@, "l"@, "w"@]);
            assert(r@.columns =~= Seq::new(4, |i: int| ColumnsModel::empty()));
            assert("g"@.len() == 1 && "m"@.len() == 1 && "l"@.len() == 1 && "w"@.len() == 1);
            assert("g"@[0] == 'g' && "m"@[0] == 'm' && "l"@[0] == 'l' && "w"@[0] == 'w');
            assert(r@.names.no_duplicates());
            assert(!r@.names.contains(hidden_label()));
        }
        r
    }

    /// The position of the tag with this label.
    pub fn tag_index(&self, label: &str) -> (r: Option<usize>)
        requires
            self.wf(),
        ensures
            match r {
                Some(i) => self@.tag_index(label@) == Some(i as int) && i < self@.columns.len(),
                None => self@.tag_index(label@) is None,
            },
    {
        let wanted = label.to_owned();
        let mut i: usize = 0;
        while i < self.tag_names.len()
            invariant
                self.wf(),
                wanted@ == label@,
                i <= self.tag_names.len(),
                forall|j: int| 0 <= j < i ==> self@.names[j] != label@,
            decreases self.tag_names.len() - i,
        {
            if self.tag_names[i] == wanted {
                assert(self@.names[i as int] == label@);
                return Some(i);
            }
            i += 1;
        }
        None
    }

    /// Whether `id` is a member of some ring.
    pub fn contains(&self, id: WindowId) -> (r: bool)
        requires
            self.wf(),
        ensures
            r == self@.contains(id),
    {
        let mut i: usize = 0;
        while i < self.tags.len()
            invariant
                self.wf(),
                i <= self.tags.len(),
                forall|j: int| 0 <= j < i ==> !(#[trigger] self@.columns[j].contains(id)),
            decreases self.tags.len() - i,
        {
            assert(self@.columns[i as int].wf());
            if self.tags[i].contains(id) {
                return true;
            }
            i += 1;
        }
        false
    }

    /// The window that had the focus when the manager last looked.
    pub fn last_focus(&self) -> (r: Option<WindowId>)
        ensures
            r == self@.last_focus,
    {
        self.last_focus
    }

    /// The window linked as scratchpad.
    pub fn scratchpad(&self) -> (r: Option<WindowId>)
        ensures
            r == self@.scratchpad,
    {
        self.scratchpad
    }

    /// Whether `id` is marked fullscreen.
    pub fn is_fullscreen(&self, id: WindowId) -> (r: bool)
        ensures
            r == self@.fullscreen.contains(id),
    {
        self.fullscreen.contains(&id)
    }

    /// The number of tags.
    pub fn tag_count(&self) -> (n: usize)
        requires
            self.wf(),
        ensures
            n == self@.names.len(),
            n == self@.columns.len(),
    {
        self.tag_names.len()
    }

    /// The label of the tag at position `i`.
    pub fn tag_label(&self, i: usize) -> (r: String)
        requires
            i < self@.names.len(),
        ensures
            r@ == self@.names[i as int],
    {
        self.tag_names[i].clone()
    }

    /// Notes which window has the focus.
    pub fn set_last_focus(&mut self, focus: Option<WindowId>)
        ensures
            final(self)@ == (RingsModel { last_focus: focus, ..old(self)@ }),
    {
        self.last_focus = focus;
    }

    /// Sets or clears the scratchpad link.
    pub fn set_scratchpad(&mut self, id: Option<WindowId>)
        ensures
            final(self)@ == (RingsModel { scratchpad: id, ..old(self)@ }),
    {
        self.scratchpad = id;
    }

    /// Links the focused window as scratchpad, or unlinks it if it is the
    /// scratchpad already. Without a focused window nothing changes.
    pub fn link_scratchpad(&mut self, focused: Option<WindowId>)
        ensures
            final(self)@ == old(self)@.scratchpad_linked(focused),
    {
        if let Some(fid) = focused {
            if self.scratchpad == Some(fid) {
                self.scratchpad = None;
            } else {
                self.scratchpad = Some(fid);
            }
        }
    }

    /// Sets or clears the fullscreen mark of `id` and says whether that
    /// changed anything.
    pub fn set_fullscreen(&mut self, id: WindowId, is_fullscreen: bool) -> (changed: bool)
        ensures
            final(self)@ == old(self)@.with_fullscreen(id, is_fullscreen),
            changed == (old(self)@.fullscreen.contains(id) != is_fullscreen),
    {
        let was = self.fullscreen.contains(&id);
        if is_fullscreen {
            self.fullscreen.insert(id);
        } else {
            self.fullscreen.remove(&id);
        }
        was != is_fullscreen
    }

    /// The windows that the tag with this label displays.
    pub fn visible(&self, ws_label: &str) -> (r: Vec<WindowId>)
        requires
            self.wf(),
        ensures
            r@ == self@.visible(ws_label@),
    {
        match self.tag_index(ws_label) {
            Some(i) => {
                assert(self@.columns[i as int].wf());
                self.tags[i].visible(&self.fullscreen)
            },
            None => Vec::new(),
        }
    }

    /// The relocations that bring the tag with this label in line with what
    /// it displays: the windows of `attached` that it does not display go to
    /// the hidden tag, then the displayed ones are attached: of two, the
    /// window that had the focus last is attached last, and the left
    /// column's where neither had it. No relocation when there is no such
    /// tag.
    pub fn sync_tag(&self, ws_label: &str, attached: &Vec<WindowId>) -> (plan: Vec<Relocation>)
        requires
            self.wf(),
        ensures
            plan_view(plan@) == self@.tag_plan(ws_label@, attached@),
    {
        match self.tag_index(ws_label) {
            Some(i) => {
                assert(self@.columns[i as int].wf());
                let order = self.tags[i].attach_order(&self.fullscreen, self.last_focus);
                plan_tag(attached, &order, ws_label)
            },
            None => {
                let plan: Vec<Relocation> = Vec::new();
                assert(plan_view(plan@) =~= Seq::<RelocationModel>::empty());
                plan
            },
        }
    }

    /// Forgets a window that is gone: takes it out of its ring, unlinks it
    /// if it is the scratchpad, clears its fullscreen mark, and returns the
    /// window to focus next, if the focus has to move.
    pub fn destroy(&mut self, id: WindowId) -> (r: Option<WindowId>)
        requires
            old(self).wf(),
        ensures
            final(self).wf(),
            final(self)@ == old(self)@.destroyed(id),
            r == old(self)@.focus_after_removal(id),
            !final(self)@.contains(id),
            final(self)@.scratchpad != Some(id),
            !final(self)@.fullscreen.contains(id),
    {
        proof {
            lemma_rings_removed(self@, id);
        }
        if self.scratchpad == Some(id) {
            self.scratchpad = None;
        }
        self.fullscreen.remove(&id);
        self.delete(id)
    }

    /// The column pair of the tag with this label.
    pub fn columns(&self, ws_label: &str) -> (r: Option<&ColumnPair>)
        requires
            self.wf(),
        ensures
            match r {
                Some(c) => self@.tag_index(ws_label@) is Some && c@
                    == self@.columns[self@.tag_index(ws_label@).unwrap()] && c.wf(),
                None => self@.tag_index(ws_label@) is None,
            },
    {
        match self.tag_index(ws_label) {
            Some(i) => {
                assert(self@.columns[i as int].wf());
                Some(&self.tags[i])
            },
            None => None,
        }
    }

    /// For each tag its label and the windows under its cursors, left first.
    pub fn current_view(&self) -> (res: Vec<(String, Vec<WindowId>)>)
        requires
            self.wf(),
        ensures
            res.len() == self@.columns.len(),
            forall|i: int|
                0 <= i < res.len() ==> (#[trigger] res@[i]).0@ == self@.names[i] && res@[i].1@
                    == self@.columns[i].cursors(),
    {
        let mut res: Vec<(String, Vec<WindowId>)> = Vec::new();
        let mut i: usize = 0;
        while i < self.tags.len()
            invariant
                self.wf(),
                i <= self.tags.len(),
                res.len() == i,
                forall|j: int|
                    0 <= j < i ==> (#[trigger] res@[j]).0@ == self@.names[j] && res@[j].1@
                        == self@.columns[j].cursors(),
            decreases self.tags.len() - i,
        {
            assert(self@.columns[i as int].wf());
            let shown = self.tags[i].cursors();
            res.push((self.tag_names[i].clone(), shown));
            i += 1;
        }
        res
    }

    /// Whether `id` is under the cursor of some column.
    pub fn is_focused_in_a_ring(&self, id: WindowId) -> (r: bool)
        requires
            self.wf(),
        ensures
            r == self@.shows(id),
    {
        let mut i: usize = 0;
        while i < self.tags.len()
            invariant
                self.wf(),
                i <= self.tags.len(),
                forall|j: int| 0 <= j < i ==> !(#[trigger] self@.columns[j].shows(id)),
            decreases self.tags.len() - i,
        {
            assert(self@.columns[i as int].wf());
            if self.tags[i].shows(id) {
                return true;
            }
            i += 1;
        }
        false
    }

    /// Whether `id` is under the cursor of the left column of some tag.
    pub fn shows_left(&self, id: WindowId) -> (r: bool)
        requires
            self.wf(),
        ensures
            r == self@.shows_left(id),
    {
        let mut i: usize = 0;
        while i < self.tags.len()
            invariant
                self.wf(),
                i <= self.tags.len(),
                forall|j: int| 0 <= j < i ==> !(#[trigger] self@.columns[j].shows_left(id)),
            decreases self.tags.len() - i,
        {
            assert(self@.columns[i as int].wf());
            if self.tags[i].shows_left(id) {
                return true;
            }
            i += 1;
        }
        false
    }

    /// The cursor at the left edge of a tag, or at its right edge when `left`
    /// is false; the cursor of the other column when the column at that edge
    /// is empty. `None` when both are empty or there is no such tag.
    pub fn get_left_or_right_or_only(&self, left: bool, ws_label: &str) -> (r: Option<WindowId>)
        requires
            self.wf(),
        ensures
            r == self@.edge_cursor(left, ws_label@),
    {
        if let Some(index) = self.tag_index(ws_label) {
            assert(self@.columns[index as int].wf());
            let l = self.tags[index].left().focus();
            let r = self.tags[index].right().focus();
            if left {
                if l.is_some() {
                    l
                } else {
                    r
                }
            } else {
                if r.is_some() {
                    r
                } else {
                    l
                }
            }
        } else {
            None
        }
    }

    /// Puts a new window into the tag with this label, by the rule of
    /// [`ColumnPair::insert`]. Nothing changes when there is no such tag. The
    /// caller sees to it that `id` is not yet a member of any ring.
    pub fn insert(&mut self, id: WindowId, focused: Option<WindowId>, ws_label: &str)
        requires
            old(self).wf(),
            !old(self)@.contains(id),
        ensures
            final(self).wf(),
            final(self)@ == old(self)@.inserted(id, focused, ws_label@),
    {
        proof {
            lemma_rings_inserted(self@, id, focused, ws_label@);
        }
        if let Some(index) = self.tag_index(ws_label) {
            assert(self@.columns[index as int].wf());
            assert(!self@.columns[index as int].contains(id));
            self.tags[index].insert(id, focused);
            proof {
                assert(self@.columns =~= old(self)@.columns.update(
                    index as int,
                    old(self)@.columns[index as int].inserted(id, focused),
                ));
                assert(self@.names =~= old(self)@.names);
            }
        }
    }
}

impl Rings {
    /// Rotates the column of the tag that shows `focused` and returns the
    /// window it then shows. Returns `None`, and changes nothing, when there
    /// is no such tag, neither column shows `focused`, or the column has
    /// fewer than two members.
    pub fn rotate(&mut self, focused: WindowId, ws_label: &str, right: bool) -> (r: Option<
        WindowId,
    >)
        requires
            old(self).wf(),
        ensures
            final(self).wf(),
            final(self)@ == old(self)@.rotated(focused, ws_label@, right),
            r == old(self)@.rotation_target(focused, ws_label@, right),
    {
        proof {
            lemma_rings_rotated(self@, focused, ws_label@, right);
        }
        if let Some(index) = self.tag_index(ws_label) {
            assert(self@.columns[index as int].wf());
            let r = self.tags[index].rotate(focused, right);
            proof {
                assert(self@.columns =~= old(self)@.columns.update(
                    index as int,
                    old(self)@.columns[index as int].rotated(focused, right),
                ));
                assert(self@.names =~= old(self)@.names);
            }
            r
        } else {
            None
        }
    }

    /// Takes `id` out of the ring that holds it, in whichever tag that is, and
    /// returns the window to focus next, if the focus has to move.
    pub fn delete(&mut self, id: WindowId) -> (r: Option<WindowId>)
        requires
            old(self).wf(),
        ensures
            final(self).wf(),
            final(self)@ == old(self)@.removed(id),
            r == old(self)@.focus_after_removal(id),
            !final(self)@.contains(id),
    {
        proof {
            lemma_rings_removed(self@, id);
        }
        let mut i: usize = 0;
        while i < self.tags.len()
            invariant
                self.wf(),
                *self == *old(self),
                i <= self.tags.len(),
                forall|j: int| 0 <= j < i ==> !(#[trigger] self@.columns[j].contains(id)),
            decreases self.tags.len() - i,
        {
            assert(self@.columns[i as int].wf());
            if self.tags[i].contains(id) {
                proof {
                    lemma_home(self@, id, i as int);
                    lemma_rings_removed(self@, id);
                }
                let r = self.tags[i].delete(id);
                proof {
                    assert(self@.columns =~= old(self)@.columns.update(
                        i as int,
                        old(self)@.columns[i as int].removed(id),
                    ));
                    assert(self@.names =~= old(self)@.names);
                }
                return r;
            }
            i += 1;
        }
        None
    }

    /// Exchanges the two columns of a tag when both have members, and says
    /// whether it did.
    pub fn swap_cols(&mut self, ws_label: &str) -> (r: bool)
        requires
            old(self).wf(),
        ensures
            final(self).wf(),
            final(self)@ == old(self)@.columns_swapped(ws_label@),
            r == old(self)@.can_swap_columns(ws_label@),
    {
        proof {
            lemma_rings_columns_swapped(self@, ws_label@);
        }
        if let Some(index) = self.tag_index(ws_label) {
            assert(self@.columns[index as int].wf());
            let r = self.tags[index].swap_columns();
            proof {
                assert(self@.columns =~= old(self)@.columns.update(
                    index as int,
                    old(self)@.columns[index as int].columns_swapped(),
                ));
                assert(self@.names =~= old(self)@.names);
            }
            r
        } else {
            false
        }
    }

    /// Moves the focused window one place within the column of the tag that shows it.
    pub fn swap_ring(&mut self, focused: Option<WindowId>, ws_label: &str, right: bool)
        requires
            old(self).wf(),
        ensures
            final(self).wf(),
            final(self)@ == old(self)@.ring_swapped(focused, ws_label@, right),
    {
        proof {
            lemma_rings_ring_swapped(self@, focused, ws_label@, right);
        }
        if let Some(index) = self.tag_index(ws_label) {
            assert(self@.columns[index as int].wf());
            self.tags[index].swap_ring(focused, right);
            proof {
                assert(self@.columns =~= old(self)@.columns.update(
                    index as int,
                    old(self)@.columns[index as int].ring_swapped(focused, right),
                ));
                assert(self@.names =~= old(self)@.names);
            }
        }
    }
}

/// A fullscreen window under a cursor of a tag is all that the tag
/// displays; where both cursors of the tag are fullscreen this holds of the
/// right one.
pub proof fn lemma_fullscreen_alone(m: RingsModel, label: Seq<char>, id: WindowId)
    requires
        m.wf(),
        m.tag_index(label) is Some,
        m.columns[m.tag_index(label).unwrap()].shows(id),
        m.fullscreen.contains(id),
        ({
            let c = m.columns[m.tag_index(label).unwrap()];
            !(c.left.focus() == Some(id) && c.right.focus() is Some && m.fullscreen.contains(
                c.right.focus().unwrap(),
            ))
        }),
    ensures
        m.visible(label) == seq![id],
{
    let i = m.tag_index(label).unwrap();
    assert(m.columns[i].wf());
    lemma_fullscreen_suppression(m.columns[i], m.fullscreen, id);
}

/// A window is a member of one tag only, so the tag that holds it is the one
/// where it is found.
pub proof fn lemma_home(m: RingsModel, id: WindowId, i: int)
    requires
        m.wf(),
        0 <= i < m.columns.len(),
        m.columns[i].contains(id),
    ensures
        m.contains(id),
        m.home(id) == i,
{
    let h = m.home(id);
    assert(m.columns[h].contains(id));
}

/// A rotation keeps the rings well formed and the members of every tag.
pub proof fn lemma_rings_rotated(m: RingsModel, focused: WindowId, label: Seq<char>, forward: bool)
    requires
        m.wf(),
    ensures
        m.rotated(focused, label, forward).wf(),
        forall|x: WindowId| m.rotated(focused, label, forward).contains(x) <==> m.contains(x),
{
    let n = m.rotated(focused, label, forward);
    match m.tag_index(label) {
        Some(i) => {
            let c = m.columns[i].rotated(focused, forward);
            assert(m.columns[i].wf());
            assert forall|x: WindowId| c.contains(x) <==> m.columns[i].contains(x) by {}
            lemma_update_wf(m, i, c);
            lemma_same_members(m, i, c);
        },
        None => {},
    }
}

/// Replacing one tag's columns by a pair with the same members keeps the
/// members of the whole.
pub proof fn lemma_same_members(m: RingsModel, i: int, c: ColumnsModel)
    requires
        0 <= i < m.columns.len(),
        forall|x: WindowId| c.contains(x) <==> m.columns[i].contains(x),
    ensures
        forall|x: WindowId| m.with_columns(m.columns.update(i, c)).contains(x) <==> m.contains(x),
{
    let n = m.with_columns(m.columns.update(i, c));
    assert forall|x: WindowId| n.contains(x) <==> m.contains(x) by {
        if n.contains(x) {
            let j = choose|j: int|
                    0 <= j < n.columns.len() && #[trigger] n.columns[j].contains(x);
            assert(m.columns[j].contains(x));
        }
        if m.contains(x) {
            let j = choose|j: int|
                    0 <= j < m.columns.len() && #[trigger] m.columns[j].contains(x);
            assert(n.columns[j].contains(x));
        }
    }
}

/// Removing a window keeps the rings well formed and takes out just that window.
pub proof fn lemma_rings_removed(m: RingsModel, id: WindowId)
    requires
        m.wf(),
    ensures
        m.removed(id).wf(),
        forall|x: WindowId| m.removed(id).contains(x) <==> (x != id && m.contains(x)),
{
    let n = m.removed(id);
    if m.contains(id) {
        let i = m.home(id);
        let c = m.columns[i].removed(id);
        assert(m.columns[i].wf());
        lemma_columns_removed(m.columns[i], id);
        lemma_update_wf(m, i, c);
        assert forall|x: WindowId| n.contains(x) <==> (x != id && m.contains(x)) by {
            if n.contains(x) {
                let j = choose|j: int|
                    0 <= j < n.columns.len() && #[trigger] n.columns[j].contains(x);
                if j != i {
                    assert(m.columns[j].contains(x));
                    if x == id {
                        assert(m.columns[i].contains(id));
                    }
                } else {
                    assert(m.columns[i].contains(x));
                }
            }
            if x != id && m.contains(x) {
                let j = choose|j: int|
                    0 <= j < m.columns.len() && #[trigger] m.columns[j].contains(x);
                assert(n.columns[j].contains(x));
            }
        }
    } else {
        assert forall|x: WindowId| n.contains(x) <==> (x != id && m.contains(x)) by {}
    }
}

/// Swapping the columns of a tag keeps the rings well formed and their members.
pub proof fn lemma_rings_columns_swapped(m: RingsModel, label: Seq<char>)
    requires
        m.wf(),
    ensures
        m.columns_swapped(label).wf(),
        forall|x: WindowId| m.columns_swapped(label).contains(x) <==> m.contains(x),
{
    match m.tag_index(label) {
        Some(i) => {
            let c = m.columns[i].columns_swapped();
            assert(m.columns[i].wf());
            assert forall|x: WindowId| c.contains(x) <==> m.columns[i].contains(x) by {}
            lemma_update_wf(m, i, c);
            lemma_same_members(m, i, c);
        },
        None => {},
    }
}

/// Moving a window within its ring keeps the rings well formed and their members.
pub proof fn lemma_rings_ring_swapped(
    m: RingsModel,
    focused: Option<WindowId>,
    label: Seq<char>,
    forward: bool,
)
    requires
        m.wf(),
    ensures
        m.ring_swapped(focused, label, forward).wf(),
        forall|x: WindowId| m.ring_swapped(focused, label, forward).contains(x) <==> m.contains(x),
{
    match m.tag_index(label) {
        Some(i) => {
            let c = m.columns[i].ring_swapped(focused, forward);
            assert(m.columns[i].wf());
            lemma_swapped_wf(m.columns[i].left, forward);
            lemma_swapped_wf(m.columns[i].right, forward);
            assert forall|x: WindowId| c.contains(x) <==> m.columns[i].contains(x) by {}
            lemma_update_wf(m, i, c);
            lemma_same_members(m, i, c);
        },
        None => {},
    }
}

/// Replacing one tag's columns by a pair that holds no window of another tag
/// keeps the whole well formed.
pub proof fn lemma_update_wf(m: RingsModel, i: int, c: ColumnsModel)
    requires
        m.wf(),
        0 <= i < m.columns.len(),
        c.wf(),
        forall|x: WindowId| #[trigger] c.contains(x) ==> m.columns[i].contains(x) || !m.contains(x),
    ensures
        m.with_columns(m.columns.update(i, c)).wf(),
{
    let n = m.with_columns(m.columns.update(i, c));
    assert forall|a: int, b: int, x: WindowId|
        0 <= a < n.columns.len() && 0 <= b < n.columns.len() && a != b implies !(
    #[trigger] n.columns[a].contains(x) && #[trigger] n.columns[b].contains(x)) by {
        if n.columns[a].contains(x) && n.columns[b].contains(x) {
            if a == i {
                assert(c.contains(x));
                assert(m.columns[b].contains(x));
                assert(m.contains(x));
                assert(m.columns[i].contains(x));
            } else if b == i {
                assert(c.contains(x));
                assert(m.columns[a].contains(x));
                assert(m.contains(x));
                assert(m.columns[i].contains(x));
            } else {
                assert(m.columns[a].contains(x));
                assert(m.columns[b].contains(x));
            }
        }
    }
}

/// Inserting a window that is in no ring keeps the rings well formed, and
/// afterwards the members are those of before and, where the tag exists, the
/// new one.
pub proof fn lemma_rings_inserted(
    m: RingsModel,
    id: WindowId,
    focused: Option<WindowId>,
    label: Seq<char>,
)
    requires
        m.wf(),
        !m.contains(id),
    ensures
        m.inserted(id, focused, label).wf(),
        forall|x: WindowId|
            m.inserted(id, focused, label).contains(x) <==> (m.contains(x) || (x == id
                && m.tag_index(label) is Some)),
        m.tag_index(label) is Some ==> m.inserted(id, focused, label).shows(id),
{
    let n = m.inserted(id, focused, label);
    match m.tag_index(label) {
        Some(i) => {
            let c = m.columns[i].inserted(id, focused);
            assert(!m.columns[i].contains(id));
            lemma_columns_inserted(m.columns[i], id, focused);
            assert forall|x: WindowId| #[trigger] c.contains(x) implies m.columns[i].contains(x)
                || !m.contains(x) by {}
            lemma_update_wf(m, i, c);
            assert(n.columns[i].shows(id));
            assert forall|x: WindowId|
                n.contains(x) <==> (m.contains(x) || x == id) by {
                if n.contains(x) {
                    let j = choose|j: int|
                    0 <= j < n.columns.len() && #[trigger] n.columns[j].contains(x);
                    if j != i {
                        assert(m.columns[j].contains(x));
                    } else if x != id {
                        assert(m.columns[i].contains(x));
                    }
                }
                if m.contains(x) {
                    let j = choose|j: int|
                    0 <= j < m.columns.len() && #[trigger] m.columns[j].contains(x);
                    assert(n.columns[j].contains(x));
                }
                if x == id {
                    assert(n.columns[i].contains(x));
                }
            }
        },
        None => {},
    }
}

} // verus!
