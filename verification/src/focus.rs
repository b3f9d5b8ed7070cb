//! Moving the focus from column to column, across the tags that are on a screen.

use crate::manager::{Rings, RingsModel};
use crate::ring::WindowId;
use vstd::prelude::*;

verus! {

/// Where the focus goes.
#[derive(Debug, Clone, PartialEq, Eq)]
pub enum FocusMove {
    /// Nowhere: the focused window has no place among the columns on screen.
    Noop,
    /// To this window.
    Id(WindowId),
    /// To the tag with this label, which has no window.
    Tag(String),
}

/// A place that the focus can be in: a column that shows a window, or a tag
/// without windows.
pub enum FocusTarget {
    Window(WindowId),
    Tag(Seq<char>),
}

impl View for FocusMove {
    type V = Option<FocusTarget>;

    open spec fn view(&self) -> Option<FocusTarget> {
        match self {
            FocusMove::Noop => None,
            FocusMove::Id(id) => Some(FocusTarget::Window(*id)),
            FocusMove::Tag(label) => Some(FocusTarget::Tag(label@)),
        }
    }
}

/// The views of a list of labels.
pub open spec fn labels_view(labels: Seq<String>) -> Seq<Seq<char>> {
    labels.map_values(|s: String| s@)
}

/// The places that one tag adds to the cycle: its columns' cursors, left
/// first, each left out while the other column's cursor is fullscreen; the
/// tag itself when both columns are empty; nothing when no tag has the label.
pub open spec fn slots(m: RingsModel, label: Seq<char>) -> Seq<FocusTarget> {
    match m.tag_index(label) {
        None => Seq::empty(),
        Some(i) => match (m.columns[i].left.focus(), m.columns[i].right.focus()) {
            (Some(l), Some(r)) => (if m.fullscreen.contains(r) {
                Seq::empty()
            } else {
                seq![FocusTarget::Window(l)]
            }) + (if m.fullscreen.contains(l) {
                Seq::empty()
            } else {
                seq![FocusTarget::Window(r)]
            }),
            (Some(l), None) => seq![FocusTarget::Window(l)],
            (None, Some(r)) => seq![FocusTarget::Window(r)],
            (None, None) => seq![FocusTarget::Tag(label)],
        },
    }
}

/// The places of all the given tags, one tag after the other.
pub open spec fn focus_cycle(m: RingsModel, labels: Seq<Seq<char>>) -> Seq<FocusTarget>
    decreases labels.len(),
{
    if labels.len() == 0 {
        Seq::empty()
    } else {
        focus_cycle(m, labels.drop_last()) + slots(m, labels.last())
    }
}

/// The last position in the cycle at which window `id` stands.
pub open spec fn locate(cycle: Seq<FocusTarget>, id: WindowId) -> Option<int>
    decreases cycle.len(),
{
    if cycle.len() == 0 {
        None
    } else if cycle.last() == FocusTarget::Window(id) {
        Some(cycle.len() - 1)
    } else {
        locate(cycle.drop_last(), id)
    }
}

/// The position next to `at` in a cycle of length `len`, wrapping at the ends.
pub open spec fn beside(len: int, at: int, left: bool) -> int {
    if left {
        if at == 0 {
            len - 1
        } else {
            at - 1
        }
    } else {
        if at + 1 == len {
            0
        } else {
            at + 1
        }
    }
}

/// The place next to window `id` in the cycle of the given tags, if `id`
/// has a place in it.
pub open spec fn focus_move(
    m: RingsModel,
    left: bool,
    id: WindowId,
    labels: Seq<Seq<char>>,
) -> Option<FocusTarget> {
    let cycle = focus_cycle(m, labels);
    match locate(cycle, id) {
        Some(at) => Some(cycle[beside(cycle.len() as int, at, left)]),
        None => None,
    }
}

/// A place of the cycle while it is built: a window, or the position of a
/// label in the list of tags.
#[derive(Clone, Copy)]
enum Slot {
    Window(WindowId),
    Tag(usize),
}

spec fn slot_target(s: Slot, labels: Seq<Seq<char>>) -> FocusTarget {
    match s {
        Slot::Window(id) => FocusTarget::Window(id),
        Slot::Tag(k) => FocusTarget::Tag(labels[k as int]),
    }
}

spec fn slots_match(cycle: Seq<Slot>, labels: Seq<Seq<char>>, model: Seq<FocusTarget>) -> bool {
    &&& cycle.len() == model.len()
    &&& forall|j: int|
        0 <= j < cycle.len() ==> slot_target(#[trigger] cycle[j], labels) == model[j] && (
        cycle[j] matches Slot::Tag(k) ==> k < labels.len())
}

impl Rings {
    /// The place next to the focused window `fid`, to its left or its
    /// right, in the cycle that the tags on screen make: for each tag, in
    /// the order given, the cursor of the left and of the right column, a
    /// cursor being left out while the other column's is fullscreen, or the
    /// tag itself if it has no window. The cycle wraps at both ends.
    /// `Noop` when `fid` has no place in the cycle.
    pub fn move_focus(
        &self,
        move_left: bool,
        fid: WindowId,
        ws_labels: &Vec<String>,
    ) -> (r: FocusMove)
        requires
            self.wf(),
        ensures
            r@ == focus_move(self@, move_left, fid, labels_view(ws_labels@)),
    {
        let ghost labels = labels_view(ws_labels@);
        let mut cycle: Vec<Slot> = Vec::new();
        let mut k: usize = 0;
        while k < ws_labels.len()
            invariant
                self.wf(),
                labels == labels_view(ws_labels@),
                k <= ws_labels.len(),
                slots_match(cycle@, labels, focus_cycle(self@, labels.take(k as int))),
            decreases ws_labels.len() - k,
        {
            let ghost before = cycle@;
            proof {
                assert(labels.take(k as int + 1).drop_last() =~= labels.take(k as int));
                assert(labels.take(k as int + 1).last() == labels[k as int]);
            }
            if let Some(pair) = self.columns(ws_labels[k].as_str()) {
                let l = pair.left().focus();
                let r = pair.right().focus();
                match (l, r) {
                    (Some(lid), Some(rid)) => {
                        if !self.is_fullscreen(rid) {
                            cycle.push(Slot::Window(lid));
                        }
                        if !self.is_fullscreen(lid) {
                            cycle.push(Slot::Window(rid));
                        }
                    },
                    (Some(lid), None) => {
                        cycle.push(Slot::Window(lid));
                    },
                    (None, Some(rid)) => {
                        cycle.push(Slot::Window(rid));
                    },
                    (None, None) => {
                        cycle.push(Slot::Tag(k));
                    },
                }
            }
            proof {
                let added = slots(self@, labels[k as int]);
                let old_model = focus_cycle(self@, labels.take(k as int));
                let new_model = focus_cycle(self@, labels.take(k as int + 1));
                assert(new_model == old_model + added);
                assert(cycle@.len() == before.len() + added.len());
                assert forall|j: int| 0 <= j < cycle@.len() implies slot_target(
                    #[trigger] cycle@[j],
                    labels,
                ) == new_model[j] && (cycle@[j] matches Slot::Tag(t) ==> t < labels.len()) by {
                    if j < before.len() {
                        assert(cycle@[j] == before[j]);
                    } else {
                        assert(new_model[j] == added[j - before.len()]);
                    }
                }
            }
            k += 1;
        }
        proof {
            assert(labels.take(ws_labels.len() as int) =~= labels);
        }
        let ghost model = focus_cycle(self@, labels);
        let mut found: Option<usize> = None;
        let mut i: usize = 0;
        while i < cycle.len()
            invariant
                i <= cycle.len(),
                slots_match(cycle@, labels, model),
                match found {
                    Some(at) => locate(model.take(i as int), fid) == Some(at as int) && at < i,
                    None => locate(model.take(i as int), fid) is None,
                },
            decreases cycle.len() - i,
        {
            proof {
                assert(model.take(i as int + 1).drop_last() =~= model.take(i as int));
                assert(model.take(i as int + 1).last() == model[i as int]);
                assert(slot_target(cycle@[i as int], labels) == model[i as int]);
            }
            if let Slot::Window(cid) = cycle[i] {
                if cid == fid {
                    found = Some(i);
                }
            }
            i += 1;
        }
        proof {
            assert(model.take(cycle.len() as int) =~= model);
        }
        match found {
            None => FocusMove::Noop,
            Some(at) => {
                let n = cycle.len();
                let next = if move_left {
                    if at == 0 {
                        n - 1
                    } else {
                        at - 1
                    }
                } else {
                    if at + 1 == n {
                        0
                    } else {
                        at + 1
                    }
                };
                assert(slot_target(cycle@[next as int], labels) == model[next as int]);
                match cycle[next] {
                    Slot::Window(id) => FocusMove::Id(id),
                    Slot::Tag(t) => FocusMove::Tag(ws_labels[t].clone()),
                }
            },
        }
    }
}

} // verus!
