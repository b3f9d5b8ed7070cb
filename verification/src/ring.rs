//! A cyclic list of window identifiers with one cursor.

use vstd::prelude::*;

verus! {

/// Handle of a window, as the window system hands it out. It is only ever
/// compared for equality.
pub type WindowId = u32;

/// What a [`Ring`] stands for: its members in order and the position of the cursor.
pub struct RingModel {
    pub members: Seq<WindowId>,
    pub cursor: int,
}

impl RingModel {
    /// No member occurs twice, and the cursor is on a member (0 when there is none).
    pub open spec fn wf(self) -> bool {
        &&& self.members.no_duplicates()
        &&& 0 <= self.cursor
        &&& self.cursor < self.members.len() || (self.members.len() == 0 && self.cursor == 0)
    }

    /// The ring without members.
    pub open spec fn empty() -> RingModel {
        RingModel { members: Seq::empty(), cursor: 0 }
    }

    /// The member under the cursor.
    pub open spec fn focus(self) -> Option<WindowId> {
        if self.members.len() == 0 {
            None
        } else {
            Some(self.members[self.cursor])
        }
    }

    /// `id` placed directly after the cursor, with the cursor on it.
    pub open spec fn inserted(self, id: WindowId) -> RingModel {
        if self.members.len() == 0 {
            RingModel { members: seq![id], cursor: 0 }
        } else {
            RingModel { members: self.members.insert(self.cursor + 1, id), cursor: self.cursor + 1 }
        }
    }

    /// The position one step from `i` in a cycle of this ring's length.
    pub open spec fn step(self, i: int, forward: bool) -> int {
        if forward {
            if i + 1 >= self.members.len() {
                0
            } else {
                i + 1
            }
        } else {
            if i <= 0 {
                self.members.len() - 1
            } else {
                i - 1
            }
        }
    }

    /// The cursor moved one step, wrapping at the ends. A ring of fewer than
    /// two members is left as it is.
    pub open spec fn rotated(self, forward: bool) -> RingModel {
        if self.members.len() < 2 {
            self
        } else {
            RingModel { members: self.members, cursor: self.step(self.cursor, forward) }
        }
    }

    /// `k` rotations in a row.
    pub open spec fn rotated_times(self, forward: bool, k: nat) -> RingModel
        decreases k,
    {
        if k == 0 {
            self
        } else {
            self.rotated_times(forward, (k - 1) as nat).rotated(forward)
        }
    }

    /// `id` taken out. The cursor goes to the entry just before the place
    /// where `id` stood, or to the last entry when `id` stood first.
    pub open spec fn removed(self, id: WindowId) -> RingModel {
        if !self.members.contains(id) {
            self
        } else {
            let at = self.members.index_of(id);
            let rest = self.members.remove(at);
            RingModel {
                members: rest,
                cursor: if rest.len() == 0 {
                    0
                } else if at == 0 {
                    rest.len() - 1
                } else {
                    at - 1
                },
            }
        }
    }

    /// The member under the cursor exchanged with its neighbour; the cursor
    /// follows it. At an end of the list the member moves to the other end,
    /// which keeps the cyclic order of the others.
    pub open spec fn swapped(self, forward: bool) -> RingModel {
        let n = self.members.len() as int;
        let c = self.cursor;
        if n < 2 {
            self
        } else if forward {
            if c == n - 1 {
                RingModel { members: seq![self.members[c]] + self.members.drop_last(), cursor: 0 }
            } else {
                RingModel {
                    members: self.members.update(c, self.members[c + 1]).update(
                        c + 1,
                        self.members[c],
                    ),
                    cursor: c + 1,
                }
            }
        } else {
            if c == 0 {
                RingModel {
                    members: self.members.drop_first().push(self.members[0]),
                    cursor: n - 1,
                }
            } else {
                RingModel {
                    members: self.members.update(c - 1, self.members[c]).update(
                        c,
                        self.members[c - 1],
                    ),
                    cursor: c - 1,
                }
            }
        }
    }
}

/// One column: a cyclic list of windows, of which the one under the cursor is shown.
#[derive(Debug, Clone)]
pub struct Ring {
    ring: Vec<WindowId>,
    focus: usize,
}

impl View for Ring {
    type V = RingModel;

    closed spec fn view(&self) -> RingModel {
        RingModel { members: self.ring@, cursor: self.focus as int }
    }
}

impl Default for Ring {
    fn default() -> (r: Ring)
        ensures
            r.wf(),
            r@ == RingModel::empty(),
    {
        Ring::new()
    }
}

impl Ring {
    /// The ring is well formed: see [`RingModel::wf`].
    pub open spec fn wf(&self) -> bool {
        self@.wf()
    }

    /// A ring without members.
    pub fn new() -> (r: Ring)
        ensures
            r.wf(),
            r@ == RingModel::empty(),
    {
        Ring { ring: Vec::new(), focus: 0 }
    }

    /// The number of members.
    pub fn len(&self) -> (n: usize)
        ensures
            n == self@.members.len(),
    {
        self.ring.len()
    }

    /// The window under the cursor, if the ring has any.
    pub fn focus(&self) -> (r: Option<WindowId>)
        requires
            self.wf(),
        ensures
            r == self@.focus(),
    {
        if self.ring.len() == 0 {
            None
        } else {
            Some(self.ring[self.focus])
        }
    }

    /// The index of the cursor, if the ring has any member.
    pub fn cursor(&self) -> (r: Option<usize>)
        requires
            self.wf(),
        ensures
            r == (if self@.members.len() == 0 {
                None
            } else {
                Some(self@.cursor as usize)
            }),
    {
        if self.ring.len() == 0 {
            None
        } else {
            Some(self.focus)
        }
    }

    /// The members in ring order.
    pub fn members(&self) -> (r: Vec<WindowId>)
        ensures
            r@ == self@.members,
    {
        self.ring.clone()
    }

    /// Where `id` stands in the ring.
    pub fn position(&self, id: WindowId) -> (r: Option<usize>)
        requires
            self.wf(),
        ensures
            match r {
                Some(i) => self@.members.contains(id) && i == self@.members.index_of(id),
                None => !self@.members.contains(id),
            },
    {
        let mut i: usize = 0;
        while i < self.ring.len()
            invariant
                self.wf(),
                i <= self.ring.len(),
                forall|j: int| 0 <= j < i ==> self.ring@[j] != id,
            decreases self.ring.len() - i,
        {
            if self.ring[i] == id {
                proof {
                    lemma_index_of_unique(self.ring@, id, i as int);
                }
                return Some(i);
            }
            i += 1;
        }
        None
    }

    /// Whether `id` is a member.
    pub fn contains(&self, id: WindowId) -> (r: bool)
        requires
            self.wf(),
        ensures
            r == self@.members.contains(id),
    {
        self.position(id).is_some()
    }

    /// Puts `id` directly after the cursor and moves the cursor to it. The
    /// caller sees to it that `id` is not yet in any ring.
    pub fn insert(&mut self, id: WindowId)
        requires
            old(self).wf(),
            !old(self)@.members.contains(id),
        ensures
            final(self).wf(),
            final(self)@ == old(self)@.inserted(id),
            final(self)@.focus() == Some(id),
    {
        if self.ring.len() == 0 {
            self.ring.push(id);
        } else {
            self.ring.insert(self.focus + 1, id);
            self.focus += 1;
        }
        proof {
            lemma_inserted_wf(old(self)@, id);
            assert(self@.members =~= old(self)@.inserted(id).members);
        }
    }

    /// Moves the cursor one step, forward or back, wrapping at the ends, and
    /// returns the window it lands on. With fewer than two members nothing
    /// changes and `None` is returned.
    pub fn rotate(&mut self, right: bool) -> (r: Option<WindowId>)
        requires
            old(self).wf(),
        ensures
            final(self).wf(),
            final(self)@ == old(self)@.rotated(right),
            r == (if old(self)@.members.len() < 2 {
                None
            } else {
                final(self)@.focus()
            }),
    {
        let n = self.ring.len();
        if n < 2 {
            None
        } else {
            if right {
                if self.focus + 1 >= n {
                    self.focus = 0;
                } else {
                    self.focus += 1;
                }
            } else {
                if self.focus == 0 {
                    self.focus = n - 1;
                } else {
                    self.focus -= 1;
                }
            }
            Some(self.ring[self.focus])
        }
    }

    /// Takes `id` out of the ring. Returns `(false, None)` when `id` is not a
    /// member, `(true, None)` when the ring is empty afterwards, and otherwise
    /// `(false, Some(w))` with `w` the window now under the cursor: the one
    /// that stood just before `id`, or the last one when `id` stood first.
    pub fn delete(&mut self, id: WindowId) -> (r: (bool, Option<WindowId>))
        requires
            old(self).wf(),
        ensures
            final(self).wf(),
            final(self)@ == old(self)@.removed(id),
            !final(self)@.members.contains(id),
            final(self)@.members.len() > 0 ==> 0 <= final(self)@.cursor,
            final(self)@.members.len() > 0 ==> final(self)@.cursor < final(self)@.members.len(),
            r == (if !old(self)@.members.contains(id) {
                (false, None::<WindowId>)
            } else if final(self)@.members.len() == 0 {
                (true, None::<WindowId>)
            } else {
                (false, final(self)@.focus())
            }),
    {
        proof {
            lemma_removed_wf(self@, id);
        }
        match self.position(id) {
            None => (false, None),
            Some(at) => {
                self.ring.remove(at);
                let n = self.ring.len();
                if n == 0 {
                    self.focus = 0;
                    (true, None)
                } else {
                    if at == 0 {
                        self.focus = n - 1;
                    } else {
                        self.focus = at - 1;
                    }
                    (false, Some(self.ring[self.focus]))
                }
            },
        }
    }

    /// Exchanges the window under the cursor with its neighbour in the given
    /// direction; the cursor stays on the window. At an end of the list the
    /// window moves to the other end. With fewer than two members nothing changes.
    pub fn swap(&mut self, right: bool)
        requires
            old(self).wf(),
        ensures
            final(self).wf(),
            final(self)@ == old(self)@.swapped(right),
    {
        proof {
            lemma_swapped_wf(self@, right);
        }
        let n = self.ring.len();
        if n < 2 {
            return ;
        }
        let c = self.focus;
        let x = self.ring[c];
        if right {
            if c == n - 1 {
                self.ring.remove(c);
                self.ring.insert(0, x);
                self.focus = 0;
            } else {
                let y = self.ring[c + 1];
                self.ring.set(c, y);
                self.ring.set(c + 1, x);
                self.focus = c + 1;
            }
        } else {
            if c == 0 {
                self.ring.remove(0);
                self.ring.push(x);
                self.focus = n - 1;
            } else {
                let y = self.ring[c - 1];
                self.ring.set(c - 1, x);
                self.ring.set(c, y);
                self.focus = c - 1;
            }
        }
        proof {
            assert(self@.members =~= old(self)@.swapped(right).members);
        }
    }
}

/// In a list without repetitions an entry is found at one index only.
pub proof fn lemma_index_of_unique(s: Seq<WindowId>, id: WindowId, i: int)
    requires
        s.no_duplicates(),
        0 <= i < s.len(),
        s[i] == id,
    ensures
        s.contains(id),
        s.index_of(id) == i,
{
}

/// Inserting a new window keeps the ring well formed, puts the cursor on
/// it and adds just that window.
pub proof fn lemma_inserted_wf(m: RingModel, id: WindowId)
    requires
        m.wf(),
        !m.members.contains(id),
    ensures
        m.inserted(id).wf(),
        m.inserted(id).focus() == Some(id),
        forall|x: WindowId|
            m.inserted(id).members.contains(x) <==> (x == id || m.members.contains(x)),
{
    let n = m.inserted(id);
    let p = if m.members.len() == 0 { 0 } else { m.cursor + 1 };
    assert(n.members =~= m.members.insert(p, id));
    assert forall|i: int, j: int|
        0 <= i < n.members.len() && 0 <= j < n.members.len() && i != j implies n.members[i]
        != n.members[j] by {
        let oi = if i < p { i } else { i - 1 };
        let oj = if j < p { j } else { j - 1 };
        if i == p {
            assert(m.members[oj] == n.members[j]);
        } else if j == p {
            assert(m.members[oi] == n.members[i]);
        } else {
            assert(m.members[oi] == n.members[i]);
            assert(m.members[oj] == n.members[j]);
        }
    }
    assert forall|x: WindowId| n.members.contains(x) <==> (x == id || m.members.contains(x)) by {
        if n.members.contains(x) {
            let i = choose|i: int| 0 <= i < n.members.len() && n.members[i] == x;
            if i != p {
                let oi = if i < p { i } else { i - 1 };
                assert(m.members[oi] == x);
            }
        }
        if x == id {
            assert(n.members[p] == id);
        }
        if m.members.contains(x) {
            let i = choose|i: int| 0 <= i < m.members.len() && m.members[i] == x;
            let ni = if i < p { i } else { i + 1 };
            assert(n.members[ni] == x);
        }
    }
}

/// Removing a window keeps the ring well formed and takes out just that window.
pub proof fn lemma_removed_wf(m: RingModel, id: WindowId)
    requires
        m.wf(),
    ensures
        m.removed(id).wf(),
        forall|x: WindowId|
            m.removed(id).members.contains(x) <==> (x != id && m.members.contains(x)),
        m.members.contains(id) ==> m.removed(id).members.len() == m.members.len() - 1,
{
    let n = m.removed(id);
    if m.members.contains(id) {
        let at = m.members.index_of(id);
        m.members.remove_ensures(at);
        assert forall|i: int, j: int|
            0 <= i < n.members.len() && 0 <= j < n.members.len() && i != j implies n.members[i]
            != n.members[j] by {
            let oi = if i < at { i } else { i + 1 };
            let oj = if j < at { j } else { j + 1 };
            assert(m.members[oi] == n.members[i]);
            assert(m.members[oj] == n.members[j]);
        }
        assert forall|x: WindowId|
            n.members.contains(x) <==> (x != id && m.members.contains(x)) by {
            if n.members.contains(x) {
                let i = choose|i: int| 0 <= i < n.members.len() && n.members[i] == x;
                let oi = if i < at { i } else { i + 1 };
                assert(m.members[oi] == x);
            }
            if x != id && m.members.contains(x) {
                let i = choose|i: int| 0 <= i < m.members.len() && m.members[i] == x;
                let ni = if i < at { i } else { i - 1 };
                assert(n.members[ni] == x);
            }
        }
    }
}

/// Swapping keeps the ring well formed, its members, and the window under the cursor.
pub proof fn lemma_swapped_wf(m: RingModel, forward: bool)
    requires
        m.wf(),
    ensures
        m.swapped(forward).wf(),
        m.swapped(forward).focus() == m.focus(),
        m.swapped(forward).members.len() == m.members.len(),
        forall|x: WindowId| m.swapped(forward).members.contains(x) <==> m.members.contains(x),
{
    let s = m.swapped(forward);
    let n = m.members.len() as int;
    let c = m.cursor;
    if n >= 2 {
        // where each entry of the new list stood in the old one
        let from = |i: int|
            if forward {
                if c == n - 1 {
                    if i == 0 {
                        c
                    } else {
                        i - 1
                    }
                } else if i == c {
                    c + 1
                } else if i == c + 1 {
                    c
                } else {
                    i
                }
            } else {
                if c == 0 {
                    if i == n - 1 {
                        0
                    } else {
                        i + 1
                    }
                } else if i == c - 1 {
                    c
                } else if i == c {
                    c - 1
                } else {
                    i
                }
            };
        let to = |i: int|
            if forward {
                if c == n - 1 {
                    if i == c {
                        0
                    } else {
                        i + 1
                    }
                } else if i == c {
                    c + 1
                } else if i == c + 1 {
                    c
                } else {
                    i
                }
            } else {
                if c == 0 {
                    if i == 0 {
                        n - 1
                    } else {
                        i - 1
                    }
                } else if i == c - 1 {
                    c
                } else if i == c {
                    c - 1
                } else {
                    i
                }
            };
        assert(s.members.len() == n);
        assert forall|i: int| 0 <= i < n implies 0 <= from(i) < n && s.members[i] == m.members[from(
            i,
        )] by {}
        assert forall|i: int| 0 <= i < n implies 0 <= to(i) < n && s.members[to(i)]
            == m.members[i] by {}
        assert forall|i: int, j: int| 0 <= i < n && 0 <= j < n && i != j implies s.members[i]
            != s.members[j] by {
            assert(from(i) != from(j));
            assert(s.members[i] == m.members[from(i)]);
            assert(s.members[j] == m.members[from(j)]);
        }
        assert forall|x: WindowId| s.members.contains(x) <==> m.members.contains(x) by {
            if s.members.contains(x) {
                let i = choose|i: int| 0 <= i < s.members.len() && s.members[i] == x;
                assert(m.members[from(i)] == x);
            }
            if m.members.contains(x) {
                let i = choose|i: int| 0 <= i < m.members.len() && m.members[i] == x;
                assert(s.members[to(i)] == x);
            }
        }
    }
}

/// Where the cursor stands after `k` rotations, for `k` up to the ring's length.
proof fn lemma_rotated_times_cursor(m: RingModel, forward: bool, k: nat)
    requires
        m.wf(),
        m.members.len() >= 2,
        k <= m.members.len(),
    ensures
        m.rotated_times(forward, k).members == m.members,
        m.rotated_times(forward, k).cursor == (if forward {
            if m.cursor + k < m.members.len() {
                m.cursor + k
            } else {
                m.cursor + k - m.members.len()
            }
        } else {
            if m.cursor - k >= 0 {
                m.cursor - k
            } else {
                m.cursor - k + m.members.len()
            }
        }),
    decreases k,
{
    if k > 0 {
        lemma_rotated_times_cursor(m, forward, (k - 1) as nat);
    }
}

/// Rotation has the ring's length as its period: a ring of `n >= 2` members,
/// rotated `n` times in one direction, is the ring it was.
pub proof fn lemma_rotate_period(m: RingModel, forward: bool)
    requires
        m.wf(),
        m.members.len() >= 2,
    ensures
        m.rotated_times(forward, m.members.len()) == m,
        m.rotated_times(forward, m.members.len()).focus() == m.focus(),
{
    lemma_rotated_times_cursor(m, forward, m.members.len());
}

} // verus!
