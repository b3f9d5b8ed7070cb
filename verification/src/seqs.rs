//! Small facts about sequences.

use vstd::prelude::*;

verus! {

/// A list with one more entry at its end holds that entry and what it held.
pub proof fn lemma_push_contains<A>(s: Seq<A>, last: A)
    ensures
        forall|x: A| s.push(last).contains(x) <==> s.contains(x) || x == last,
{
    let t = s.push(last);
    assert forall|x: A| t.contains(x) <==> s.contains(x) || x == last by {
        if t.contains(x) {
            let i = choose|i: int| 0 <= i < t.len() && t[i] == x;
            if i < s.len() {
                assert(s[i] == x);
            }
        }
        if s.contains(x) {
            let i = choose|i: int| 0 <= i < s.len() && s[i] == x;
            assert(t[i] == x);
        }
        if x == last {
            assert(t[t.len() - 1] == x);
        }
    }
}

/// The first `k + 1` entries hold the first `k` and the entry at `k`.
pub proof fn lemma_take_next<A>(s: Seq<A>, k: int, x: A)
    requires
        0 <= k < s.len(),
    ensures
        s.take(k + 1).contains(x) <==> s.take(k).contains(x) || s[k] == x,
{
    assert(s.take(k + 1) =~= s.take(k).push(s[k]));
    lemma_push_contains(s.take(k), s[k]);
}

/// A reversed list holds what the list holds.
pub proof fn lemma_reverse_contains<A>(s: Seq<A>, x: A)
    ensures
        s.reverse().contains(x) <==> s.contains(x),
{
    let r = s.reverse();
    if r.contains(x) {
        let i = choose|i: int| 0 <= i < r.len() && r[i] == x;
        assert(s[s.len() - 1 - i] == x);
    }
    if s.contains(x) {
        let i = choose|i: int| 0 <= i < s.len() && s[i] == x;
        assert(r[s.len() - 1 - i] == x);
    }
}

} // verus!
