//! Facts about sequences of addresses from which one address is struck out.

use vstd::prelude::*;
use crate::addr::NodeAddr;

verus! {

/// The predicate that holds of every address but `v`.
pub open spec fn differs_from(v: NodeAddr) -> spec_fn(NodeAddr) -> bool {
    |x: NodeAddr| x != v
}

/// `s` with every occurrence of `v` struck out; the rest keeps its order.
pub open spec fn without(s: Seq<NodeAddr>, v: NodeAddr) -> Seq<NodeAddr> {
    s.filter(differs_from(v))
}

/// Striking `v` out of `s.push(x)` strikes it out of `s` and keeps `x` unless it is `v`.
pub proof fn lemma_without_push(s: Seq<NodeAddr>, x: NodeAddr, v: NodeAddr)
    ensures
        without(s.push(x), v) == if x != v {
            without(s, v).push(x)
        } else {
            without(s, v)
        },
{
    s.lemma_filter_push(x, differs_from(v));
}

/// Striking anything out of the empty sequence leaves it empty.
pub proof fn lemma_without_empty(v: NodeAddr)
    ensures
        without(Seq::<NodeAddr>::empty(), v) == Seq::<NodeAddr>::empty(),
{
    reveal(Seq::filter);
}

/// What `without(s, v)` holds: exactly the members of `s` other than `v`, no more
/// of them than `s` has, and without repetition where `s` has none.
pub proof fn lemma_without_members(s: Seq<NodeAddr>, v: NodeAddr)
    ensures
        !without(s, v).contains(v),
        forall|x: NodeAddr| x != v ==> (#[trigger] without(s, v).contains(x) <==> s.contains(x)),
        forall|x: NodeAddr| #[trigger] without(s, v).contains(x) ==> s.contains(x),
        without(s, v).len() <= s.len(),
        s.no_duplicates() ==> without(s, v).no_duplicates(),
        !s.contains(v) ==> without(s, v) == s,
    decreases s.len(),
{
    if s.len() == 0 {
        lemma_without_empty(v);
        assert(s =~= Seq::<NodeAddr>::empty());
    } else {
        let front = s.drop_last();
        let last = s.last();
        assert(s =~= front.push(last));
        lemma_without_members(front, v);
        lemma_without_push(front, last, v);
        let w = without(s, v);
        let wf = without(front, v);
        assert forall|x: NodeAddr| x != v implies (#[trigger] w.contains(x) <==> s.contains(x)) by {
            if s.contains(x) {
                let i = choose|i: int| 0 <= i < s.len() && s[i] == x;
                if i == s.len() - 1 {
                    assert(w[w.len() - 1] == x);
                } else {
                    assert(front[i] == x);
                    assert(wf.contains(x));
                    let j = choose|j: int| 0 <= j < wf.len() && wf[j] == x;
                    assert(w[j] == x);
                }
            }
            if w.contains(x) {
                let j = choose|j: int| 0 <= j < w.len() && w[j] == x;
                if j < wf.len() {
                    assert(wf[j] == x);
                    assert(wf.contains(x));
                    let i = choose|i: int| 0 <= i < front.len() && front[i] == x;
                    assert(s[i] == x);
                } else {
                    assert(s[s.len() - 1] == x);
                }
            }
        }
        assert(!w.contains(v)) by {
            if w.contains(v) {
                let j = choose|j: int| 0 <= j < w.len() && w[j] == v;
                if j < wf.len() {
                    assert(wf[j] == v);
                }
            }
        }
        assert forall|x: NodeAddr| #[trigger] w.contains(x) implies s.contains(x) by {
            assert(x != v);
        }
        if s.no_duplicates() {
            assert(front.no_duplicates());
            assert(w.no_duplicates()) by {
                if last != v {
                    assert(!front.contains(last)) by {
                        if front.contains(last) {
                            let i = choose|i: int| 0 <= i < front.len() && front[i] == last;
                            assert(s[i] == s[s.len() - 1]);
                        }
                    }
                    assert(!wf.contains(last));
                    assert forall|i: int, j: int|
                        0 <= i < w.len() && 0 <= j < w.len() && i != j implies w[i] != w[j] by {
                        if i == wf.len() {
                            assert(wf[j] == w[j]);
                        } else if j == wf.len() {
                            assert(wf[i] == w[i]);
                        }
                    }
                }
            }
        }
        if !s.contains(v) {
            assert(!front.contains(v)) by {
                if front.contains(v) {
                    let i = choose|i: int| 0 <= i < front.len() && front[i] == v;
                    assert(s[i] == v);
                }
            }
            assert(last != v) by {
                assert(s[s.len() - 1] == last);
            }
        }
    }
}

/// In a sequence without repetition, striking out the address at position `i`
/// removes that position and nothing else.
pub proof fn lemma_without_is_remove(s: Seq<NodeAddr>, i: int)
    requires
        s.no_duplicates(),
        0 <= i < s.len(),
    ensures
        without(s, s[i]) == s.remove(i),
    decreases s.len(),
{
    let v = s[i];
    let front = s.drop_last();
    let last = s.last();
    assert(s =~= front.push(last));
    lemma_without_push(front, last, v);
    if i == s.len() - 1 {
        assert(!front.contains(v)) by {
            if front.contains(v) {
                let k = choose|k: int| 0 <= k < front.len() && front[k] == v;
                assert(s[k] == s[i]);
            }
        }
        lemma_without_members(front, v);
        assert(s.remove(i) =~= front);
    } else {
        assert(front.no_duplicates());
        assert(front[i] == v);
        lemma_without_is_remove(front, i);
        assert(last != v);
        assert(s.remove(i) =~= front.remove(i).push(last));
    }
}

} // verus!
