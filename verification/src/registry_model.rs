//! The member registry as a mathematical state, and what each operation makes of it.

use vstd::prelude::*;
use vstd::arithmetic::div_mod::{lemma_mod_sub_multiples_vanish, lemma_small_mod};
use crate::addr::NodeAddr;
use crate::ring::{lemma_pushed_holds, pushed};
use crate::seq_lemmas::{lemma_without_is_remove, lemma_without_members, without};

verus! {

/// Number of addresses that the record of recent deaths holds.
pub const DEAD_CAPACITY: usize = 5;

/// What a registry knows.
pub struct RegistryState {
    /// The address of this node.
    pub myself: NodeAddr,
    /// The peers believed alive, in the order in which they joined.
    pub alive: Seq<NodeAddr>,
    /// The peers recently declared dead, oldest first.
    pub dead: Seq<NodeAddr>,
    /// Number of addresses that `dead` has room for.
    pub dead_capacity: nat,
    /// Position in `alive` of the peer to probe next.
    pub next_index: nat,
    /// The sequence number that the next probe gets.
    pub sequence_number: u64,
}

impl RegistryState {
    /// What holds of a registry at all times.
    pub open spec fn wf(self) -> bool {
        &&& !self.alive.contains(self.myself)
        &&& self.alive.no_duplicates()
        &&& self.dead.no_duplicates()
        &&& self.dead_capacity == DEAD_CAPACITY
        &&& self.dead.len() <= self.dead_capacity
        &&& (self.next_index < self.alive.len() || (self.alive.len() == 0 && self.next_index == 0))
        &&& forall|x: NodeAddr| #[trigger] self.alive.contains(x) ==> !self.dead.contains(x)
    }

    /// The set of the peers believed alive, for tests of presence.
    pub open spec fn presence(self) -> Set<NodeAddr> {
        self.alive.to_set()
    }

    /// Whether this node itself is in neither list.
    pub open spec fn self_absent(self) -> bool {
        &&& !self.alive.contains(self.myself)
        &&& !self.dead.contains(self.myself)
    }

    /// The registry of a node that knows no peer yet.
    pub open spec fn initial(myself: NodeAddr) -> Self {
        RegistryState {
            myself,
            alive: Seq::<NodeAddr>::empty(),
            dead: Seq::<NodeAddr>::empty(),
            dead_capacity: DEAD_CAPACITY as nat,
            next_index: 0,
            sequence_number: 0,
        }
    }

    /// Where the cursor stands once the peer at position `i` has left: one back
    /// if that peer stood at or before it, so that no peer is passed over.
    pub open spec fn cursor_after_removal(self, i: int) -> nat {
        if i <= self.next_index && self.next_index > 0 {
            (self.next_index - 1) as nat
        } else {
            self.next_index
        }
    }

    /// The registry without the alive peer `a`.
    pub open spec fn remove_member(self, a: NodeAddr) -> Self {
        if self.alive.contains(a) {
            RegistryState {
                alive: without(self.alive, a),
                next_index: self.cursor_after_removal(self.alive.index_of(a)),
                ..self
            }
        } else {
            self
        }
    }

    /// The registry after each address of `list` in turn was removed from the alive peers.
    pub open spec fn remove_members(self, list: Seq<NodeAddr>) -> Self
        decreases list.len(),
    {
        if list.len() == 0 {
            self
        } else {
            self.remove_members(list.drop_last()).remove_member(list.last())
        }
    }

    /// The registry after `a` was reported alive: a new peer joins at the end, and
    /// is no longer held dead. A report about this node itself changes nothing.
    pub open spec fn add_member(self, a: NodeAddr) -> Self {
        if a == self.myself {
            self
        } else {
            RegistryState {
                alive: if self.alive.contains(a) {
                    self.alive
                } else {
                    self.alive.push(a)
                },
                dead: without(self.dead, a),
                ..self
            }
        }
    }

    /// The registry after each address of `list` in turn was reported alive.
    pub open spec fn add_members(self, list: Seq<NodeAddr>) -> Self
        decreases list.len(),
    {
        if list.len() == 0 {
            self
        } else {
            self.add_members(list.drop_last()).add_member(list.last())
        }
    }

    /// The registry after a report of alive and dead peers: the dead leave first,
    /// so that a peer reported both ways ends up alive.
    pub open spec fn update_members(self, alive: Seq<NodeAddr>, dead: Seq<NodeAddr>) -> Self {
        self.remove_members(dead).add_members(alive)
    }

    /// The registry after `a` was declared dead.
    pub open spec fn kill_member(self, a: NodeAddr) -> Self {
        let removed = self.remove_member(a);
        RegistryState { dead: pushed(removed.dead, removed.dead_capacity, a), ..removed }
    }

    /// The registry after each address of `list` in turn was declared dead.
    pub open spec fn kill_members(self, list: Seq<NodeAddr>) -> Self
        decreases list.len(),
    {
        if list.len() == 0 {
            self
        } else {
            self.kill_members(list.drop_last()).kill_member(list.last())
        }
    }

    /// The peer to probe next, if there is any.
    pub open spec fn next_member(self) -> Option<NodeAddr> {
        if self.alive.len() == 0 {
            None
        } else {
            Some(self.alive[self.next_index as int])
        }
    }

    /// The registry after the cursor moved on to the following peer, round and round.
    pub open spec fn advance(self) -> Self {
        if self.alive.len() == 0 {
            self
        } else {
            RegistryState { next_index: (self.next_index + 1) % self.alive.len(), ..self }
        }
    }

    /// The registry after a sequence number was handed out.
    pub open spec fn bump_sequence(self) -> Self {
        RegistryState { sequence_number: (self.sequence_number + 1) as u64, ..self }
    }

    /// The peers that `k` probes in a row go to, in order.
    pub open spec fn probes(self, k: nat) -> Seq<NodeAddr>
        decreases k,
    {
        if k == 0 || self.alive.len() == 0 {
            Seq::<NodeAddr>::empty()
        } else {
            seq![self.alive[self.next_index as int]] + self.advance().probes((k - 1) as nat)
        }
    }
}

/// The alive list and the set of those present agree: a peer is in the one
/// exactly when it is in the other, and the set has as many peers as the list.
pub proof fn lemma_presence(s: RegistryState)
    requires
        s.wf(),
    ensures
        forall|x: NodeAddr| s.presence().contains(x) <==> s.alive.contains(x),
        s.presence().finite(),
        s.presence().len() == s.alive.len(),
{
    s.alive.unique_seq_to_set();
    vstd::seq_lib::seq_to_set_is_finite(s.alive);
}

/// Removing a peer keeps the registry sound and touches nothing but that peer
/// and the cursor.
pub proof fn lemma_remove_member(s: RegistryState, a: NodeAddr)
    requires
        s.wf(),
    ensures
        s.remove_member(a).wf(),
        !s.remove_member(a).alive.contains(a),
        forall|x: NodeAddr|
            x != a ==> (#[trigger] s.remove_member(a).alive.contains(x) <==> s.alive.contains(x)),
        s.remove_member(a).alive.len() == s.alive.len() - (if s.alive.contains(a) {
            1int
        } else {
            0int
        }),
        s.remove_member(a).dead == s.dead,
        s.remove_member(a).myself == s.myself,
        s.remove_member(a).sequence_number == s.sequence_number,
        s.remove_member(a).dead_capacity == s.dead_capacity,
{
    lemma_without_members(s.alive, a);
    if s.alive.contains(a) {
        let i = s.alive.index_of(a);
        lemma_without_is_remove(s.alive, i);
        let r = s.remove_member(a);
        assert(r.alive.len() == s.alive.len() - 1);
        assert forall|x: NodeAddr| #[trigger] r.alive.contains(x) implies !r.dead.contains(x) by {
            assert(s.alive.contains(x));
        }
    }
}

/// When a peer other than the one under the cursor leaves, the cursor still
/// points at the same peer: no peer is passed over, and none is probed twice.
pub proof fn lemma_removal_keeps_next_peer(s: RegistryState, a: NodeAddr)
    requires
        s.wf(),
        s.next_member() != Some(a),
    ensures
        s.remove_member(a).next_member() == s.next_member(),
{
    lemma_without_members(s.alive, a);
    if s.alive.contains(a) {
        let i = s.alive.index_of(a);
        lemma_without_is_remove(s.alive, i);
    }
}

/// Reporting a peer alive keeps the registry sound; the peer is then alive and
/// not dead, unless it is this node itself.
pub proof fn lemma_add_member(s: RegistryState, a: NodeAddr)
    requires
        s.wf(),
    ensures
        s.add_member(a).wf(),
        a != s.myself ==> s.add_member(a).alive.contains(a) && !s.add_member(a).dead.contains(a),
        forall|x: NodeAddr|
            #[trigger] s.add_member(a).alive.contains(x) <==> s.alive.contains(x) || (x == a && a
                != s.myself),
        forall|x: NodeAddr|
            #[trigger] s.add_member(a).dead.contains(x) <==> s.dead.contains(x) && !(x == a && a
                != s.myself),
        s.add_member(a).myself == s.myself,
        s.add_member(a).next_index == s.next_index,
        s.add_member(a).sequence_number == s.sequence_number,
        s.add_member(a).dead_capacity == s.dead_capacity,
{
    lemma_without_members(s.dead, a);
    let r = s.add_member(a);
    if a != s.myself {
        if !s.alive.contains(a) {
            assert(r.alive == s.alive.push(a));
            assert(r.alive[s.alive.len() as int] == a);
            assert forall|x: NodeAddr| #[trigger] r.alive.contains(x) <==> s.alive.contains(x) || x
                == a by {
                if r.alive.contains(x) {
                    let i = choose|i: int| 0 <= i < r.alive.len() && r.alive[i] == x;
                    if i < s.alive.len() {
                        assert(s.alive[i] == x);
                    }
                }
                if s.alive.contains(x) {
                    let i = choose|i: int| 0 <= i < s.alive.len() && s.alive[i] == x;
                    assert(r.alive[i] == x);
                }
            }
            assert(r.alive.no_duplicates()) by {
                assert forall|i: int, j: int|
                    0 <= i < r.alive.len() && 0 <= j < r.alive.len() && i != j implies r.alive[i]
                    != r.alive[j] by {
                    if i == s.alive.len() {
                        assert(s.alive[j] == r.alive[j]);
                    } else if j == s.alive.len() {
                        assert(s.alive[i] == r.alive[i]);
                    }
                }
            }
        }
        assert forall|x: NodeAddr| #[trigger] r.alive.contains(x) implies !r.dead.contains(x) by {
            if x != a {
                assert(s.alive.contains(x));
                assert(!s.dead.contains(x));
            }
        }
    }
}

/// Declaring a peer dead keeps the registry sound; the peer is then dead, as
/// the newest of the dead, and not alive.
pub proof fn lemma_kill_member(s: RegistryState, a: NodeAddr)
    requires
        s.wf(),
    ensures
        s.kill_member(a).wf(),
        !s.kill_member(a).alive.contains(a),
        s.kill_member(a).dead.contains(a),
        s.kill_member(a).dead.last() == a,
        s.kill_member(a).alive == s.remove_member(a).alive,
        forall|x: NodeAddr|
            #[trigger] s.kill_member(a).dead.contains(x) ==> x == a || s.dead.contains(x),
        s.kill_member(a).myself == s.myself,
        s.kill_member(a).sequence_number == s.sequence_number,
        a != s.myself && s.self_absent() ==> s.kill_member(a).self_absent(),
{
    lemma_remove_member(s, a);
    let removed = s.remove_member(a);
    lemma_pushed_holds(removed.dead, removed.dead_capacity, a);
    let r = s.kill_member(a);
    assert forall|x: NodeAddr| #[trigger] r.alive.contains(x) implies !r.dead.contains(x) by {
        assert(x != a);
        assert(s.alive.contains(x));
    }
}

/// Removing several peers keeps the registry sound: those alive afterwards are
/// those alive before that the list does not name; the dead stay as they were.
pub proof fn lemma_remove_members(s: RegistryState, list: Seq<NodeAddr>)
    requires
        s.wf(),
    ensures
        s.remove_members(list).wf(),
        forall|x: NodeAddr|
            #[trigger] s.remove_members(list).alive.contains(x) <==> s.alive.contains(x)
                && !list.contains(x),
        s.remove_members(list).dead == s.dead,
        s.remove_members(list).myself == s.myself,
        s.remove_members(list).sequence_number == s.sequence_number,
        s.remove_members(list).dead_capacity == s.dead_capacity,
    decreases list.len(),
{
    if list.len() > 0 {
        let front = list.drop_last();
        let last = list.last();
        lemma_remove_members(s, front);
        let mid = s.remove_members(front);
        lemma_remove_member(mid, last);
        let r = s.remove_members(list);
        assert forall|x: NodeAddr| #[trigger] r.alive.contains(x) <==> s.alive.contains(x)
            && !list.contains(x) by {
            lemma_contains_push(front, last, x);
            assert(list =~= front.push(last));
        }
    }
}

/// An address is in `s.push(a)` when it is in `s` or is `a`.
pub proof fn lemma_contains_push(s: Seq<NodeAddr>, a: NodeAddr, x: NodeAddr)
    ensures
        s.push(a).contains(x) <==> s.contains(x) || x == a,
{
    let t = s.push(a);
    if s.contains(x) {
        let i = choose|i: int| 0 <= i < s.len() && s[i] == x;
        assert(t[i] == x);
    }
    if x == a {
        assert(t[s.len() as int] == x);
    }
    if t.contains(x) {
        let i = choose|i: int| 0 <= i < t.len() && t[i] == x;
        if i < s.len() {
            assert(s[i] == x);
        }
    }
}

/// Reporting several peers alive keeps the registry sound: each of them other
/// than this node is then alive and not dead, and nothing else changes sides.
pub proof fn lemma_add_members(s: RegistryState, list: Seq<NodeAddr>)
    requires
        s.wf(),
    ensures
        s.add_members(list).wf(),
        forall|x: NodeAddr|
            #[trigger] s.add_members(list).alive.contains(x) <==> s.alive.contains(x) || (
            list.contains(x) && x != s.myself),
        forall|x: NodeAddr|
            #[trigger] s.add_members(list).dead.contains(x) <==> s.dead.contains(x) && !(
            list.contains(x) && x != s.myself),
        s.add_members(list).myself == s.myself,
        s.add_members(list).next_index == s.next_index,
        s.add_members(list).sequence_number == s.sequence_number,
        s.add_members(list).dead_capacity == s.dead_capacity,
    decreases list.len(),
{
    if list.len() > 0 {
        let front = list.drop_last();
        let last = list.last();
        lemma_add_members(s, front);
        let mid = s.add_members(front);
        lemma_add_member(mid, last);
        let r = s.add_members(list);
        assert(list =~= front.push(last));
        assert forall|x: NodeAddr| #[trigger] r.alive.contains(x) <==> s.alive.contains(x) || (
        list.contains(x) && x != s.myself) by {
            lemma_contains_push(front, last, x);
        }
        assert forall|x: NodeAddr| #[trigger] r.dead.contains(x) <==> s.dead.contains(x) && !(
        list.contains(x) && x != s.myself) by {
            lemma_contains_push(front, last, x);
        }
    }
}

/// Declaring several peers dead keeps the registry sound and leaves none of them alive.
pub proof fn lemma_kill_members(s: RegistryState, list: Seq<NodeAddr>)
    requires
        s.wf(),
    ensures
        s.kill_members(list).wf(),
        forall|x: NodeAddr|
            #[trigger] s.kill_members(list).alive.contains(x) <==> s.alive.contains(x)
                && !list.contains(x),
        forall|x: NodeAddr|
            #[trigger] s.kill_members(list).dead.contains(x) ==> s.dead.contains(x)
                || list.contains(x),
        list.len() > 0 ==> s.kill_members(list).dead.last() == list.last(),
        s.kill_members(list).myself == s.myself,
        s.kill_members(list).sequence_number == s.sequence_number,
        !list.contains(s.myself) && s.self_absent() ==> s.kill_members(list).self_absent(),
    decreases list.len(),
{
    if list.len() > 0 {
        let front = list.drop_last();
        let last = list.last();
        lemma_kill_members(s, front);
        let mid = s.kill_members(front);
        lemma_kill_member(mid, last);
        lemma_remove_member(mid, last);
        let r = s.kill_members(list);
        assert(list =~= front.push(last));
        assert forall|x: NodeAddr| #[trigger] r.alive.contains(x) <==> s.alive.contains(x)
            && !list.contains(x) by {
            lemma_contains_push(front, last, x);
        }
        assert forall|x: NodeAddr| #[trigger] r.dead.contains(x) implies s.dead.contains(x)
            || list.contains(x) by {
            lemma_contains_push(front, last, x);
        }
        if !list.contains(s.myself) && s.self_absent() {
            lemma_contains_push(front, last, s.myself);
        }
    }
}

/// A report of alive and dead peers keeps the registry sound. Every peer
/// reported alive, other than this node, is alive afterwards and not dead,
/// whatever the same report says of the dead.
pub proof fn lemma_update_members(s: RegistryState, alive: Seq<NodeAddr>, dead: Seq<NodeAddr>)
    requires
        s.wf(),
    ensures
        s.update_members(alive, dead).wf(),
        forall|x: NodeAddr|
            #[trigger] alive.contains(x) && x != s.myself ==> s.update_members(
                alive,
                dead,
            ).alive.contains(x) && !s.update_members(alive, dead).dead.contains(x),
        forall|x: NodeAddr|
            #[trigger] s.update_members(alive, dead).alive.contains(x) <==> (alive.contains(x) && x
                != s.myself) || (s.alive.contains(x) && !dead.contains(x)),
        forall|x: NodeAddr|
            #[trigger] s.update_members(alive, dead).dead.contains(x) <==> s.dead.contains(x) && !(
            alive.contains(x) && x != s.myself),
        forall|x: NodeAddr|
            #[trigger] alive.contains(x) && !(x == s.myself && s.dead.contains(x))
                ==> !s.update_members(alive, dead).dead.contains(x),
        s.update_members(alive, dead).myself == s.myself,
        s.update_members(alive, dead).sequence_number == s.sequence_number,
        s.self_absent() ==> s.update_members(alive, dead).self_absent(),
{
    lemma_remove_members(s, dead);
    lemma_add_members(s.remove_members(dead), alive);
}

/// For a cursor `c` and a step `j` of at most `n`, the position `(c + j) % n`
/// is `c + j`, taken back by `n` once it passes the end.
pub proof fn lemma_wrapped_position(c: int, j: int, n: int)
    requires
        0 <= c < n,
        0 <= j <= n,
    ensures
        (c + j) % n == if c + j < n {
            c + j
        } else {
            c + j - n
        },
{
    if c + j < n {
        lemma_small_mod((c + j) as nat, n as nat);
    } else {
        lemma_small_mod((c + j - n) as nat, n as nat);
        lemma_mod_sub_multiples_vanish(c + j, n);
    }
}

/// The `j`-th of `k` probes in a row goes to the peer `j` places behind the
/// cursor, counted round the list.
pub proof fn lemma_probe_target(s: RegistryState, k: nat, j: int)
    requires
        s.wf(),
        s.alive.len() > 0,
        0 <= j < k <= s.alive.len(),
    ensures
        s.probes(k).len() == k,
        s.probes(k)[j] == s.alive[(s.next_index + j) % (s.alive.len() as int)],
    decreases k,
{
    let n = s.alive.len() as int;
    let c = s.next_index as int;
    let next = s.advance();
    lemma_wrapped_position(c, 1, n);
    lemma_wrapped_position(c, j, n);
    lemma_probe_len(next, (k - 1) as nat);
    if j > 0 {
        lemma_probe_target(next, (k - 1) as nat, j - 1);
        lemma_wrapped_position(next.next_index as int, j - 1, n);
    }
}

/// As long as there is a peer, `k` probes in a row go to `k` targets.
pub proof fn lemma_probe_len(s: RegistryState, k: nat)
    requires
        s.wf(),
        s.alive.len() > 0,
    ensures
        s.probes(k).len() == k,
    decreases k,
{
    if k > 0 {
        let n = s.alive.len() as int;
        lemma_wrapped_position(s.next_index as int, 1, n);
        lemma_probe_len(s.advance(), (k - 1) as nat);
    }
}

/// Round-robin fairness: while the alive list stays as it is, as many probes in
/// a row as there are peers go to every peer exactly once.
pub proof fn lemma_round_robin(s: RegistryState)
    requires
        s.wf(),
        s.alive.len() > 0,
    ensures
        s.probes(s.alive.len()).len() == s.alive.len(),
        s.probes(s.alive.len()).no_duplicates(),
        forall|x: NodeAddr| s.alive.contains(x) <==> #[trigger] s.probes(s.alive.len()).contains(x),
{
    let n = s.alive.len() as int;
    let c = s.next_index as int;
    let p = s.probes(s.alive.len());
    lemma_probe_len(s, s.alive.len());
    assert forall|i: int, j: int| 0 <= i < p.len() && 0 <= j < p.len() && i != j implies p[i]
        != p[j] by {
        lemma_probe_target(s, s.alive.len(), i);
        lemma_probe_target(s, s.alive.len(), j);
        lemma_wrapped_position(c, i, n);
        lemma_wrapped_position(c, j, n);
    }
    assert forall|x: NodeAddr| s.alive.contains(x) <==> #[trigger] p.contains(x) by {
        if s.alive.contains(x) {
            let i = choose|i: int| 0 <= i < n && s.alive[i] == x;
            let j = if i >= c {
                i - c
            } else {
                i - c + n
            };
            lemma_probe_target(s, s.alive.len(), j);
            lemma_wrapped_position(c, j, n);
            assert(p[j] == x);
        }
        if p.contains(x) {
            let j = choose|j: int| 0 <= j < p.len() && p[j] == x;
            lemma_probe_target(s, s.alive.len(), j);
            lemma_wrapped_position(c, j, n);
        }
    }
}

} // verus!
