//! The member registry: the peers believed alive, the peers recently declared
//! dead, and the cursor of the round-robin probing.

use vstd::prelude::*;
use vstd::slice::slice_to_vec;
use crate::addr::NodeAddr;
use crate::registry_model::{
    lemma_add_member, lemma_kill_member, lemma_kill_members, lemma_remove_member,
    lemma_remove_members, lemma_update_members, RegistryState, DEAD_CAPACITY,
};
use crate::ring::UniqueCircularBuffer;
use crate::seq_lemmas::{lemma_without_empty, lemma_without_is_remove, lemma_without_push, without};

verus! {

/// The registry of one node.
pub struct MemberRegistry {
    myself: NodeAddr,
    members: Vec<NodeAddr>,
    dead_members: UniqueCircularBuffer,
    next_member_index: usize,
    sequence_number: u64,
}

impl View for MemberRegistry {
    type V = RegistryState;

    closed spec fn view(&self) -> RegistryState {
        RegistryState {
            myself: self.myself,
            alive: self.members@,
            dead: self.dead_members@,
            dead_capacity: self.dead_members.spec_capacity(),
            next_index: self.next_member_index as nat,
            sequence_number: self.sequence_number,
        }
    }
}

impl MemberRegistry {
    /// What holds of a registry at all times.
    pub open spec fn wf(&self) -> bool {
        self@.wf()
    }

    /// The registry of a node that knows no peer yet.
    pub fn new(myself: NodeAddr) -> (registry: Self)
        ensures
            registry.wf(),
            registry@ == RegistryState::initial(myself),
    {
        MemberRegistry {
            myself,
            members: Vec::new(),
            dead_members: UniqueCircularBuffer::new(DEAD_CAPACITY),
            next_member_index: 0,
            sequence_number: 0,
        }
    }

    /// The address of this node.
    pub fn myself(&self) -> (myself: NodeAddr)
        ensures
            myself == self@.myself,
    {
        self.myself
    }

    /// The peers believed alive, in the order in which they joined.
    pub fn members(&self) -> (alive: Vec<NodeAddr>)
        ensures
            alive@ == self@.alive,
    {
        slice_to_vec(self.members.as_slice())
    }

    /// The peers recently declared dead, oldest first.
    pub fn dead_members(&self) -> (dead: Vec<NodeAddr>)
        ensures
            dead@ == self@.dead,
    {
        self.dead_members.iter()
    }

    /// Number of peers believed alive.
    pub fn len(&self) -> (len: usize)
        ensures
            len == self@.alive.len(),
    {
        self.members.len()
    }

    /// Position in the alive list of the peer to probe next.
    pub fn next_member_index(&self) -> (index: usize)
        ensures
            index == self@.next_index,
    {
        self.next_member_index
    }

    /// The sequence number that the next probe gets.
    pub fn sequence_number(&self) -> (sequence_number: u64)
        ensures
            sequence_number == self@.sequence_number,
    {
        self.sequence_number
    }

    /// The position of `member` in the alive list, if it is alive.
    fn position(&self, member: &NodeAddr) -> (found: Option<usize>)
        ensures
            match found {
                Some(i) => i < self@.alive.len() && self@.alive[i as int] == *member,
                None => !self@.alive.contains(*member),
            },
    {
        let mut i: usize = 0;
        while i < self.members.len()
            invariant
                i <= self.members@.len(),
                forall|k: int| 0 <= k < i ==> self.members@[k] != *member,
            decreases self.members@.len() - i,
        {
            if self.members[i] == *member {
                return Some(i);
            }
            i += 1;
        }
        None
    }

    /// The peers believed alive other than `member`, in the order in which they joined.
    pub fn members_except(&self, member: &NodeAddr) -> (others: Vec<NodeAddr>)
        ensures
            others@ == without(self@.alive, *member),
    {
        let mut others: Vec<NodeAddr> = Vec::new();
        let mut i: usize = 0;
        proof {
            lemma_without_empty(*member);
            assert(self.members@.take(0) =~= Seq::<NodeAddr>::empty());
        }
        while i < self.members.len()
            invariant
                i <= self.members@.len(),
                others@ == without(self.members@.take(i as int), *member),
            decreases self.members@.len() - i,
        {
            proof {
                lemma_without_push(self.members@.take(i as int), self.members@[i as int], *member);
                assert(self.members@.take(i + 1) =~= self.members@.take(i as int).push(
                    self.members@[i as int],
                ));
            }
            if self.members[i] != *member {
                others.push(self.members[i]);
            }
            i += 1;
        }
        assert(self.members@.take(i as int) =~= self.members@);
        others
    }

    /// Whether `member` is believed alive.
    pub fn is_member(&self, member: &NodeAddr) -> (present: bool)
        ensures
            present == self@.alive.contains(*member),
            present == self@.presence().contains(*member),
    {
        self.position(member).is_some()
    }

    /// Whether `member` was recently declared dead.
    pub fn is_dead(&self, member: &NodeAddr) -> (dead: bool)
        ensures
            dead == self@.dead.contains(*member),
    {
        self.dead_members.contains(member)
    }

    /// Takes `member` off the alive list, if it is on it. The cursor moves one
    /// back if the peer stood at or before it.
    pub fn remove_member(&mut self, member: &NodeAddr)
        requires
            old(self).wf(),
        ensures
            final(self).wf(),
            final(self)@ == old(self)@.remove_member(*member),
    {
        proof {
            lemma_remove_member(self@, *member);
        }
        match self.position(member) {
            Some(idx) => {
                proof {
                    lemma_without_is_remove(self@.alive, idx as int);
                    assert(self@.alive.index_of(*member) == idx);
                }
                self.members.remove(idx);
                if idx <= self.next_member_index && self.next_member_index > 0 {
                    self.next_member_index -= 1;
                }
            },
            None => {},
        }
    }

    /// Takes each of `members` in turn off the alive list.
    pub fn remove_members(&mut self, members: &[NodeAddr])
        requires
            old(self).wf(),
        ensures
            final(self).wf(),
            final(self)@ == old(self)@.remove_members(members@),
            final(self)@.dead == old(self)@.dead,
            forall|x: NodeAddr|
                #[trigger] final(self)@.alive.contains(x) <==> old(self)@.alive.contains(x)
                    && !members@.contains(x),
            final(self)@.myself == old(self)@.myself,
            final(self)@.sequence_number == old(self)@.sequence_number,
    {
        let mut i: usize = 0;
        assert(members@.take(0) =~= Seq::<NodeAddr>::empty());
        while i < members.len()
            invariant
                i <= members@.len(),
                self.wf(),
                self@ == old(self)@.remove_members(members@.take(i as int)),
            decreases members@.len() - i,
        {
            proof {
                let next = members@.take(i + 1);
                assert(next.drop_last() =~= members@.take(i as int));
                assert(next.last() == members@[i as int]);
            }
            self.remove_member(&members[i]);
            i += 1;
        }
        proof {
            assert(members@.take(i as int) =~= members@);
            lemma_remove_members(old(self)@, members@);
        }
    }

    /// Records `member` as alive: a new peer joins at the end of the alive
    /// list, and stops being held dead. This node itself is passed over.
    fn add_member(&mut self, member: NodeAddr)
        requires
            old(self).wf(),
        ensures
            final(self).wf(),
            final(self)@ == old(self)@.add_member(member),
    {
        proof {
            lemma_add_member(self@, member);
        }
        if member == self.myself {
            return ;
        }
        if !self.is_member(&member) {
            self.members.push(member);
        }
        self.dead_members.remove(&member);
    }

    /// Takes in a report of alive and dead peers. The dead are removed first, so
    /// that a peer reported both ways ends up alive.
    pub fn update_members(&mut self, alive: &[NodeAddr], dead: &[NodeAddr])
        requires
            old(self).wf(),
        ensures
            final(self).wf(),
            final(self)@ == old(self)@.update_members(alive@, dead@),
            forall|x: NodeAddr|
                #[trigger] alive@.contains(x) && x != old(self)@.myself ==> final(self)@.alive.contains(x) && !final(self)@.dead.contains(x),
            forall|x: NodeAddr|
                #[trigger] final(self)@.alive.contains(x) <==> (alive@.contains(x) && x != old(self)@.myself) || (old(self)@.alive.contains(x) && !dead@.contains(x)),
            forall|x: NodeAddr|
                #[trigger] final(self)@.dead.contains(x) <==> old(self)@.dead.contains(x) && !(
                alive@.contains(x) && x != old(self)@.myself),
            forall|x: NodeAddr|
                #[trigger] alive@.contains(x) && !(x == old(self)@.myself
                    && old(self)@.dead.contains(x)) ==> !final(self)@.dead.contains(x),
            old(self)@.self_absent() ==> final(self)@.self_absent(),
            final(self)@.myself == old(self)@.myself,
            final(self)@.sequence_number == old(self)@.sequence_number,
    {
        self.remove_members(dead);
        let ghost removed = self@;
        let mut i: usize = 0;
        assert(alive@.take(0) =~= Seq::<NodeAddr>::empty());
        while i < alive.len()
            invariant
                i <= alive@.len(),
                self.wf(),
                self@ == removed.add_members(alive@.take(i as int)),
            decreases alive@.len() - i,
        {
            proof {
                let next = alive@.take(i + 1);
                assert(next.drop_last() =~= alive@.take(i as int));
                assert(next.last() == alive@[i as int]);
            }
            self.add_member(alive[i]);
            i += 1;
        }
        proof {
            assert(alive@.take(i as int) =~= alive@);
            lemma_update_members(old(self)@, alive@, dead@);
        }
    }

    /// Declares each of `members` in turn dead: it leaves the alive list and
    /// becomes the newest of the recently dead.
    pub fn kill_members(&mut self, members: &[NodeAddr])
        requires
            old(self).wf(),
        ensures
            final(self).wf(),
            final(self)@ == old(self)@.kill_members(members@),
            forall|x: NodeAddr|
                #[trigger] final(self)@.alive.contains(x) <==> old(self)@.alive.contains(x)
                    && !members@.contains(x),
            members@.len() > 0 ==> final(self)@.dead.last() == members@.last(),
            !members@.contains(old(self)@.myself) && old(self)@.self_absent() ==> final(self)@.self_absent(),
            final(self)@.myself == old(self)@.myself,
            final(self)@.sequence_number == old(self)@.sequence_number,
    {
        let mut i: usize = 0;
        assert(members@.take(0) =~= Seq::<NodeAddr>::empty());
        while i < members.len()
            invariant
                i <= members@.len(),
                self.wf(),
                self@ == old(self)@.kill_members(members@.take(i as int)),
            decreases members@.len() - i,
        {
            proof {
                let next = members@.take(i + 1);
                assert(next.drop_last() =~= members@.take(i as int));
                assert(next.last() == members@[i as int]);
                lemma_kill_member(self@, members@[i as int]);
            }
            self.remove_member(&members[i]);
            self.dead_members.push(members[i]);
            i += 1;
        }
        proof {
            assert(members@.take(i as int) =~= members@);
            lemma_kill_members(old(self)@, members@);
        }
    }

    /// The peer to probe next, if there is any; the cursor moves on to the
    /// following peer, and from the last peer back to the first.
    pub fn get_next_member(&mut self) -> (target: Option<NodeAddr>)
        requires
            old(self).wf(),
        ensures
            final(self).wf(),
            target == old(self)@.next_member(),
            final(self)@ == old(self)@.advance(),
            target is Some <==> old(self)@.alive.len() > 0,
            target is Some ==> old(self)@.alive.contains(target.unwrap()),
    {
        if self.members.len() == 0 {
            return None;
        }
        let target = self.members[self.next_member_index];
        self.next_member_index = (self.next_member_index + 1) % self.members.len();
        Some(target)
    }

    /// Hands out the current sequence number and moves on to the next.
    pub fn get_next_sequence_number(&mut self) -> (sequence_number: u64)
        requires
            old(self)@.sequence_number < u64::MAX,
        ensures
            sequence_number == old(self)@.sequence_number,
            final(self)@ == old(self)@.bump_sequence(),
            final(self)@.sequence_number == old(self)@.sequence_number + 1,
    {
        let sequence_number = self.sequence_number;
        self.sequence_number += 1;
        sequence_number
    }
}

} // verus!
