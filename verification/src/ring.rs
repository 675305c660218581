//! Bounded buffer of distinct addresses that forgets its oldest entry when full.

use vstd::prelude::*;
use crate::addr::NodeAddr;
use crate::seq_lemmas::{lemma_without_is_remove, lemma_without_members, without};

verus! {

/// What a buffer of capacity `capacity` holding `s` holds after `v` is pushed:
/// an older occurrence of `v` is dropped, then the oldest entry if there is no
/// room left, and `v` becomes the newest entry.
pub open spec fn pushed(s: Seq<NodeAddr>, capacity: nat, v: NodeAddr) -> Seq<NodeAddr> {
    let rest = without(s, v);
    if capacity == 0 {
        Seq::<NodeAddr>::empty()
    } else if rest.len() < capacity {
        rest.push(v)
    } else {
        rest.drop_first().push(v)
    }
}

/// A fixed-capacity buffer of addresses in which no address occurs twice.
///
/// Its view lists the entries from the oldest to the newest.
pub struct UniqueCircularBuffer {
    items: Vec<NodeAddr>,
    capacity: usize,
}

impl View for UniqueCircularBuffer {
    type V = Seq<NodeAddr>;

    closed spec fn view(&self) -> Seq<NodeAddr> {
        self.items@
    }
}

impl UniqueCircularBuffer {
    /// The largest number of entries the buffer holds at once.
    pub closed spec fn spec_capacity(&self) -> nat {
        self.capacity as nat
    }

    /// The buffer never exceeds its capacity and never repeats an address.
    pub open spec fn wf(&self) -> bool {
        &&& self@.len() <= self.spec_capacity()
        &&& self@.no_duplicates()
    }

    /// Creates an empty buffer with room for `capacity` addresses.
    pub fn new(capacity: usize) -> (buffer: Self)
        ensures
            buffer.wf(),
            buffer@ == Seq::<NodeAddr>::empty(),
            buffer.spec_capacity() == capacity,
    {
        UniqueCircularBuffer { items: Vec::new(), capacity }
    }

    /// The largest number of entries the buffer holds at once.
    pub fn capacity(&self) -> (capacity: usize)
        ensures
            capacity == self.spec_capacity(),
    {
        self.capacity
    }

    /// The number of entries currently held.
    pub fn len(&self) -> (len: usize)
        ensures
            len == self@.len(),
    {
        self.items.len()
    }

    /// Whether the buffer holds no entry.
    pub fn is_empty(&self) -> (empty: bool)
        ensures
            empty == (self@.len() == 0),
    {
        self.items.len() == 0
    }

    /// The position of `value` among the entries, if it is one of them.
    fn position(&self, value: &NodeAddr) -> (found: Option<usize>)
        ensures
            match found {
                Some(i) => i < self@.len() && self@[i as int] == *value,
                None => !self@.contains(*value),
            },
    {
        let mut i: usize = 0;
        while i < self.items.len()
            invariant
                i <= self.items@.len(),
                forall|k: int| 0 <= k < i ==> self.items@[k] != *value,
            decreases self.items@.len() - i,
        {
            if self.items[i] == *value {
                return Some(i);
            }
            i += 1;
        }
        None
    }

    /// Whether `value` is one of the entries.
    pub fn contains(&self, value: &NodeAddr) -> (found: bool)
        ensures
            found == self@.contains(*value),
    {
        self.position(value).is_some()
    }

    /// Removes every occurrence of `value` and returns how many there were.
    pub fn remove(&mut self, value: &NodeAddr) -> (count: usize)
        requires
            old(self).wf(),
        ensures
            final(self).wf(),
            final(self).spec_capacity() == old(self).spec_capacity(),
            final(self)@ == without(old(self)@, *value),
            count == old(self)@.len() - final(self)@.len(),
            count == (if old(self)@.contains(*value) { 1nat } else { 0nat }),
    {
        proof {
            lemma_without_members(self@, *value);
        }
        match self.position(value) {
            Some(i) => {
                proof {
                    lemma_without_is_remove(self@, i as int);
                }
                self.items.remove(i);
                1
            },
            None => 0,
        }
    }

    /// Records `value` as the newest entry. An older occurrence of it is dropped
    /// first; if the buffer is then still full, its oldest entry makes room.
    pub fn push(&mut self, value: NodeAddr)
        requires
            old(self).wf(),
        ensures
            final(self).wf(),
            final(self).spec_capacity() == old(self).spec_capacity(),
            final(self)@ == pushed(old(self)@, old(self).spec_capacity(), value),
    {
        if self.capacity == 0 {
            assert(self@ =~= Seq::<NodeAddr>::empty());
            return ;
        }
        self.remove(&value);
        proof {
            lemma_without_members(old(self)@, value);
        }
        if self.items.len() >= self.capacity {
            self.items.remove(0);
            assert(self.items@ =~= without(old(self)@, value).drop_first());
        }
        self.items.push(value);
    }

    /// The entries, from the oldest to the newest.
    pub fn iter(&self) -> (entries: Vec<NodeAddr>)
        ensures
            entries@ == self@,
    {
        let mut entries: Vec<NodeAddr> = Vec::with_capacity(self.items.len());
        let mut i: usize = 0;
        while i < self.items.len()
            invariant
                i <= self.items@.len(),
                entries@ == self.items@.take(i as int),
            decreases self.items@.len() - i,
        {
            entries.push(self.items[i]);
            assert(self.items@.take(i + 1) =~= self.items@.take(i as int).push(self.items@[i as int]));
            i += 1;
        }
        assert(self.items@.take(i as int) =~= self.items@);
        entries
    }
}

/// Whatever is pushed is held afterwards, as the newest entry, unless the
/// buffer has no room at all.
pub proof fn lemma_pushed_holds(s: Seq<NodeAddr>, capacity: nat, v: NodeAddr)
    requires
        s.no_duplicates(),
        s.len() <= capacity,
        capacity > 0,
    ensures
        pushed(s, capacity, v).last() == v,
        pushed(s, capacity, v).contains(v),
        pushed(s, capacity, v).no_duplicates(),
        0 < pushed(s, capacity, v).len() <= capacity,
        forall|x: NodeAddr| #[trigger] pushed(s, capacity, v).contains(x) ==> x == v || s.contains(x),
{
    lemma_without_members(s, v);
    let rest = without(s, v);
    let kept = if rest.len() < capacity { rest } else { rest.drop_first() };
    let p = pushed(s, capacity, v);
    assert(p == kept.push(v));
    assert(p[p.len() - 1] == v);
    assert forall|x: NodeAddr| #[trigger] kept.contains(x) implies rest.contains(x) by {
        let i = choose|i: int| 0 <= i < kept.len() && kept[i] == x;
        if rest.len() < capacity {
            assert(rest[i] == x);
        } else {
            assert(rest[i + 1] == x);
        }
    }
    assert forall|x: NodeAddr| #[trigger] p.contains(x) implies x == v || s.contains(x) by {
        let i = choose|i: int| 0 <= i < p.len() && p[i] == x;
        if i < kept.len() {
            assert(kept[i] == x);
            assert(kept.contains(x));
        }
    }
    assert(kept.no_duplicates());
    assert(!kept.contains(v));
}

} // verus!
