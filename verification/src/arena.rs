//! Slab allocator for order nodes: a vector of slots with an intrusive free list.
use vstd::prelude::*;

verus! {

/// Index value that marks "no slot" in links and in the free list.
pub const INVALID: u32 = 0xffff_ffffu32;

/// A resting order as stored in the arena, linked to its neighbours in its
/// price level.
pub struct Node {
    pub id: u64,
    pub qty: u64,
    pub prev: u32,
    pub next: u32,
}

pub enum Slot {
    Occupied(Node),
    Vacant { next_free: u32 },
}

pub struct Arena {
    slots: Vec<Slot>,
    free_head: u32,
    /// The free list, in order, starting at `free_head`.
    free_list: Ghost<Seq<u32>>,
    /// Number of occupied slots.
    in_use: Ghost<nat>,
}

/// A sequence of distinct `u32` values below `n` has at most `n` elements.
proof fn lemma_distinct_below(s: Seq<u32>, n: u32)
    requires
        s.no_duplicates(),
        forall|k: int| 0 <= k < s.len() ==> s[k] < n,
    ensures
        s.len() <= n,
{
    broadcast use vstd::set::group_set_axioms;
    broadcast use vstd::set_lib::range_set_properties;

    s.unique_seq_to_set();
    let r = Set::<u32>::range(0, n);
    assert(s.to_set().subset_of(r)) by {
        assert forall|v: u32| s.to_set().contains(v) implies r.contains(v) by {
            let k = choose|k: int| 0 <= k < s.len() && s[k] == v;
            assert(s[k] < n);
        }
    }
    vstd::set_lib::lemma_len_subset(s.to_set(), r);
}

impl Arena {
    pub closed spec fn len(&self) -> nat {
        self.slots@.len()
    }

    pub closed spec fn occupied(&self, i: u32) -> bool {
        &&& (i as int) < self.slots@.len()
        &&& self.slots@[i as int] is Occupied
    }

    pub closed spec fn node(&self, i: u32) -> Node {
        self.slots@[i as int]->Occupied_0
    }

    /// The vacant slots, the most recently freed first: the order in which
    /// `alloc_node` reuses them.
    pub closed spec fn free_slots(&self) -> Seq<u32> {
        self.free_list@
    }

    /// Number of slots that hold a node.
    pub closed spec fn num_in_use(&self) -> nat {
        self.in_use@
    }

    spec fn free_next(fl: Seq<u32>, k: int) -> u32 {
        if k + 1 < fl.len() {
            fl[k + 1]
        } else {
            INVALID
        }
    }

    pub closed spec fn wf(&self) -> bool {
        let fl = self.free_list@;
        &&& self.slots@.len() <= INVALID
        &&& self.slots@.len() == self.in_use@ + fl.len()
        &&& fl.no_duplicates()
        &&& forall|k: int|
            #![trigger fl[k]]
            0 <= k < fl.len() ==> {
                &&& (fl[k] as int) < self.slots@.len()
                &&& self.slots@[fl[k] as int] matches Slot::Vacant { next_free } && next_free
                    == Self::free_next(fl, k)
            }
        &&& forall|i: int|
            0 <= i < self.slots@.len() && (#[trigger] self.slots@[i]) is Vacant ==> fl.contains(
                i as u32,
            )
        &&& self.free_head == (if fl.len() > 0 {
            fl[0]
        } else {
            INVALID
        })
    }

    /// Slots that are unchanged between two arenas, except at `idx`.
    pub open spec fn same_except(&self, other: &Arena, idx: u32) -> bool {
        forall|j: u32|
            j != idx ==> (#[trigger] other.occupied(j) == self.occupied(j)) && (self.occupied(j)
                ==> other.node(j) == self.node(j))
    }

    pub fn new() -> (a: Self)
        ensures
            a.wf(),
            a.num_in_use() == 0,
            forall|i: u32| !a.occupied(i),
            a.len() == 0,
            a.free_slots() == Seq::<u32>::empty(),
    {
        Arena { slots: Vec::new(), free_head: INVALID, free_list: Ghost(Seq::empty()), in_use: Ghost(0) }
    }

    pub fn with_capacity(cap: usize) -> (a: Self)
        ensures
            a.wf(),
            a.num_in_use() == 0,
            forall|i: u32| !a.occupied(i),
            a.len() == 0,
            a.free_slots() == Seq::<u32>::empty(),
    {
        Arena {
            slots: Vec::with_capacity(cap),
            free_head: INVALID,
            free_list: Ghost(Seq::empty()),
            in_use: Ghost(0),
        }
    }

    /// Stores `node` in a free slot (reusing the most recently freed one, or
    /// growing the arena) and returns its index.
    pub fn alloc_node(&mut self, node: Node) -> (idx: u32)
        requires
            old(self).wf(),
            old(self).num_in_use() < INVALID,
        ensures
            final(self).wf(),
            idx != INVALID,
            !old(self).occupied(idx),
            final(self).occupied(idx),
            final(self).node(idx) == node,
            old(self).same_except(&*final(self), idx),
            final(self).num_in_use() == old(self).num_in_use() + 1,
            old(self).free_slots().len() > 0 ==> {
                &&& idx == old(self).free_slots()[0]
                &&& final(self).free_slots() == old(self).free_slots().drop_first()
                &&& final(self).len() == old(self).len()
            },
            old(self).free_slots().len() == 0 ==> {
                &&& idx == old(self).len()
                &&& final(self).free_slots() == old(self).free_slots()
                &&& final(self).len() == old(self).len() + 1
            },
    {
        if self.free_head != INVALID {
            let idx = self.free_head;
            assert(self.free_list@.len() > 0);
            assert(self.free_list@[0] == idx);
            match &self.slots[idx as usize] {
                Slot::Vacant { next_free } => self.free_head = *next_free,
                Slot::Occupied(_) => {
                    proof {
                        assert(false);
                    }
                },
            }
            self.slots.set(idx as usize, Slot::Occupied(node));
            let ghost old_fl = self.free_list@;
            proof {
                self.free_list@ = old_fl.drop_first();
                self.in_use@ = self.in_use@ + 1;
                assert forall|k: int| 0 <= k < self.free_list@.len() implies #[trigger] self.free_list@[k]
                    != idx by {
                    assert(old_fl[k + 1] == self.free_list@[k]);
                }
                assert forall|i: int|
                    0 <= i < self.slots@.len() && (#[trigger] self.slots@[i]) is Vacant implies self.free_list@.contains(
                    i as u32) by {
                    assert(old(self).slots@[i] is Vacant);
                    let k = choose|k: int| 0 <= k < old_fl.len() && old_fl[k] == i as u32;
                    assert(k != 0);
                    assert(self.free_list@[k - 1] == i as u32);
                }
                assert forall|k: int| 0 <= k < self.free_list@.len() implies {
                    &&& (self.free_list@[k] as int) < self.slots@.len()
                    &&& self.slots@[self.free_list@[k] as int] matches Slot::Vacant { next_free }
                        && next_free == Self::free_next(self.free_list@, k)
                } by {
                    assert(old_fl[k + 1] == self.free_list@[k]);
                }
            }
            idx
        } else {
            proof {
                if self.free_list@.len() > 0 {
                    assert((self.free_list@[0] as int) < self.slots@.len());
                }
            }
            let idx = self.slots.len() as u32;
            self.slots.push(Slot::Occupied(node));
            proof {
                self.in_use@ = self.in_use@ + 1;
            }
            idx
        }
    }

    /// Returns slot `idx` to the free list.
    pub fn dealloc(&mut self, idx: u32)
        requires
            old(self).wf(),
            old(self).occupied(idx),
        ensures
            final(self).wf(),
            !final(self).occupied(idx),
            old(self).same_except(&*final(self), idx),
            final(self).num_in_use() + 1 == old(self).num_in_use(),
            final(self).len() == old(self).len(),
            final(self).free_slots() == seq![idx] + old(self).free_slots(),
    {
        let ghost old_fl = self.free_list@;
        proof {
            let s = old_fl.push(idx);
            assert forall|a: int, b: int| 0 <= a < s.len() && 0 <= b < s.len() && a != b implies s[a]
                != s[b] by {
                if a < old_fl.len() && b < old_fl.len() {
                } else if a < old_fl.len() {
                    assert(old(self).slots@[old_fl[a] as int] is Vacant);
                } else {
                    assert(old(self).slots@[old_fl[b] as int] is Vacant);
                }
            }
            lemma_distinct_below(s, self.slots@.len() as u32);
        }
        self.slots.set(idx as usize, Slot::Vacant { next_free: self.free_head });
        self.free_head = idx;
        proof {
            self.free_list@ = seq![idx].add(old_fl);
            self.in_use@ = (self.in_use@ - 1) as nat;
            let fl = self.free_list@;
            assert forall|k: int| 0 <= k < fl.len() implies {
                &&& (fl[k] as int) < self.slots@.len()
                &&& self.slots@[fl[k] as int] matches Slot::Vacant { next_free } && next_free
                    == Self::free_next(fl, k)
            } by {
                if k > 0 {
                    assert(fl[k] == old_fl[k - 1]);
                    assert(old(self).slots@[old_fl[k - 1] as int] is Vacant);
                }
            }
            assert forall|i: int|
                0 <= i < self.slots@.len() && (#[trigger] self.slots@[i]) is Vacant implies fl.contains(
                i as u32) by {
                if i != idx as int {
                    let k = choose|k: int| 0 <= k < old_fl.len() && old_fl[k] == i as u32;
                    assert(fl[k + 1] == i as u32);
                } else {
                    assert(fl[0] == idx);
                }
            }
            assert forall|a: int, b: int| 0 <= a < fl.len() && 0 <= b < fl.len() && a != b implies fl[a]
                != fl[b] by {
                if a > 0 && b > 0 {
                } else if a == 0 {
                    assert(old(self).slots@[old_fl[b - 1] as int] is Vacant);
                } else {
                    assert(old(self).slots@[old_fl[a - 1] as int] is Vacant);
                }
            }
        }
    }

    pub fn get(&self, idx: u32) -> (node: &Node)
        requires
            self.occupied(idx),
        ensures
            *node == self.node(idx),
    {
        match &self.slots[idx as usize] {
            Slot::Occupied(node) => node,
            Slot::Vacant { .. } => vstd::pervasive::unreached(),
        }
    }

    pub fn get_mut(&mut self, idx: u32) -> (node: &mut Node)
        requires
            old(self).wf(),
            old(self).occupied(idx),
        ensures
            *node == old(self).node(idx),
            final(self).wf(),
            final(self).occupied(idx),
            final(self).node(idx) == *final(node),
            old(self).same_except(&*final(self), idx),
            final(self).num_in_use() == old(self).num_in_use(),
            final(self).len() == old(self).len(),
    {
        match &mut self.slots[idx as usize] {
            Slot::Occupied(node) => node,
            Slot::Vacant { .. } => vstd::pervasive::unreached(),
        }
    }

    /// In a well-formed arena the free slots are exactly the slots that
    /// hold no node, each listed once.
    pub proof fn lemma_free_slots(&self)
        requires
            self.wf(),
        ensures
            self.free_slots().no_duplicates(),
            forall|i: u32|
                (#[trigger] self.free_slots().contains(i)) <==> ((i as int) < self.len()
                    && !self.occupied(i)),
    {
        let fl = self.free_list@;
        assert forall|i: u32| (#[trigger] fl.contains(i)) <==> ((i as int) < self.len() && !self.occupied(i)) by {
            if fl.contains(i) {
                let k = choose|k: int| 0 <= k < fl.len() && fl[k] == i;
                assert((fl[k] as int) < self.slots@.len());
            }
            if (i as int) < self.len() && !self.occupied(i) {
                assert(self.slots@[i as int] is Vacant);
            }
        }
    }

    /// An occupied slot index is never the `INVALID` marker.
    pub proof fn lemma_valid_index(&self, idx: u32)
        requires
            self.wf(),
            self.occupied(idx),
        ensures
            idx != INVALID,
    {
    }

}

} // verus!
