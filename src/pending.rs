//! The first-in first-out queue of memories awaiting promotion.

use vstd::prelude::*;
use std::collections::VecDeque;
use crate::types::PendingMemory;

verus! {

broadcast use vstd::std_specs::vecdeque::group_vec_dequeue_axioms;

#[derive(Debug)]
pub struct PendingMemoryStore {
    queue: VecDeque<PendingMemory>,
}

impl View for PendingMemoryStore {
    type V = Seq<PendingMemory>;

    /// The queued memories, oldest first.
    closed spec fn view(&self) -> Seq<PendingMemory> {
        self.queue@
    }
}

impl PendingMemoryStore {
    pub fn new() -> (r: PendingMemoryStore)
        ensures
            r@ == Seq::<PendingMemory>::empty(),
    {
        PendingMemoryStore { queue: VecDeque::new() }
    }

    /// Put `memory` at the back of the queue.
    pub fn add(&mut self, memory: PendingMemory)
        ensures
            final(self)@ == old(self)@.push(memory),
    {
        self.queue.push_back(memory);
    }

    /// Take the `count` oldest memories (all of them when fewer are queued).
    pub fn take_batch(&mut self, count: usize) -> (r: Vec<PendingMemory>)
        ensures
            r@.len() == if count < old(self)@.len() { count as int } else { old(self)@.len() as int },
            r@ == old(self)@.subrange(0, r@.len() as int),
            final(self)@ == old(self)@.subrange(r@.len() as int, old(self)@.len() as int),
    {
        let ghost start = old(self)@;
        let mut batch: Vec<PendingMemory> = Vec::new();
        let mut i: usize = 0;
        while i < count
            invariant
                start == old(self)@,
                i <= count,
                batch@.len() == i,
                i <= start.len(),
                batch@ == start.subrange(0, i as int),
                self@ == start.subrange(i as int, start.len() as int),
            decreases count - i,
        {
            match self.queue.pop_front() {
                Some(m) => {
                    batch.push(m);
                    proof {
                        assert(batch@ =~= start.subrange(0, i + 1));
                        assert(self@ =~= start.subrange(i + 1, start.len() as int));
                    }
                },
                None => {
                    return batch;
                },
            }
            i = i + 1;
        }
        batch
    }

    pub fn len(&self) -> (r: usize)
        ensures
            r == self@.len(),
    {
        self.queue.len()
    }

    pub fn is_empty(&self) -> (r: bool)
        ensures
            r == (self@.len() == 0),
    {
        self.queue.len() == 0
    }

    /// The `count` oldest memories, left in the queue.
    pub fn peek(&self, count: usize) -> (r: Vec<&PendingMemory>)
        ensures
            r@.len() == if count < self@.len() { count as int } else { self@.len() as int },
            forall|i: int| 0 <= i < r@.len() ==> *r@[i] == self@[i],
    {
        let mut out: Vec<&PendingMemory> = Vec::new();
        let mut i: usize = 0;
        while i < count && i < self.queue.len()
            invariant
                i <= self@.len(),
                i <= count,
                out@.len() == i,
                forall|j: int| 0 <= j < i ==> *out@[j] == self@[j],
            decreases self@.len() - i,
        {
            out.push(&self.queue[i]);
            i = i + 1;
        }
        out
    }
}

} // verus!
