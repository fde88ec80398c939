use vstd::arithmetic::div_mod::{
    lemma_add_mod_noop, lemma_add_mod_noop_right, lemma_mod_self_0, lemma_small_mod,
};
use vstd::prelude::*;

verus! {

/// The position reached from `start` after `k` steps of one, wrapping at `n`.
pub open spec fn index_after(start: nat, n: nat, k: nat) -> nat
    decreases k,
{
    if k == 0 {
        start
    } else {
        (index_after(start, n, (k - 1) as nat) + 1) % n
    }
}

/// `k` wrapping steps from `start` land on `(start + k) % n`.
pub proof fn lemma_index_after(start: nat, n: nat, k: nat)
    requires
        0 < n,
        start < n,
    ensures
        index_after(start, n, k) == (start + k) as int % (n as int),
    decreases k,
{
    if k == 0 {
        lemma_small_mod(start, n);
    } else {
        lemma_index_after(start, n, (k - 1) as nat);
        lemma_add_mod_noop_right(1, start + k - 1, n as int);
    }
}

/// A list of length `n` that is stepped `n` times is back where it started.
pub proof fn lemma_list_wraps(start: nat, n: nat)
    requires
        0 < n,
        start < n,
    ensures
        index_after(start, n, n) == start,
{
    lemma_index_after(start, n, n);
    lemma_add_mod_noop(start as int, n as int, n as int);
    lemma_small_mod(start, n);
    lemma_mod_self_0(n as int);
}

/// Emits the items of a non-empty list one per tick, wrapping to the first after the last.
pub struct ListSequencer<T> {
    items: Vec<T>,
    index: usize,
}

impl<T: Copy> ListSequencer<T> {
    /// The items, in the order they are emitted.
    pub closed spec fn items(&self) -> Seq<T> {
        self.items@
    }

    /// The position of the item that the next tick emits.
    pub closed spec fn index(&self) -> nat {
        self.index as nat
    }

    pub closed spec fn wf(&self) -> bool {
        self.items@.len() > 0 && self.index < self.items@.len()
    }

    /// A sequencer that starts at the first item; `None` for an empty list.
    pub fn new(items: Vec<T>) -> (r: Option<Self>)
        ensures
            r.is_none() <==> items@.len() == 0,
            r matches Some(s) ==> s.wf() && s.items() == items@ && s.index() == 0,
    {
        if items.len() == 0 {
            None
        } else {
            Some(ListSequencer { items, index: 0 })
        }
    }

    pub fn len(&self) -> (n: usize)
        requires
            self.wf(),
        ensures
            n == self.items().len(),
    {
        self.items.len()
    }

    /// Returns the current item and moves to the next, wrapping at the end.
    pub fn tick(&mut self) -> (c: T)
        requires
            old(self).wf(),
        ensures
            final(self).wf(),
            c == old(self).items()[old(self).index() as int],
            final(self).items() == old(self).items(),
            final(self).index() == index_after(old(self).index(), old(self).items().len(), 1),
    {
        let c = self.items[self.index];
        let n = self.items.len();
        let next = self.index + 1;
        self.index = if next == n {
            0
        } else {
            next
        };
        proof {
            let n = self.items@.len();
            let i = old(self).index();
            assert(index_after(i, n, 0) == i);
            if i + 1 == n {
                lemma_mod_self_0(n as int);
            } else {
                lemma_small_mod((i + 1) as nat, n);
            }
        }
        c
    }
}

} // verus!
