use vstd::prelude::*;

use crate::types::{Transaction, TxView, tx_views};

verus! {

/// The staging area for transactions that are not yet sealed into a block.
/// Submissions append at the back; draining removes from the front, so
/// transactions leave in the order they arrived.
#[derive(Debug)]
pub struct Mempool {
    pending: Vec<Transaction>,
}

impl View for Mempool {
    type V = Seq<TxView>;

    closed spec fn view(&self) -> Seq<TxView> {
        tx_views(self.pending@)
    }
}

impl Mempool {
    /// Creates an empty mempool.
    pub fn new() -> (m: Mempool)
        ensures
            m@ == Seq::<TxView>::empty(),
    {
        let m = Mempool { pending: Vec::new() };
        proof {
            assert(m@ =~= Seq::<TxView>::empty());
        }
        m
    }

    /// The number of pending transactions.
    pub fn len(&self) -> (r: usize)
        ensures
            r == self@.len(),
    {
        self.pending.len()
    }

    /// Appends a transaction at the back of the queue.
    pub fn submit(&mut self, t: Transaction)
        ensures
            final(self)@ == old(self)@.push(t@),
    {
        self.pending.push(t);
        proof {
            assert(final(self)@ =~= old(self)@.push(t@));
        }
    }

    /// Copies up to `max_count` of the oldest transactions without removing
    /// them: the batch a mining cycle would seal.
    pub fn peek(&self, max_count: usize) -> (r: Vec<Transaction>)
        ensures
            ({
                let c = if max_count <= self@.len() {
                    max_count as int
                } else {
                    self@.len() as int
                };
                tx_views(r@) == self@.take(c) && r@.len() == c
            }),
    {
        let count = if max_count <= self.pending.len() {
            max_count
        } else {
            self.pending.len()
        };
        let mut out: Vec<Transaction> = Vec::new();
        let mut i: usize = 0;
        while i < count
            invariant
                i <= count,
                count <= self.pending@.len(),
                out@.len() == i,
                forall|j: int| 0 <= j < i ==> out@[j]@ == self.pending@[j]@,
            decreases count - i,
        {
            out.push(self.pending[i].duplicate());
            i = i + 1;
        }
        proof {
            assert(tx_views(out@) =~= tx_views(self.pending@).take(count as int));
        }
        out
    }

    /// Removes and returns up to `max_count` transactions, oldest first.
    /// This is the only way entries leave the mempool.
    pub fn drain(&mut self, max_count: usize) -> (r: Vec<Transaction>)
        ensures
            ({
                let c = if max_count <= old(self)@.len() {
                    max_count as int
                } else {
                    old(self)@.len() as int
                };
                tx_views(r@) == old(self)@.take(c) && final(self)@ == old(self)@.skip(c)
                    && r@.len() == c
            }),
    {
        let count = if max_count <= self.pending.len() {
            max_count
        } else {
            self.pending.len()
        };
        let ghost orig = self.pending@;
        let mut out: Vec<Transaction> = Vec::new();
        let mut i: usize = 0;
        while i < count
            invariant
                i <= count,
                count <= orig.len(),
                out@ =~= orig.take(i as int),
                self.pending@ =~= orig.skip(i as int),
            decreases count - i,
        {
            let t = self.pending.remove(0);
            out.push(t);
            proof {
                assert(out@ =~= orig.take(i + 1));
                assert(self.pending@ =~= orig.skip(i + 1));
            }
            i = i + 1;
        }
        proof {
            assert(tx_views(out@) =~= tx_views(orig).take(count as int));
            assert(tx_views(self.pending@) =~= tx_views(orig).skip(count as int));
        }
        out
    }

    /// Law: draining splits the queue without loss, duplication or
    /// reordering — the drained prefix followed by what remains is exactly
    /// the queue as it stood, so first-in is first-out.
    pub proof fn lemma_drain_preserves_queue(q: Seq<TxView>, c: int)
        requires
            0 <= c <= q.len(),
        ensures
            q.take(c) + q.skip(c) == q,
    {
        assert(q.take(c) + q.skip(c) =~= q);
    }
}

} // verus!
