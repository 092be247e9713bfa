//! The streaming batch aggregator.
//!
//! Messages are offered in arrival order; whenever the pending buffer
//! reaches the configured batch size it is emitted whole, and a final
//! `flush` emits whatever partial batch remains. No message is dropped,
//! duplicated, split across batches or reordered.

use vstd::prelude::*;
use vstd::arithmetic::div_mod::{lemma_fundamental_div_mod, lemma_fundamental_div_mod_converse};
use vstd::arithmetic::mul::lemma_mul_inequality;
use crate::message::SBS1Message;

verus! {

/// The pending buffer left after the messages of `msgs` have been offered
/// in order to an empty aggregator of batch size `size`.
pub open spec fn spec_pending(msgs: Seq<SBS1Message>, size: int) -> Seq<SBS1Message>
    decreases msgs.len(),
{
    if msgs.len() == 0 {
        Seq::empty()
    } else {
        let p = spec_pending(msgs.drop_last(), size);
        if p.len() + 1 == size {
            Seq::empty()
        } else {
            p.push(msgs.last())
        }
    }
}

/// The completed batches emitted while the messages of `msgs` were offered
/// in order to an empty aggregator of batch size `size`.
pub open spec fn spec_batches(msgs: Seq<SBS1Message>, size: int) -> Seq<Seq<SBS1Message>>
    decreases msgs.len(),
{
    if msgs.len() == 0 {
        Seq::empty()
    } else {
        let b = spec_batches(msgs.drop_last(), size);
        let p = spec_pending(msgs.drop_last(), size);
        if p.len() + 1 == size {
            b.push(p.push(msgs.last()))
        } else {
            b
        }
    }
}

/// A stateful accumulator of decoded messages, emitting them as batches of
/// a fixed size set at construction.
pub struct BatchAggregator {
    buffer: Vec<SBS1Message>,
    size: usize,
    offered: Ghost<Seq<SBS1Message>>,
}

impl BatchAggregator {
    /// The configured batch size.
    pub closed spec fn batch_size(&self) -> int {
        self.size as int
    }

    /// The messages now buffered, oldest first.
    pub closed spec fn pending(&self) -> Seq<SBS1Message> {
        self.buffer@
    }

    /// Every message offered since construction or the last flush.
    pub closed spec fn offered_history(&self) -> Seq<SBS1Message> {
        self.offered@
    }

    /// The aggregator's invariant: a positive batch size, a buffer strictly
    /// below it, and a buffer that is exactly what offering the recorded
    /// history leaves pending.
    pub closed spec fn wf(&self) -> bool {
        &&& self.size >= 1
        &&& self.buffer@.len() < self.size
        &&& self.buffer@ == spec_pending(self.offered@, self.size as int)
    }

    /// A fresh aggregator with an empty buffer.
    pub fn new(size: usize) -> (a: BatchAggregator)
        requires
            size >= 1,
        ensures
            a.wf(),
            a.batch_size() == size,
            a.pending() == Seq::<SBS1Message>::empty(),
            a.offered_history() == Seq::<SBS1Message>::empty(),
    {
        BatchAggregator { buffer: Vec::new(), size, offered: Ghost(Seq::empty()) }
    }

    /// Appends one message to the pending buffer. When the buffer thereby
    /// reaches the batch size, the whole buffer is returned as a completed
    /// batch, oldest first, and the buffer becomes empty; otherwise nothing
    /// is produced.
    pub fn offer(&mut self, msg: SBS1Message) -> (r: Option<Vec<SBS1Message>>)
        requires
            old(self).wf(),
        ensures
            final(self).wf(),
            final(self).batch_size() == old(self).batch_size(),
            final(self).offered_history() == old(self).offered_history().push(msg),
            final(self).pending() == spec_pending(
                final(self).offered_history(),
                final(self).batch_size(),
            ),
            if old(self).pending().len() + 1 == old(self).batch_size() {
                &&& r matches Some(b) && b@ == old(self).pending().push(msg)
                &&& final(self).pending() == Seq::<SBS1Message>::empty()
                &&& spec_batches(final(self).offered_history(), final(self).batch_size())
                    == spec_batches(old(self).offered_history(), old(self).batch_size()).push(
                    old(self).pending().push(msg),
                )
            } else {
                &&& r is None
                &&& final(self).pending() == old(self).pending().push(msg)
                &&& spec_batches(final(self).offered_history(), final(self).batch_size())
                    == spec_batches(old(self).offered_history(), old(self).batch_size())
            },
    {
        proof {
            assert(self.offered@.push(msg).drop_last() =~= self.offered@);
        }
        self.buffer.push(msg);
        self.offered = Ghost(self.offered@.push(msg));
        if self.buffer.len() == self.size {
            let mut out: Vec<SBS1Message> = Vec::new();
            core::mem::swap(&mut out, &mut self.buffer);
            Some(out)
        } else {
            None
        }
    }

    /// Removes and returns the pending buffer as a final, possibly
    /// undersized batch; an empty buffer produces nothing. The aggregator
    /// is left empty, ready for a new run.
    pub fn flush(&mut self) -> (r: Option<Vec<SBS1Message>>)
        requires
            old(self).wf(),
        ensures
            final(self).wf(),
            final(self).batch_size() == old(self).batch_size(),
            final(self).pending() == Seq::<SBS1Message>::empty(),
            final(self).offered_history() == Seq::<SBS1Message>::empty(),
            if old(self).pending().len() == 0 {
                r is None
            } else {
                r matches Some(b) && b@ == old(self).pending()
            },
    {
        self.offered = Ghost(Seq::empty());
        if self.buffer.len() == 0 {
            None
        } else {
            let mut out: Vec<SBS1Message> = Vec::new();
            core::mem::swap(&mut out, &mut self.buffer);
            Some(out)
        }
    }
}

/// Law: after offering any run of messages, the emitted batches are exactly
/// the consecutive full chunks of the run, in order, and the pending buffer
/// is exactly the remainder — so no message is dropped, duplicated or
/// reordered, and every emitted batch has exactly the batch size.
pub proof fn lemma_aggregation_shape(msgs: Seq<SBS1Message>, size: int)
    requires
        size >= 1,
    ensures
        spec_batches(msgs, size).len() == msgs.len() as int / size,
        spec_pending(msgs, size).len() == msgs.len() as int % size,
        forall|i: int|
            0 <= i < msgs.len() as int / size ==> spec_batches(msgs, size)[i] == msgs.subrange(
                i * size,
                (i + 1) * size,
            ),
        spec_pending(msgs, size) == msgs.skip((msgs.len() as int / size) * size),
    decreases msgs.len(),
{
    if msgs.len() == 0 {
        lemma_fundamental_div_mod_converse(0, size, 0, 0);
        assert(spec_pending(msgs, size) =~= msgs.skip(0));
    } else {
        let t = msgs.drop_last();
        let m = t.len() as int;
        let n = msgs.len() as int;
        lemma_aggregation_shape(t, size);
        let q = m / size;
        let r = m % size;
        lemma_fundamental_div_mod(m, size);
        assert(m == q * size + r);
        assert(q >= 0) by {
            if q < 0 {
                lemma_mul_inequality(q, -1, size);
            }
        }
        assert(0 <= q * size <= m);
        let p = spec_pending(t, size);
        assert(p == t.skip(q * size));
        assert(p.len() == r);
        assert(forall|k: int| 0 <= k < m ==> t[k] == msgs[k]);
        if p.len() + 1 == size {
            // the run now divides evenly: a new full batch closes
            assert(n == (q + 1) * size + 0) by (nonlinear_arith)
                requires
                    n == m + 1,
                    m == q * size + r,
                    r == size - 1,
            ;
            lemma_fundamental_div_mod_converse(n, size, q + 1, 0);
            assert(p.push(msgs.last()) =~= msgs.subrange(q * size, (q + 1) * size));
            assert(spec_batches(msgs, size) == spec_batches(t, size).push(p.push(msgs.last())));
            assert forall|i: int| 0 <= i < n / size implies spec_batches(msgs, size)[i]
                == msgs.subrange(i * size, (i + 1) * size) by {
                lemma_mul_inequality(0, i, size);
                lemma_mul_inequality(i, i + 1, size);
                if i < q {
                    lemma_mul_inequality(i + 1, q, size);
                    assert(t.subrange(i * size, (i + 1) * size) =~= msgs.subrange(
                        i * size,
                        (i + 1) * size,
                    ));
                }
            }
            assert(spec_pending(msgs, size) =~= msgs.skip((q + 1) * size));
        } else {
            // the buffer just grows by one
            assert(0 <= r + 1 < size);
            lemma_fundamental_div_mod_converse(n, size, q, r + 1);
            assert(spec_batches(msgs, size) == spec_batches(t, size));
            assert forall|i: int| 0 <= i < n / size implies spec_batches(msgs, size)[i]
                == msgs.subrange(i * size, (i + 1) * size) by {
                lemma_mul_inequality(0, i, size);
                lemma_mul_inequality(i, i + 1, size);
                lemma_mul_inequality(i + 1, q, size);
                assert(t.subrange(i * size, (i + 1) * size) =~= msgs.subrange(
                    i * size,
                    (i + 1) * size,
                ));
            }
            assert(spec_pending(msgs, size) =~= msgs.skip(q * size));
        }
    }
}

/// Law: offering exactly twice the batch size emits exactly two full
/// batches — the first and the second half of the run, in offer order —
/// and leaves nothing pending, so no final flush is needed.
pub proof fn lemma_two_full_batches(msgs: Seq<SBS1Message>, size: int)
    requires
        size >= 1,
        msgs.len() == 2 * size,
    ensures
        spec_batches(msgs, size) =~= seq![msgs.take(size), msgs.skip(size)],
        spec_pending(msgs, size) =~= Seq::<SBS1Message>::empty(),
{
    lemma_aggregation_shape(msgs, size);
    lemma_fundamental_div_mod_converse(2 * size, size, 2, 0);
    assert(msgs.subrange(0 * size, 1 * size) =~= msgs.take(size));
    assert(msgs.subrange(1 * size, 2 * size) =~= msgs.skip(size));
}

/// Law: offering one more message than the batch size emits one full batch
/// and leaves exactly the one overflow message pending, which the final
/// flush then emits as an undersized batch. A batch size of one is left
/// out: there the extra message closes a second full batch of its own
/// instead of staying pending.
pub proof fn lemma_one_over_batch(msgs: Seq<SBS1Message>, size: int)
    requires
        size >= 2,
        msgs.len() == size + 1,
    ensures
        spec_batches(msgs, size) =~= seq![msgs.take(size)],
        spec_pending(msgs, size) =~= msgs.skip(size),
        spec_pending(msgs, size).len() == 1,
{
    lemma_aggregation_shape(msgs, size);
    lemma_fundamental_div_mod_converse(size + 1, size, 1, 1);
    assert(msgs.subrange(0 * size, 1 * size) =~= msgs.take(size));
}

} // verus!
