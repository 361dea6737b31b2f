//! The top-level delivery unit: routes incoming items through the
//! partition router, stamps every completed batch with the next sequence
//! number, and feeds completion results into the resequencer so that the
//! upstream buffer only ever commits a contiguous prefix.
//!
//! The surrounding process drives this state machine: it reads items,
//! runs partition timers, performs the transmit operations, and hands each
//! result back here, in whatever order the transmissions finish.

use crate::batch::{Batch, Compression, SizeLimit};
use crate::resequencer::{sum_counts, Resequencer};
use crate::router::{key_view, EncodedItem, PartitionRouter};
use vstd::prelude::*;

verus! {

/// A batch on its way to the delivery service, stamped with the sequence
/// number its completion must report.
pub struct Submission {
    pub seq: u64,
    pub batch: Batch,
}

pub struct DeliveryOrchestrator {
    pub router: PartitionRouter,
    pub reseq: Resequencer,
    /// The next sequence number to assign; sequence numbers are assigned
    /// `0, 1, 2, ...` with no gaps and never reused.
    pub next_seq: u64,
    /// Once shutdown begins, no new items are admitted; already accepted
    /// work still drains.
    pub draining: bool,
}

impl DeliveryOrchestrator {
    pub open spec fn wf(self) -> bool {
        &&& self.router.wf()
        &&& self.reseq.wf()
        &&& self.reseq.tail <= self.next_seq
        &&& forall|k: int|
            #[trigger] self.reseq.log@.dom().contains(k) ==> 0 <= k < self.next_seq
    }

    pub fn new(limit: SizeLimit, compression: Compression) -> (r: DeliveryOrchestrator)
        ensures
            r.wf(),
            r.next_seq == 0,
            r.draining == false,
            r.reseq.acked == 0,
            r.router.limit == limit,
            r.router.compression == compression,
    {
        DeliveryOrchestrator {
            router: PartitionRouter::new(limit, compression),
            reseq: Resequencer::new(),
            next_seq: 0,
            draining: false,
        }
    }

    /// One item read from the input stream. When its partition completes a
    /// batch, the batch leaves with the next sequence number stamped on
    /// it.
    pub fn on_item(&mut self, item: EncodedItem) -> (r: Option<Submission>)
        requires
            old(self).wf(),
            !old(self).draining,
            old(self).next_seq < u64::MAX,
            old(self).router.buffered(key_view(item.key)).len() < usize::MAX,
        ensures
            final(self).wf(),
            final(self).reseq == old(self).reseq,
            final(self).draining == old(self).draining,
            final(self).router.routed(key_view(item.key)) == old(self).router.routed(
                key_view(item.key),
            ).push(item.payload@),
            forall|k: Option<Seq<char>>|
                k != key_view(item.key) ==> #[trigger] final(self).router.routed(k) == old(self).router.routed(k),
            r is None ==> final(self).next_seq == old(self).next_seq,
            r matches Some(s) ==> s.seq == old(self).next_seq && final(self).next_seq == old(self).next_seq + 1 && s.batch.wf() && key_view(s.batch.key) == key_view(item.key)
                && s.batch.items@ == old(self).router.buffered(key_view(item.key)).push(
                item.payload@,
            ),
    {
        let ghost k = key_view(item.key);
        let b = self.router.route(item);
        match b {
            None => None,
            Some(batch) => {
                let seq = self.next_seq;
                self.next_seq = self.next_seq + 1;
                Some(Submission { seq, batch })
            },
        }
    }

    /// A partition's flush deadline elapsed.
    pub fn on_timer(&mut self, key: &Option<String>) -> (r: Option<Submission>)
        requires
            old(self).wf(),
            old(self).next_seq < u64::MAX,
        ensures
            final(self).wf(),
            final(self).reseq == old(self).reseq,
            final(self).draining == old(self).draining,
            r is Some <==> old(self).router.buffered(key_view(*key)).len() > 0,
            final(self).router.buffered(key_view(*key)).len() == 0,
            forall|k: Option<Seq<char>>|
                #[trigger] final(self).router.routed(k) == old(self).router.routed(k),
            r is None ==> final(self).next_seq == old(self).next_seq,
            r matches Some(s) ==> s.seq == old(self).next_seq && final(self).next_seq == old(self).next_seq + 1 && s.batch.wf() && key_view(s.batch.key) == key_view(*key)
                && s.batch.items@ == old(self).router.buffered(key_view(*key)),
    {
        let b = self.router.tick(key);
        match b {
            None => None,
            Some(batch) => {
                let seq = self.next_seq;
                self.next_seq = self.next_seq + 1;
                Some(Submission { seq, batch })
            },
        }
    }

    /// One submission resolved, successfully or terminally failed: either
    /// way its events are accounted for. Returns how many events became
    /// safe to commit upstream.
    pub fn on_completion(&mut self, seq: u64, event_count: u64) -> (commit: u64)
        requires
            old(self).wf(),
            seq < old(self).next_seq,
            seq >= old(self).reseq.tail,
            !old(self).reseq.log@.dom().contains(seq as int),
            old(self).reseq.acked + event_count + sum_counts(old(self).reseq.pending@)
                <= u64::MAX,
        ensures
            final(self).wf(),
            final(self).router == old(self).router,
            final(self).next_seq == old(self).next_seq,
            final(self).draining == old(self).draining,
            final(self).reseq.log@ == old(self).reseq.log@.insert(
                seq as int,
                event_count as int,
            ),
            final(self).reseq.acked == old(self).reseq.acked + commit,
            final(self).reseq.acked + sum_counts(final(self).reseq.pending@) == old(
                self,
            ).reseq.acked + sum_counts(old(self).reseq.pending@) + event_count,
            final(self).reseq.tail >= old(self).reseq.tail,
            (final(self).reseq.tail > old(self).reseq.tail) <==> (seq == old(self).reseq.tail),
    {
        let c = self.reseq.complete(seq, event_count);
        proof {
            if self.reseq.tail > 0 {
                assert(self.reseq.log@.dom().contains(self.reseq.tail - 1));
            }
            assert forall|k: int| #[trigger] self.reseq.log@.dom().contains(k)
                implies 0 <= k < self.next_seq by {
                if k != seq {
                    assert(old(self).reseq.log@.dom().contains(k));
                }
            }
        }
        c
    }

    /// Shutdown: stop admitting items and flush every partition; each
    /// non-empty partition's batch leaves with the next sequence numbers,
    /// in the order the batches come out.
    #[verifier::loop_isolation(false)]
    pub fn on_shutdown(&mut self) -> (out: Vec<Submission>)
        requires
            old(self).wf(),
            old(self).next_seq + old(self).router.parts@.len() <= u64::MAX,
        ensures
            final(self).wf(),
            final(self).draining,
            final(self).reseq == old(self).reseq,
            forall|k: Option<Seq<char>>|
                #[trigger] final(self).router.buffered(k).len() == 0,
            forall|k: Option<Seq<char>>|
                #[trigger] final(self).router.routed(k) == old(self).router.routed(k),
            final(self).next_seq == old(self).next_seq + out@.len(),
            forall|j: int|
                0 <= j < out@.len() ==> (#[trigger] out@[j]).seq == old(self).next_seq + j
                    && out@[j].batch.wf() && out@[j].batch.items@ == old(self).router.buffered(key_view(out@[j].batch.key)),
            forall|k: Option<Seq<char>>|
                old(self).router.buffered(k).len() > 0 ==> exists|j: int|
                    0 <= j < out@.len() && key_view((#[trigger] out@[j]).batch.key) == k,
    {
        self.draining = true;
        let batches = self.router.flush_all();
        let ghost mid = *self;
        let mut out: Vec<Submission> = Vec::new();
        let mut batches = batches;
        let n = batches.len();
        let ghost bs = batches@;
        let mut i: usize = 0;
        while i < n
            invariant
                self.router == mid.router,
                self.reseq == mid.reseq,
                self.draining == mid.draining,
                n == bs.len(),
                batches@ == bs.skip(i as int),
                i <= n,
                out@.len() == i,
                self.next_seq == old(self).next_seq + i,
                old(self).next_seq + n <= u64::MAX,
                forall|j: int|
                    0 <= j < i ==> (#[trigger] out@[j]).seq == old(self).next_seq + j
                        && out@[j].batch == bs[j],
            decreases n - i,
        {
            let batch = batches.remove(0);
            proof {
                assert(bs.skip(i as int)[0] == bs[i as int]);
                assert(bs.skip(i as int).remove(0) =~= bs.skip(i + 1));
            }
            let seq = self.next_seq;
            self.next_seq = self.next_seq + 1;
            out.push(Submission { seq, batch });
            i = i + 1;
        }
        proof {
            assert forall|j: int| 0 <= j < out@.len()
                implies (#[trigger] out@[j]).seq == old(self).next_seq + j
                    && out@[j].batch.wf() && out@[j].batch.items@ == old(self).router.buffered(key_view(out@[j].batch.key)) by {
                assert(out@[j].batch == bs[j]);
            }
            assert forall|k: Option<Seq<char>>| old(self).router.buffered(k).len() > 0
                implies exists|j: int|
                    0 <= j < out@.len() && key_view((#[trigger] out@[j]).batch.key)
                        == k by {
                let j = choose|j: int|
                    0 <= j < bs.len() && key_view((#[trigger] bs[j]).key) == k;
                assert(key_view(out@[j].batch.key) == k);
            }
        }
        out
    }
}

} // verus!
