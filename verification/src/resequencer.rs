//! Converts out-of-order completion notifications into a strictly
//! increasing, contiguous "safe to commit" watermark.
//!
//! Every submission carries a sequence number assigned in order `0, 1, 2,
//! ...` and an event count. Submissions resolve in an arbitrary order; the
//! resequencer only ever commits the event counts of an unbroken prefix of
//! sequence numbers, so the upstream buffer never discards data whose
//! predecessor is still outstanding.

use vstd::prelude::*;

verus! {

/// Sum of the recorded event counts of sequence numbers `0 .. k`.
pub open spec fn prefix_sum(log: Map<int, int>, k: int) -> int
    decreases k,
{
    if k <= 0 {
        0
    } else {
        prefix_sum(log, k - 1) + log[k - 1]
    }
}

/// Sum of the event counts held by a pending list.
pub open spec fn sum_counts(s: Seq<(u64, u64)>) -> int
    decreases s.len(),
{
    if s.len() == 0 {
        0
    } else {
        s[0].1 + sum_counts(s.drop_first())
    }
}

pub struct Resequencer {
    /// Next sequence number expected to complete in order.
    pub tail: u64,
    /// Total number of events committed so far.
    pub acked: u64,
    /// Completions that arrived ahead of `tail`: `(sequence, event count)`,
    /// strictly sorted by sequence number.
    pub pending: Vec<(u64, u64)>,
    /// Every completion seen so far: sequence number to event count.
    pub log: Ghost<Map<int, int>>,
}

impl Resequencer {
    pub open spec fn wf(self) -> bool {
        &&& forall|i: int, j: int|
            0 <= i < j < self.pending@.len() ==> self.pending@[i].0 < self.pending@[j].0
        &&& forall|i: int|
            0 <= i < self.pending@.len()
                ==> self.tail < #[trigger] self.pending@[i].0 < u64::MAX
        &&& forall|i: int|
            0 <= i < self.pending@.len()
                ==> self.log@.dom().contains(#[trigger] self.pending@[i].0 as int)
                    && self.log@[self.pending@[i].0 as int] == self.pending@[i].1
        &&& forall|k: int|
            #[trigger] self.log@.dom().contains(k)
                ==> (0 <= k < self.tail || exists|i: int|
                    0 <= i < self.pending@.len() && #[trigger] self.pending@[i].0 == k)
        &&& forall|k: int| 0 <= k < self.tail ==> #[trigger] self.log@.dom().contains(k)
        &&& forall|k: int|
            #[trigger] self.log@.dom().contains(k) ==> 0 <= self.log@[k] <= u64::MAX
        &&& self.acked == prefix_sum(self.log@, self.tail as int)
    }

    pub fn new() -> (r: Resequencer)
        ensures
            r.wf(),
            r.tail == 0,
            r.acked == 0,
            r.log@ == Map::<int, int>::empty(),
            r.pending@.len() == 0,
    {
        Resequencer {
            tail: 0,
            acked: 0,
            pending: Vec::new(),
            log: Ghost(Map::empty()),
        }
    }

    /// Record that the submission with sequence number `seq` resolved,
    /// carrying `n` events. Returns the number of events that became safe to
    /// commit: zero if `seq` completed ahead of schedule, otherwise the
    /// counts of the newly contiguous run starting at the old `tail`.
    #[verifier::loop_isolation(false)]
    #[verifier::rlimit(60)]
    #[verifier::spinoff_prover]
    pub fn complete(&mut self, seq: u64, n: u64) -> (c: u64)
        requires
            old(self).wf(),
            !old(self).log@.dom().contains(seq as int),
            seq >= old(self).tail,
            seq < u64::MAX,
            old(self).acked + n + sum_counts(old(self).pending@) <= u64::MAX,
        ensures
            final(self).wf(),
            final(self).log@ == old(self).log@.insert(seq as int, n as int),
            final(self).acked == old(self).acked + c,
            final(self).acked + sum_counts(final(self).pending@) == old(self).acked
                + sum_counts(old(self).pending@) + n,
            final(self).tail >= old(self).tail,
            (final(self).tail > old(self).tail) <==> (seq == old(self).tail),
            seq != old(self).tail ==> c == 0,
    {
        let ghost log1 = self.log@.insert(seq as int, n as int);
        self.log = Ghost(log1);
        if seq == self.tail {
            let ghost tail0 = self.tail as int;
            proof {
                lemma_prefix_sum_insert_above(old(self).log@, tail0, seq as int, n as int);
            }
            self.tail = seq + 1;
            let mut commit: u64 = n;
            assert(prefix_sum(log1, tail0 + 1) == prefix_sum(log1, tail0) + log1[tail0]);
            proof {
                assert forall|k: int| #[trigger] log1.dom().contains(k)
                    implies (0 <= k < self.tail || exists|i: int|
                        0 <= i < self.pending@.len()
                            && #[trigger] self.pending@[i].0 == k) by {
                    if k != seq {
                        assert(old(self).log@.dom().contains(k));
                        if !(0 <= k < self.tail) {
                            let i = choose|i: int|
                                0 <= i < old(self).pending@.len()
                                    && #[trigger] old(self).pending@[i].0 == k;
                            assert(self.pending@[i].0 == k);
                        }
                    }
                }
            }
            while self.pending.len() > 0 && self.pending[0].0 == self.tail
                invariant
                    log1 == old(self).log@.insert(seq as int, n as int),
                    self.log@ == log1,
                    self.acked == old(self).acked,
                    self.acked == prefix_sum(log1, tail0),
                    tail0 < self.tail <= u64::MAX,
                    commit == prefix_sum(log1, self.tail as int) - prefix_sum(log1, tail0),
                    commit + sum_counts(self.pending@) == n + sum_counts(old(self).pending@),
                    forall|i: int, j: int|
                        0 <= i < j < self.pending@.len()
                            ==> self.pending@[i].0 < self.pending@[j].0,
                    forall|i: int|
                        0 <= i < self.pending@.len()
                            ==> self.tail <= #[trigger] self.pending@[i].0 < u64::MAX,
                    forall|i: int|
                        0 <= i < self.pending@.len()
                            ==> log1.dom().contains(#[trigger] self.pending@[i].0 as int)
                                && log1[self.pending@[i].0 as int] == self.pending@[i].1,
                    forall|k: int|
                        #[trigger] log1.dom().contains(k)
                            ==> (0 <= k < self.tail || exists|i: int|
                                0 <= i < self.pending@.len()
                                    && #[trigger] self.pending@[i].0 == k),
                    forall|k: int| 0 <= k < self.tail ==> #[trigger] log1.dom().contains(k),
                    forall|k: int|
                        #[trigger] log1.dom().contains(k) ==> 0 <= log1[k] <= u64::MAX,
                decreases self.pending@.len(),
            {
                let (s, cnt) = self.pending[0];
                let ghost before = self.pending@;
                self.pending.remove(0);
                proof {
                    assert(self.pending@ =~= before.drop_first());
                    lemma_sum_counts_nonneg(self.pending@);
                    assert(sum_counts(before) == cnt + sum_counts(self.pending@));
                }
                assert(prefix_sum(log1, s as int + 1) == prefix_sum(log1, s as int) + log1[s as int]);
                commit = commit + cnt;
                self.tail = s + 1;
                proof {
                    assert forall|k: int| #[trigger] log1.dom().contains(k)
                        implies (0 <= k < self.tail || exists|i: int|
                            0 <= i < self.pending@.len()
                                && #[trigger] self.pending@[i].0 == k) by {
                        if !(0 <= k < self.tail) {
                            let i = choose|i: int|
                                0 <= i < before.len() && #[trigger] before[i].0 == k;
                            assert(i > 0);
                            assert(self.pending@[i - 1].0 == k);
                        }
                    }
                    assert forall|i: int| 0 <= i < self.pending@.len()
                        implies log1.dom().contains(#[trigger] self.pending@[i].0 as int)
                            && log1[self.pending@[i].0 as int] == self.pending@[i].1 by {
                        assert(before[i + 1] == self.pending@[i]);
                    }
                }
            }
            proof {
                lemma_sum_counts_nonneg(self.pending@);
            }
            self.acked = self.acked + commit;
            commit
        } else {
            let mut i: usize = 0;
            while i < self.pending.len() && self.pending[i].0 < seq
                invariant
                    i <= self.pending@.len(),
                    forall|j: int| 0 <= j < i ==> self.pending@[j].0 < seq,
                    self.pending == old(self).pending,
                decreases self.pending@.len() - i,
            {
                i = i + 1;
            }
            assert forall|j: int| i <= j < self.pending@.len()
                implies seq < #[trigger] self.pending@[j].0 by {
                assert(self.pending@[i as int].0 != seq);
                if j > i {
                    assert(self.pending@[i as int].0 < self.pending@[j].0);
                }
            }
            self.pending.insert(i, (seq, n));
            proof {
                lemma_prefix_sum_insert_above(
                    old(self).log@,
                    self.tail as int,
                    seq as int,
                    n as int,
                );
                lemma_sum_counts_insert(old(self).pending@, i as int, (seq, n));
                assert forall|k: int| #[trigger] log1.dom().contains(k)
                    implies (0 <= k < self.tail || exists|j: int|
                        0 <= j < self.pending@.len()
                            && #[trigger] self.pending@[j].0 == k) by {
                    if k == seq {
                        assert(self.pending@[i as int].0 == seq);
                    } else if !(0 <= k < self.tail) {
                        let j = choose|j: int|
                            0 <= j < old(self).pending@.len()
                                && #[trigger] old(self).pending@[j].0 == k;
                        if j < i {
                            assert(self.pending@[j].0 == k);
                        } else {
                            assert(self.pending@[j + 1].0 == k);
                        }
                    }
                }
                assert forall|j: int| 0 <= j < self.pending@.len()
                    implies log1.dom().contains(#[trigger] self.pending@[j].0 as int)
                        && log1[self.pending@[j].0 as int] == self.pending@[j].1 by {
                    if j < i {
                        assert(old(self).pending@[j] == self.pending@[j]);
                    } else if j > i {
                        assert(old(self).pending@[j - 1] == self.pending@[j]);
                    }
                }
            }
            0
        }
    }
}

/// Inserting a completion at or above `k` leaves the prefix sum below `k`
/// unchanged.
proof fn lemma_prefix_sum_insert_above(log: Map<int, int>, k: int, s: int, v: int)
    requires
        s >= k,
    ensures
        prefix_sum(log.insert(s, v), k) == prefix_sum(log, k),
    decreases k,
{
    if k > 0 {
        lemma_prefix_sum_insert_above(log, k - 1, s, v);
    }
}

/// A sum of event counts is never negative.
proof fn lemma_sum_counts_nonneg(s: Seq<(u64, u64)>)
    ensures
        sum_counts(s) >= 0,
    decreases s.len(),
{
    if s.len() > 0 {
        lemma_sum_counts_nonneg(s.drop_first());
    }
}

/// Inserting a pair into a pending list adds its count to the total.
proof fn lemma_sum_counts_insert(s: Seq<(u64, u64)>, i: int, p: (u64, u64))
    requires
        0 <= i <= s.len(),
    ensures
        sum_counts(s.insert(i, p)) == sum_counts(s) + p.1,
    decreases s.len(),
{
    if i == 0 {
        assert(s.insert(0, p).drop_first() =~= s);
    } else {
        assert(s.insert(i, p).drop_first() =~= s.drop_first().insert(i - 1, p));
        lemma_sum_counts_insert(s.drop_first(), i - 1, p);
    }
}

/// The watermark law: in every reachable state the committed total equals
/// the summed event counts of the longest contiguous completed prefix of
/// sequence numbers, and of nothing more.
pub proof fn lemma_watermark_is_longest_contiguous_prefix(r: Resequencer)
    requires
        r.wf(),
    ensures
        r.acked == prefix_sum(r.log@, r.tail as int),
        forall|k: int| 0 <= k < r.tail ==> r.log@.dom().contains(k),
        !r.log@.dom().contains(r.tail as int),
{
    assert(forall|i: int|
        0 <= i < r.pending@.len() ==> r.tail < #[trigger] r.pending@[i].0);
}

} // verus!
