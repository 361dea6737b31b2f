//! Partition routing: one independent batch accumulator (and flush timer)
//! per destination-determined key, so that unrelated destinations do not
//! block each other's flush cadence.

use crate::batch::{Accumulator, Batch, Compression, SizeLimit};
use vstd::prelude::*;

verus! {

/// An opaque encoded payload together with the partition key it was
/// derived for.
pub struct EncodedItem {
    pub payload: Vec<u8>,
    pub key: Option<String>,
}

/// The partition key as a mathematical value.
pub open spec fn key_view(k: Option<String>) -> Option<Seq<char>> {
    match k {
        Some(s) => Some(s@),
        None => None,
    }
}

/// One partition: its key, its accumulator, and whether its flush deadline
/// is armed.
pub struct Partition {
    pub key: Option<String>,
    pub acc: Accumulator,
    pub armed: bool,
}

pub open spec fn okey(p: Partition) -> Option<Seq<char>> {
    key_view(p.key)
}

/// Index of the first partition with key `k`, or `-1` if there is none.
pub open spec fn find_key(parts: Seq<Partition>, k: Option<Seq<char>>) -> int
    decreases parts.len(),
{
    if parts.len() == 0 {
        -1
    } else if okey(parts[0]) == k {
        0
    } else if find_key(parts.drop_first(), k) == -1 {
        -1
    } else {
        find_key(parts.drop_first(), k) + 1
    }
}

proof fn lemma_find_key_bounds(parts: Seq<Partition>, k: Option<Seq<char>>)
    ensures
        -1 <= find_key(parts, k) < parts.len(),
        find_key(parts, k) >= 0 ==> okey(parts[find_key(parts, k)]) == k,
        find_key(parts, k) == -1 ==> forall|i: int|
            0 <= i < parts.len() ==> okey(#[trigger] parts[i]) != k,
        forall|i: int| 0 <= i < find_key(parts, k) ==> okey(#[trigger] parts[i]) != k,
    decreases parts.len(),
{
    if parts.len() > 0 && okey(parts[0]) != k {
        lemma_find_key_bounds(parts.drop_first(), k);
        assert forall|i: int|
            0 <= i < parts.len() && (find_key(parts, k) == -1 || i < find_key(parts, k))
            implies okey(#[trigger] parts[i]) != k by {
            if i > 0 {
                assert(parts.drop_first()[i - 1] == parts[i]);
            }
        }
    }
}

/// If `parts[i]` has key `k`, and no earlier partition does, the lookup
/// finds exactly `i`.
proof fn lemma_find_key_unique(parts: Seq<Partition>, k: Option<Seq<char>>, i: int)
    requires
        0 <= i < parts.len(),
        okey(parts[i]) == k,
        forall|j: int| 0 <= j < i ==> okey(#[trigger] parts[j]) != k,
    ensures
        find_key(parts, k) == i,
    decreases parts.len(),
{
    if i > 0 {
        lemma_find_key_unique(parts.drop_first(), k, i - 1);
    }
}

/// Appending a partition with a different key does not change a lookup.
proof fn lemma_find_key_push(parts: Seq<Partition>, p: Partition, k: Option<Seq<char>>)
    requires
        okey(p) != k,
    ensures
        find_key(parts.push(p), k) == find_key(parts, k),
    decreases parts.len(),
{
    if parts.len() == 0 {
        assert(parts.push(p)[0] == p);
        assert(parts.push(p).drop_first() =~= Seq::<Partition>::empty());
        assert(find_key(parts.push(p).drop_first(), k) == -1);
        assert(find_key(parts.push(p), k) == -1);
        assert(find_key(parts, k) == -1);
    } else {
        assert(parts.push(p)[0] == parts[0]);
        assert(parts.push(p).drop_first() =~= parts.drop_first().push(p));
        lemma_find_key_push(parts.drop_first(), p, k);
        assert(find_key(parts.drop_first().push(p), k) == find_key(parts.drop_first(), k));
        if okey(parts[0]) == k {
            assert(find_key(parts.push(p), k) == 0);
            assert(find_key(parts, k) == 0);
        } else {
            assert(find_key(parts.push(p), k) == (if find_key(
                parts.push(p).drop_first(),
                k,
            ) == -1 {
                -1int
            } else {
                find_key(parts.push(p).drop_first(), k) + 1
            }));
            assert(find_key(parts, k) == (if find_key(parts.drop_first(), k) == -1 {
                -1int
            } else {
                find_key(parts.drop_first(), k) + 1
            }));
            assert(find_key(parts.push(p), k) == find_key(parts, k));
        }
    }
}

/// Lookups agree on two partition lists with the same keys in the same
/// places.
proof fn lemma_find_key_same_keys(a: Seq<Partition>, b: Seq<Partition>, k: Option<Seq<char>>)
    requires
        a.len() == b.len(),
        forall|i: int| 0 <= i < a.len() ==> okey(#[trigger] a[i]) == okey(b[i]),
    ensures
        find_key(a, k) == find_key(b, k),
    decreases a.len(),
{
    if a.len() > 0 {
        assert(forall|i: int|
            0 <= i < a.drop_first().len()
                ==> okey(#[trigger] a.drop_first()[i]) == okey(b.drop_first()[i]));
        lemma_find_key_same_keys(a.drop_first(), b.drop_first(), k);
    }
}

/// Maintains a mapping from partition key to its accumulator. Partitions
/// are created lazily on first use and are otherwise fully independent.
pub struct PartitionRouter {
    pub limit: SizeLimit,
    pub compression: Compression,
    pub parts: Vec<Partition>,
}

impl PartitionRouter {
    pub open spec fn wf(self) -> bool {
        &&& forall|i: int, j: int|
            0 <= i < j < self.parts@.len()
                ==> okey(#[trigger] self.parts@[i]) != okey(#[trigger] self.parts@[j])
        &&& forall|i: int|
            0 <= i < self.parts@.len() ==> (#[trigger] self.parts@[i]).acc.wf()
        &&& forall|i: int|
            0 <= i < self.parts@.len()
                ==> (#[trigger] self.parts@[i]).acc.limit == self.limit
                    && self.parts@[i].acc.compression == self.compression
        &&& forall|i: int|
            0 <= i < self.parts@.len()
                ==> ((#[trigger] self.parts@[i]).armed <==> self.parts@[i].acc.count > 0)
    }

    /// The payloads still buffered for key `k`.
    pub open spec fn buffered(self, k: Option<Seq<char>>) -> Seq<Seq<u8>> {
        if find_key(self.parts@, k) >= 0 {
            self.parts@[find_key(self.parts@, k)].acc.items@
        } else {
            Seq::empty()
        }
    }

    /// Every payload ever routed to key `k`, in order.
    pub open spec fn routed(self, k: Option<Seq<char>>) -> Seq<Seq<u8>> {
        if find_key(self.parts@, k) >= 0 {
            self.parts@[find_key(self.parts@, k)].acc.accepted()
        } else {
            Seq::empty()
        }
    }

    pub fn new(limit: SizeLimit, compression: Compression) -> (r: PartitionRouter)
        ensures
            r.wf(),
            r.limit == limit,
            r.compression == compression,
            r.parts@.len() == 0,
    {
        PartitionRouter { limit, compression, parts: Vec::new() }
    }

    /// Index of the partition holding `key`, if one exists.
    fn lookup(&self, key: &Option<String>) -> (r: Option<usize>)
        ensures
            r matches Some(i) ==> i < self.parts@.len()
                && find_key(self.parts@, key_view(*key)) == i as int
                && okey(self.parts@[i as int]) == key_view(*key),
            r is None ==> find_key(self.parts@, key_view(*key)) == -1,
    {
        let ghost k = key_view(*key);
        let n = self.parts.len();
        let mut i: usize = 0;
        let mut found = false;
        while i < n
            invariant_except_break
                !found,
            invariant
                k == key_view(*key),
                n == self.parts@.len(),
                i <= n,
                forall|j: int| 0 <= j < i ==> okey(#[trigger] self.parts@[j]) != k,
                found ==> i < n && okey(self.parts@[i as int]) == k,
            ensures
                found ==> i < n && okey(self.parts@[i as int]) == k,
                !found ==> i == n,
            decreases n - i,
        {
            if keys_match(&self.parts[i].key, key) {
                found = true;
                break ;
            }
            i = i + 1;
        }
        if found {
            proof {
                lemma_find_key_unique(self.parts@, k, i as int);
            }
            Some(i)
        } else {
            proof {
                lemma_find_key_bounds(self.parts@, k);
                if find_key(self.parts@, k) >= 0 {
                    assert(okey(self.parts@[find_key(self.parts@, k)]) == k);
                }
            }
            None
        }
    }

    /// Route one item to the accumulator of its key, creating the
    /// partition on first use. Items routed to one key never reach another
    /// key's accumulator, and a batch completed here carries the item's
    /// key.
    #[verifier::rlimit(30)]
    pub fn route(&mut self, item: EncodedItem) -> (r: Option<Batch>)
        requires
            old(self).wf(),
            old(self).buffered(key_view(item.key)).len() < usize::MAX,
        ensures
            final(self).wf(),
            final(self).limit == old(self).limit,
            final(self).compression == old(self).compression,
            final(self).routed(key_view(item.key))
                == old(self).routed(key_view(item.key)).push(item.payload@),
            forall|k: Option<Seq<char>>|
                k != key_view(item.key)
                    ==> #[trigger] final(self).routed(k) == old(self).routed(k)
                        && final(self).buffered(k) == old(self).buffered(k),
            r is None ==> final(self).buffered(key_view(item.key))
                == old(self).buffered(key_view(item.key)).push(item.payload@),
            r matches Some(b) ==> b.wf() && key_view(b.key) == key_view(item.key)
                && b.compression == old(self).compression
                && b.items@ == old(self).buffered(key_view(item.key)).push(item.payload@)
                && final(self).buffered(key_view(item.key)).len() == 0,
            (match old(self).limit {
                SizeLimit::MaxEvents(m) => r is Some <==> old(self).buffered(
                    key_view(item.key),
                ).len() + 1 >= m,
                SizeLimit::MaxBytes(_) => true,
            }),
    {
        let ghost k = key_view(item.key);
        let hit = self.lookup(&item.key);
        match hit {
            Some(i) => {
                let ghost parts0 = self.parts@;
                let mut part = self.parts.remove(i);
                let r = part.acc.add(item.payload);
                part.armed = part.acc.count > 0;
                let b = match r {
                    Some(mut b) => {
                        b.key = clone_key(&part.key);
                        Some(b)
                    },
                    None => None,
                };
                self.parts.insert(i, part);
                proof {
                    assert forall|j: int| 0 <= j < self.parts@.len() && j != i
                        implies self.parts@[j] == parts0[j] by {
                        if j < i {
                            assert(parts0.remove(i as int)[j] == parts0[j]);
                        } else {
                            assert(parts0.remove(i as int)[j - 1] == parts0[j]);
                        }
                    }
                    lemma_self_and_others(parts0, self.parts@, i as int, k);
                    assert forall|k2: Option<Seq<char>>| k2 != k
                        implies #[trigger] self.routed(k2) == old(self).routed(k2)
                            && self.buffered(k2) == old(self).buffered(k2) by {
                        lemma_find_key_bounds(parts0, k2);
                    }
                }
                b
            },
            None => {
                proof {
                    lemma_find_key_bounds(self.parts@, k);
                }
                let mut acc = Accumulator::new(self.limit, self.compression);
                let r = acc.add(item.payload);
                let armed = acc.count > 0;
                let ghost parts0 = self.parts@;
                let newpart = Partition { key: clone_key(&item.key), acc, armed };
                proof {
                    assert(okey(newpart) == k);
                }
                self.parts.push(newpart);
                let b = match r {
                    Some(mut b) => {
                        b.key = clone_key(&item.key);
                        Some(b)
                    },
                    None => None,
                };
                proof {
                    lemma_find_key_unique(self.parts@, k, parts0.len() as int);
                    assert forall|k2: Option<Seq<char>>| k2 != k
                        implies #[trigger] self.routed(k2) == old(self).routed(k2)
                            && self.buffered(k2) == old(self).buffered(k2) by {
                        lemma_find_key_push(parts0, self.parts@[parts0.len() as int], k2);
                        lemma_find_key_bounds(parts0, k2);
                        assert(self.parts@ =~= parts0.push(self.parts@[parts0.len() as int]));
                    }
                    assert(old(self).buffered(k) =~= Seq::<Seq<u8>>::empty());
                    assert(old(self).routed(k) =~= Seq::<Seq<u8>>::empty());
                }
                b
            },
        }
    }

    /// The timer of the partition with key `key` elapsed: flush that
    /// partition only and disarm its timer. Every other partition is left
    /// untouched, whatever its state: a slow or large partition never
    /// delays another partition's deadline flush.
    #[verifier::rlimit(100)]
    #[verifier::spinoff_prover]
    pub fn tick(&mut self, key: &Option<String>) -> (r: Option<Batch>)
        requires
            old(self).wf(),
        ensures
            final(self).wf(),
            final(self).limit == old(self).limit,
            final(self).compression == old(self).compression,
            r is Some <==> old(self).buffered(key_view(*key)).len() > 0,
            final(self).buffered(key_view(*key)).len() == 0,
            final(self).routed(key_view(*key)) == old(self).routed(key_view(*key)),
            forall|k: Option<Seq<char>>|
                k != key_view(*key) ==> #[trigger] final(self).routed(k) == old(
                    self,
                ).routed(k),
            forall|k: Option<Seq<char>>|
                k != key_view(*key) ==> #[trigger] final(self).buffered(k) == old(
                    self,
                ).buffered(k),
            r matches Some(b) ==> b.wf() && key_view(b.key) == key_view(*key)
                && b.compression == old(self).compression
                && b.items@ == old(self).buffered(key_view(*key)),
    {
        let ghost k = key_view(*key);
        let hit = self.lookup(key);
        match hit {
            Some(i) => {
                let ghost parts0 = self.parts@;
                let mut part = self.parts.remove(i);
                let r = part.acc.flush();
                part.armed = false;
                let b = match r {
                    Some(mut b) => {
                        b.key = clone_key(&part.key);
                        Some(b)
                    },
                    None => None,
                };
                self.parts.insert(i, part);
                proof {
                    assert forall|j: int| 0 <= j < self.parts@.len() && j != i
                        implies self.parts@[j] == parts0[j] by {
                        if j < i {
                            assert(parts0.remove(i as int)[j] == parts0[j]);
                        } else {
                            assert(parts0.remove(i as int)[j - 1] == parts0[j]);
                        }
                    }
                    lemma_self_and_others(parts0, self.parts@, i as int, k);
                    assert forall|k2: Option<Seq<char>>| k2 != k
                        implies #[trigger] self.routed(k2) == old(self).routed(k2) by {
                        lemma_find_key_bounds(parts0, k2);
                    }
                    assert forall|k2: Option<Seq<char>>| k2 != k
                        implies #[trigger] self.buffered(k2) == old(self).buffered(k2) by {
                        lemma_find_key_bounds(parts0, k2);
                    }
                }
                b
            },
            None => {
                None
            },
        }
    }

    /// Flush every partition: used on shutdown, where every buffered byte
    /// must be emitted, in no particular order, before completion. Each
    /// non-empty partition contributes exactly one batch carrying its key
    /// and its buffered items.
    #[verifier::rlimit(60)]
    pub fn flush_all(&mut self) -> (out: Vec<Batch>)
        requires
            old(self).wf(),
        ensures
            final(self).wf(),
            final(self).limit == old(self).limit,
            final(self).compression == old(self).compression,
            out@.len() <= old(self).parts@.len(),
            forall|k: Option<Seq<char>>| #[trigger] final(self).buffered(k).len() == 0,
            forall|k: Option<Seq<char>>| #[trigger] final(self).routed(k) == old(
                self,
            ).routed(k),
            forall|j: int|
                0 <= j < out@.len() ==> (#[trigger] out@[j]).wf() && out@[j].items@ == old(
                    self,
                ).buffered(key_view(out@[j].key)) && out@[j].compression == old(
                    self,
                ).compression,
            forall|j1: int, j2: int|
                0 <= j1 < j2 < out@.len()
                    ==> key_view((#[trigger] out@[j1]).key) != key_view(
                        (#[trigger] out@[j2]).key,
                    ),
            forall|k: Option<Seq<char>>|
                old(self).buffered(k).len() > 0 ==> exists|j: int|
                    0 <= j < out@.len() && key_view((#[trigger] out@[j]).key) == k,
    {
        let mut out: Vec<Batch> = Vec::new();
        let ghost mut srcs: Seq<int> = Seq::empty();
        let n = self.parts.len();
        let mut i: usize = 0;
        while i < n
            invariant
                old(self).wf(),
                n == self.parts@.len() == old(self).parts@.len(),
                i <= n,
                self.wf(),
                self.limit == old(self).limit,
                self.compression == old(self).compression,
                forall|j: int|
                    i <= j < n ==> #[trigger] self.parts@[j] == old(self).parts@[j],
                forall|j: int|
                    0 <= j < n
                        ==> okey(#[trigger] self.parts@[j]) == okey(old(self).parts@[j])
                            && self.parts@[j].acc.accepted() == old(
                            self,
                        ).parts@[j].acc.accepted(),
                forall|j: int| 0 <= j < i ==> (#[trigger] self.parts@[j]).acc.count == 0,
                srcs.len() == out@.len(),
                out@.len() <= i,
                forall|j: int|
                    0 <= j < srcs.len()
                        ==> 0 <= #[trigger] srcs[j] < i && okey(old(self).parts@[srcs[j]])
                            == key_view(out@[j].key) && out@[j].items@ == old(
                            self,
                        ).parts@[srcs[j]].acc.items@ && old(self).parts@[srcs[j]].acc.count
                            > 0 && out@[j].wf() && out@[j].compression == old(
                            self,
                        ).compression,
                forall|j1: int, j2: int|
                    0 <= j1 < j2 < srcs.len() ==> #[trigger] srcs[j1] < #[trigger] srcs[j2],
                forall|idx: int|
                    0 <= idx < i && (#[trigger] old(self).parts@[idx]).acc.count > 0
                        ==> exists|j: int| 0 <= j < srcs.len() && #[trigger] srcs[j] == idx,
            decreases n - i,
        {
            let ghost parts0 = self.parts@;
            let ghost srcs0 = srcs;
            let mut part = self.parts.remove(i);
            let r = part.acc.flush();
            part.armed = false;
            match r {
                Some(mut b) => {
                    b.key = clone_key(&part.key);
                    out.push(b);
                    proof {
                        srcs = srcs.push(i as int);
                    }
                },
                None => {},
            }
            self.parts.insert(i, part);
            proof {
                assert forall|j: int| 0 <= j < n && j != i
                    implies self.parts@[j] == parts0[j] by {
                    if j < i {
                        assert(parts0.remove(i as int)[j] == parts0[j]);
                    } else {
                        assert(parts0.remove(i as int)[j - 1] == parts0[j]);
                    }
                }
                assert forall|idx: int|
                    0 <= idx < i + 1 && (#[trigger] old(self).parts@[idx]).acc.count > 0
                    implies exists|j: int|
                        0 <= j < srcs.len() && #[trigger] srcs[j] == idx by {
                    if idx < i {
                        let j = choose|j: int|
                            0 <= j < srcs0.len() && #[trigger] srcs0[j] == idx;
                        assert(srcs[j] == idx);
                    } else {
                        assert(srcs[srcs.len() - 1] == idx);
                    }
                }
            }
            i = i + 1;
        }
        proof {
            assert forall|k: Option<Seq<char>>| #[trigger] self.buffered(k).len() == 0 by {
                lemma_find_key_bounds(self.parts@, k);
            }
            assert forall|k: Option<Seq<char>>| #[trigger] self.routed(k) == old(
                self,
            ).routed(k) by {
                lemma_find_key_same_keys(self.parts@, old(self).parts@, k);
                lemma_find_key_bounds(self.parts@, k);
            }
            assert forall|j: int| 0 <= j < out@.len()
                implies (#[trigger] out@[j]).wf() && out@[j].items@ == old(self).buffered(
                    key_view(out@[j].key),
                ) && out@[j].compression == old(self).compression by {
                let idx = srcs[j];
                assert forall|j2: int| 0 <= j2 < idx
                    implies okey(#[trigger] old(self).parts@[j2]) != okey(
                        old(self).parts@[idx],
                    ) by {}
                lemma_find_key_unique(old(self).parts@, key_view(out@[j].key), idx);
            }
            assert forall|j1: int, j2: int| 0 <= j1 < j2 < out@.len()
                implies key_view((#[trigger] out@[j1]).key) != key_view(
                    (#[trigger] out@[j2]).key,
                ) by {
                assert(srcs[j1] < srcs[j2]);
            }
            assert forall|k: Option<Seq<char>>| old(self).buffered(k).len() > 0
                implies exists|j: int|
                    0 <= j < out@.len() && key_view((#[trigger] out@[j]).key) == k by {
                lemma_find_key_bounds(old(self).parts@, k);
                let idx = find_key(old(self).parts@, k);
                assert(old(self).parts@[idx].acc.count > 0);
                let j = choose|j: int| 0 <= j < srcs.len() && #[trigger] srcs[j] == idx;
                assert(key_view(out@[j].key) == okey(old(self).parts@[idx]));
            }
        }
        out
    }
}

/// The index argument shared by `route` and `tick`: when only the
/// partition at `i` (whose key is `k`) changed, and its key stayed put,
/// lookups of every key are unaffected.
proof fn lemma_self_and_others(
    parts0: Seq<Partition>,
    parts1: Seq<Partition>,
    i: int,
    k: Option<Seq<char>>,
)
    requires
        parts0.len() == parts1.len(),
        0 <= i < parts0.len(),
        okey(parts0[i]) == k,
        okey(parts1[i]) == k,
        forall|j: int| 0 <= j < parts0.len() && j != i ==> parts0[j] == #[trigger] parts1[j],
        forall|a: int, b: int|
            0 <= a < b < parts0.len() ==> okey(#[trigger] parts0[a]) != okey(
                #[trigger] parts0[b],
            ),
    ensures
        forall|k2: Option<Seq<char>>| find_key(parts1, k2) == #[trigger] find_key(parts0, k2),
        find_key(parts0, k) == i,
{
    assert forall|j: int| 0 <= j < parts0.len()
        implies okey(#[trigger] parts1[j]) == okey(parts0[j]) by {}
    assert forall|k2: Option<Seq<char>>|
        find_key(parts1, k2) == #[trigger] find_key(parts0, k2) by {
        lemma_find_key_same_keys(parts1, parts0, k2);
    }
    assert forall|j: int| 0 <= j < i implies okey(#[trigger] parts0[j]) != k by {}
    lemma_find_key_unique(parts0, k, i);
}

/// Equality of two optional partition keys.
fn keys_match(a: &Option<String>, b: &Option<String>) -> (r: bool)
    ensures
        r <==> key_view(*a) == key_view(*b),
{
    match (a, b) {
        (None, None) => true,
        (Some(x), Some(y)) => x.eq(y),
        _ => false,
    }
}

/// A copy of an optional partition key.
fn clone_key(a: &Option<String>) -> (r: Option<String>)
    ensures
        key_view(r) == key_view(*a),
{
    match a {
        None => None,
        Some(x) => Some(x.clone()),
    }
}

} // verus!
