//! Batch accumulation: collects encoded item payloads into one growing
//! buffer (optionally through a streaming gzip compressor) up to a
//! configured size or count bound, and produces immutable completed
//! batches. No byte that enters the accumulator is ever dropped: it leaves
//! exactly once, either in a size-triggered batch or in a flush-triggered
//! one.

use crate::gzip::{gunzip_of, gz_finish, gz_flush, gz_new, gz_out_len, gz_raw, gz_write_all, GzStream};
use vstd::prelude::*;

verus! {

/// Concatenation of a sequence of byte strings, in order.
pub open spec fn concat_bytes(items: Seq<Seq<u8>>) -> Seq<u8>
    decreases items.len(),
{
    if items.len() == 0 {
        Seq::empty()
    } else {
        items[0] + concat_bytes(items.drop_first())
    }
}

pub proof fn lemma_concat_push(s: Seq<Seq<u8>>, x: Seq<u8>)
    ensures
        concat_bytes(s.push(x)) == concat_bytes(s) + x,
    decreases s.len(),
{
    if s.len() == 0 {
        assert(s.push(x).drop_first() =~= Seq::<Seq<u8>>::empty());
        assert(s.push(x)[0] == x);
        assert(concat_bytes(Seq::<Seq<u8>>::empty()) =~= Seq::<u8>::empty());
        assert(x + Seq::<u8>::empty() =~= x);
        assert(concat_bytes(s) + x =~= x);
    } else {
        assert(s.push(x).drop_first() =~= s.drop_first().push(x));
        lemma_concat_push(s.drop_first(), x);
        assert(concat_bytes(s.push(x)) =~= (s[0] + concat_bytes(s.drop_first())) + x);
        assert(concat_bytes(s) + x =~= (s[0] + concat_bytes(s.drop_first())) + x);
    }
}

/// How payloads are transformed on their way into a batch.
#[derive(Clone, Copy, Debug)]
pub enum Compression {
    Uncompressed,
    Gzip,
}

/// The sizing mode of an accumulator: a bound on transmitted bytes or a
/// bound on the item count, never both.
#[derive(Clone, Copy, Debug)]
pub enum SizeLimit {
    MaxBytes(usize),
    MaxEvents(usize),
}

/// An immutable, completed group of encoded items, sent as one transmit
/// operation. `items` records the raw payloads the batch stands for;
/// `event_count` is what the acknowledgment watermark advances by once the
/// batch resolves.
pub struct Batch {
    pub key: Option<String>,
    pub payload: Vec<u8>,
    pub event_count: usize,
    pub compression: Compression,
    pub items: Ghost<Seq<Seq<u8>>>,
}

impl Batch {
    pub open spec fn wf(self) -> bool {
        &&& self.event_count == self.items@.len()
        &&& self.event_count > 0
        &&& match self.compression {
            Compression::Uncompressed => self.payload@ == concat_bytes(self.items@),
            Compression::Gzip => gunzip_of(self.payload@) == concat_bytes(self.items@)
                && self.payload@.len() > 0,
        }
    }

    /// The raw bytes this batch stands for, after undoing compression.
    pub open spec fn raw_bytes(self) -> Seq<u8> {
        concat_bytes(self.items@)
    }
}

/// The growing buffer behind one partition.
pub struct Accumulator {
    pub limit: SizeLimit,
    pub compression: Compression,
    /// Raw concatenated payloads; used only without compression.
    pub buf: Vec<u8>,
    /// The open gzip stream; present exactly when compressing.
    pub gz: Option<GzStream>,
    /// Items in the current, not yet completed batch.
    pub count: usize,
    pub items: Ghost<Seq<Seq<u8>>>,
    /// Items already handed out in completed batches, in order.
    pub taken: Ghost<Seq<Seq<u8>>>,
}

impl Accumulator {
    pub open spec fn wf(self) -> bool {
        &&& self.count == self.items@.len()
        &&& match self.compression {
            Compression::Uncompressed => self.gz is None && self.buf@ == concat_bytes(
                self.items@,
            ),
            Compression::Gzip => self.buf@.len() == 0 && match self.gz {
                Some(e) => gz_raw(e) == concat_bytes(self.items@),
                None => false,
            },
        }
    }

    /// All payloads this accumulator has ever accepted, in order.
    pub open spec fn accepted(self) -> Seq<Seq<u8>> {
        self.taken@ + self.items@
    }

    pub fn new(limit: SizeLimit, compression: Compression) -> (r: Accumulator)
        ensures
            r.wf(),
            r.limit == limit,
            r.compression == compression,
            r.count == 0,
            r.items@ =~= Seq::<Seq<u8>>::empty(),
            r.taken@ =~= Seq::<Seq<u8>>::empty(),
    {
        let gz = match compression {
            Compression::Uncompressed => None,
            Compression::Gzip => Some(gz_new()),
        };
        Accumulator {
            limit,
            compression,
            buf: Vec::new(),
            gz,
            count: 0,
            items: Ghost(Seq::empty()),
            taken: Ghost(Seq::empty()),
        }
    }

    /// Complete the current buffer into a batch and reset. Callers ensure
    /// the buffer is not empty.
    fn take_batch(&mut self) -> (b: Batch)
        requires
            old(self).wf(),
            old(self).count > 0,
        ensures
            final(self).wf(),
            b.wf(),
            b.key is None,
            b.compression == old(self).compression,
            b.event_count == old(self).count,
            b.items@ == old(self).items@,
            final(self).limit == old(self).limit,
            final(self).compression == old(self).compression,
            final(self).count == 0,
            final(self).items@ =~= Seq::<Seq<u8>>::empty(),
            final(self).taken@ == old(self).taken@ + old(self).items@,
    {
        let payload: Vec<u8>;
        match self.compression {
            Compression::Uncompressed => {
                let mut tmp: Vec<u8> = Vec::new();
                core::mem::swap(&mut tmp, &mut self.buf);
                payload = tmp;
            },
            Compression::Gzip => {
                let finished = self.gz.take();
                match finished {
                    Some(e) => {
                        payload = gz_finish(e);
                    },
                    None => {
                        payload = vstd::pervasive::unreached();
                    },
                }
                self.gz = Some(gz_new());
            },
        }
        let count = self.count;
        self.count = 0;
        let b = Batch {
            key: None,
            payload,
            event_count: count,
            compression: self.compression,
            items: Ghost(self.items@),
        };
        proof {
            self.taken@ = self.taken@ + self.items@;
            self.items@ = Seq::empty();
        }
        b
    }

    /// Append one item's payload. Returns the completed batch when this
    /// item reaches or exceeds the configured bound; otherwise the buffer
    /// keeps accumulating. In count mode and in byte mode without
    /// compression the bound check is exact; with compression the measure
    /// is the compressed output so far, whose size the compressor owns.
    pub fn add(&mut self, payload: Vec<u8>) -> (r: Option<Batch>)
        requires
            old(self).wf(),
            old(self).count < usize::MAX,
        ensures
            final(self).wf(),
            final(self).limit == old(self).limit,
            final(self).compression == old(self).compression,
            r is None ==> final(self).items@ == old(self).items@.push(payload@)
                && final(self).taken@ == old(self).taken@
                && final(self).count == old(self).count + 1,
            r matches Some(b) ==> b.wf() && b.key is None
                && b.compression == old(self).compression
                && b.items@ == old(self).items@.push(payload@)
                && b.event_count == old(self).count + 1
                && final(self).count == 0
                && final(self).items@ =~= Seq::<Seq<u8>>::empty()
                && final(self).taken@ == old(self).taken@ + old(self).items@.push(payload@),
            final(self).accepted() == old(self).accepted().push(payload@),
            (match old(self).limit {
                SizeLimit::MaxEvents(m) => r is Some <==> old(self).count + 1 >= m,
                SizeLimit::MaxBytes(m) => old(self).compression is Uncompressed
                    ==> (r is Some <==> old(self).buf@.len() + payload@.len() >= m),
            }),
    {
        let ghost p = payload@;
        proof {
            lemma_concat_push(self.items@, p);
        }
        let mut payload = payload;
        match self.compression {
            Compression::Uncompressed => {
                self.buf.append(&mut payload);
            },
            Compression::Gzip => {
                match &mut self.gz {
                    Some(e) => {
                        gz_write_all(e, payload.as_slice());
                        gz_flush(e);
                    },
                    None => {
                        proof {
                            assert(false);
                        }
                    },
                }
            },
        }
        self.count = self.count + 1;
        proof {
            self.items@ = self.items@.push(p);
        }
        let full: bool = match self.limit {
            SizeLimit::MaxEvents(m) => self.count >= m,
            SizeLimit::MaxBytes(m) => match self.compression {
                Compression::Uncompressed => self.buf.len() >= m,
                Compression::Gzip => {
                    let n = match &self.gz {
                        Some(e) => gz_out_len(e),
                        None => vstd::pervasive::unreached(),
                    };
                    n >= m
                },
            },
        };
        if full {
            let b = self.take_batch();
            proof {
                assert(self.accepted() =~= old(self).accepted().push(p));
            }
            Some(b)
        } else {
            proof {
                assert(self.accepted() =~= old(self).accepted().push(p));
            }
            None
        }
    }

    /// Forcibly complete the current buffer, used on timeout and on
    /// shutdown. Flushing an empty buffer is a no-op: it returns nothing
    /// and changes nothing.
    pub fn flush(&mut self) -> (r: Option<Batch>)
        requires
            old(self).wf(),
        ensures
            final(self).wf(),
            final(self).limit == old(self).limit,
            final(self).compression == old(self).compression,
            r is Some <==> old(self).count > 0,
            r is None ==> *final(self) == *old(self),
            r matches Some(b) ==> b.wf() && b.key is None
                && b.compression == old(self).compression
                && b.items@ == old(self).items@
                && b.event_count == old(self).count
                && final(self).count == 0
                && final(self).items@ =~= Seq::<Seq<u8>>::empty()
                && final(self).taken@ == old(self).taken@ + old(self).items@,
            final(self).accepted() == old(self).accepted(),
    {
        if self.count == 0 {
            None
        } else {
            let b = self.take_batch();
            proof {
                assert(self.accepted() =~= old(self).accepted());
            }
            Some(b)
        }
    }
}

/// The concatenation is at least as long as any one of its items.
pub proof fn lemma_concat_len_lower(items: Seq<Seq<u8>>, i: int)
    requires
        0 <= i < items.len(),
    ensures
        concat_bytes(items).len() >= items[i].len(),
    decreases items.len(),
{
    if i > 0 {
        assert(items.drop_first()[i - 1] == items[i]);
        lemma_concat_len_lower(items.drop_first(), i - 1);
    }
}

/// Every batch with at least one non-empty item has a non-empty payload:
/// without compression the payload is the items themselves, and a gzip
/// stream always carries its header and trailer.
pub proof fn lemma_nonempty_batch(b: Batch)
    requires
        b.wf(),
        exists|i: int| 0 <= i < b.items@.len() && (#[trigger] b.items@[i]).len() > 0,
    ensures
        b.payload@.len() > 0,
{
    match b.compression {
        Compression::Uncompressed => {
            let i = choose|i: int|
                0 <= i < b.items@.len() && (#[trigger] b.items@[i]).len() > 0;
            lemma_concat_len_lower(b.items@, i);
        },
        Compression::Gzip => {},
    }
}

/// Concatenation distributes over appending item lists.
pub proof fn lemma_concat_append(a: Seq<Seq<u8>>, b: Seq<Seq<u8>>)
    ensures
        concat_bytes(a + b) == concat_bytes(a) + concat_bytes(b),
    decreases a.len(),
{
    if a.len() == 0 {
        assert(a + b =~= b);
        assert(concat_bytes(a) + concat_bytes(b) =~= concat_bytes(b));
    } else {
        assert((a + b)[0] == a[0]);
        assert((a + b).drop_first() =~= a.drop_first() + b);
        lemma_concat_append(a.drop_first(), b);
        assert(concat_bytes(a + b) =~= a[0] + (concat_bytes(a.drop_first()) + concat_bytes(
            b,
        )));
        assert(concat_bytes(a) + concat_bytes(b) =~= a[0] + (concat_bytes(a.drop_first())
            + concat_bytes(b)));
    }
}

/// The conservation law: in every reachable accumulator state, the bytes
/// of everything ever accepted are exactly the bytes already emitted in
/// completed batches followed by the bytes still buffered — no byte enters
/// without leaving exactly once, in a size-triggered or a flush-triggered
/// batch.
pub proof fn lemma_no_byte_lost(acc: Accumulator)
    requires
        acc.wf(),
    ensures
        concat_bytes(acc.accepted()) == concat_bytes(acc.taken@) + concat_bytes(acc.items@),
{
    lemma_concat_append(acc.taken@, acc.items@);
}

/// Invalid settings, surfaced at construction time and never during
/// steady-state operation.
#[derive(Clone, Copy, Debug, PartialEq, Eq)]
pub enum ConfigurationError {
    /// `max_bytes` and `max_events` are mutually exclusive sizing modes.
    ConflictingSizeBounds,
}

/// User-facing batching knobs; unset fields fall back to per-destination
/// defaults.
#[derive(Clone, Copy, Debug, Default, PartialEq, Eq)]
pub struct BatchConfig {
    pub max_bytes: Option<usize>,
    pub max_events: Option<usize>,
    pub timeout_secs: Option<u64>,
}

/// The resolved batching settings: one sizing mode, and the flush
/// deadline.
#[derive(Clone, Copy, Debug)]
pub struct BatchSettings {
    pub limit: SizeLimit,
    pub timeout_secs: u64,
}

impl BatchConfig {
    /// Resolve the configuration against a destination's defaults. Setting
    /// both size bounds is rejected; exactly then does this fail.
    pub fn settings(&self, default_bytes: usize, default_timeout_secs: u64) -> (r: Result<
        BatchSettings,
        ConfigurationError,
    >)
        ensures
            r is Err <==> self.max_bytes is Some && self.max_events is Some,
            r matches Ok(s) ==> s.limit == (match (self.max_bytes, self.max_events) {
                (Some(b), None) => SizeLimit::MaxBytes(b),
                (None, Some(e)) => SizeLimit::MaxEvents(e),
                _ => SizeLimit::MaxBytes(default_bytes),
            }) && s.timeout_secs == self.timeout_secs.unwrap_or(default_timeout_secs),
    {
        match (self.max_bytes, self.max_events) {
            (Some(_), Some(_)) => Err(ConfigurationError::ConflictingSizeBounds),
            (Some(b), None) => Ok(
                BatchSettings {
                    limit: SizeLimit::MaxBytes(b),
                    timeout_secs: self.timeout_secs.unwrap_or(default_timeout_secs),
                },
            ),
            (None, Some(e)) => Ok(
                BatchSettings {
                    limit: SizeLimit::MaxEvents(e),
                    timeout_secs: self.timeout_secs.unwrap_or(default_timeout_secs),
                },
            ),
            (None, None) => Ok(
                BatchSettings {
                    limit: SizeLimit::MaxBytes(default_bytes),
                    timeout_secs: self.timeout_secs.unwrap_or(default_timeout_secs),
                },
            ),
        }
    }
}

impl Compression {
    /// The object-name extension this compression calls for.
    pub fn extension(&self) -> (r: &'static str)
        ensures
            (self is Uncompressed ==> r@ == "log"@) && (self is Gzip ==> r@ == "log.gz"@),
    {
        match self {
            Compression::Uncompressed => "log",
            Compression::Gzip => "log.gz",
        }
    }

    /// The `Content-Encoding` value this compression calls for, if any.
    pub fn content_encoding(&self) -> (r: Option<&'static str>)
        ensures
            self is Uncompressed ==> r is None,
            self is Gzip ==> (r matches Some(s) && s@ == "gzip"@),
    {
        match self {
            Compression::Uncompressed => None,
            Compression::Gzip => Some("gzip"),
        }
    }
}

} // verus!
