//! Trusted boundary to flate2's streaming gzip encoder.
//!
//! The accumulator feeds item payloads into a `GzEncoder` whose sink is a
//! `Vec<u8>`, reads how many compressed bytes have already reached the sink
//! (for size accounting), and finishes the stream when a batch completes.
//! Writing into or finishing a `Vec`-backed encoder performs no fallible
//! I/O, so none of these operations can fail.

use std::io::Write;
use vstd::prelude::*;

verus! {

/// An open gzip stream compressing into an in-memory sink. Verus refuses
/// the declaration of flate2's `GzEncoder` itself (its type parameter is
/// bound by an outside trait), so the encoder lives behind this opaque
/// struct and the wrappers below.
#[verifier::external_body]
pub struct GzStream {
    inner: flate2::write::GzEncoder<Vec<u8>>,
}

/// The raw (uncompressed) bytes fed into a gzip stream so far.
pub uninterp spec fn gz_raw(e: GzStream) -> Seq<u8>;

/// The bytes that decoding a finished gzip stream (flate2's `GzDecoder`)
/// gives back.
pub uninterp spec fn gunzip_of(compressed: Seq<u8>) -> Seq<u8>;

/// Relies on flate2's `GzEncoder::new`: a fresh gzip stream into an empty
/// `Vec` sink, with no input written yet.
#[verifier::external_body]
pub(crate) fn gz_new() -> (e: GzStream)
    ensures
        gz_raw(e) == Seq::<u8>::empty(),
{
    GzStream { inner: flate2::write::GzEncoder::new(Vec::new(), flate2::Compression::default()) }
}

/// Relies on the `Write::write_all` impl of flate2's `GzEncoder`: appends
/// the bytes to the stream's input. A `Vec`-backed encoder accepts every
/// write, so the call cannot fail or panic.
#[verifier::external_body]
pub(crate) fn gz_write_all(e: &mut GzStream, d: &[u8])
    ensures
        gz_raw(*final(e)) == gz_raw(*old(e)) + d@,
{
    e.inner.write_all(d).unwrap();
}

/// Relies on the `Write::flush` impl of flate2's `GzEncoder`: pushes the
/// compressed form of all input accepted so far out to the `Vec` sink,
/// without changing the stream's input. Cannot fail for a `Vec` sink.
#[verifier::external_body]
pub(crate) fn gz_flush(e: &mut GzStream)
    ensures
        gz_raw(*final(e)) == gz_raw(*old(e)),
{
    e.inner.flush().unwrap();
}

/// Relies on flate2's `GzEncoder::get_ref`: how many compressed bytes have
/// reached the `Vec` sink so far. How much of the stream the encoder has
/// already pushed out is its own business, so nothing is promised of the
/// value.
#[verifier::external_body]
pub(crate) fn gz_out_len(e: &GzStream) -> usize {
    e.inner.get_ref().len()
}

/// Relies on flate2's `GzEncoder::finish`: completes the gzip stream and
/// hands back the sink. Decoding the result with flate2's `GzDecoder`
/// yields exactly the bytes that were written, which `gunzip_of` names; a
/// gzip stream always carries a header and trailer, so the result is never
/// empty. Cannot fail for a `Vec` sink.
#[verifier::external_body]
pub(crate) fn gz_finish(e: GzStream) -> (out: Vec<u8>)
    ensures
        gunzip_of(out@) == gz_raw(e),
        out@.len() > 0,
{
    e.inner.finish().unwrap()
}

} // verus!
