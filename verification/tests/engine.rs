use std::io::Read;

use vector::batch::{Accumulator, BatchConfig, Compression, ConfigurationError, SizeLimit};
use vector::orchestrator::DeliveryOrchestrator;
use vector::resequencer::Resequencer;
use vector::router::{EncodedItem, PartitionRouter};
use vector::service::{
    AdmitDecision, FlowLimiter, RetryAction, RetryDecision, RetryPolicy,
};

fn gunzip(data: &[u8]) -> Vec<u8> {
    let mut out = Vec::new();
    flate2::read::GzDecoder::new(data).read_to_end(&mut out).unwrap();
    out
}

#[test]
fn resequencer_commits_in_order() {
    let mut r = Resequencer::new();
    assert_eq!(r.complete(2, 1), 0);
    assert_eq!(r.acked, 0);
    assert_eq!(r.complete(0, 1), 1);
    assert_eq!(r.acked, 1);
    assert_eq!(r.complete(1, 1), 2);
    assert_eq!(r.acked, 3);
    assert_eq!(r.tail, 3);
}

#[test]
fn resequencer_watermark_never_exceeds_contiguous_prefix() {
    let mut r = Resequencer::new();
    assert_eq!(r.complete(4, 7), 0);
    assert_eq!(r.complete(1, 3), 0);
    assert_eq!(r.complete(3, 5), 0);
    assert_eq!(r.acked, 0);
    assert_eq!(r.complete(0, 2), 5);
    assert_eq!(r.acked, 5);
    assert_eq!(r.complete(2, 11), 23);
    assert_eq!(r.acked, 28);
}

#[test]
fn flush_of_empty_accumulator_is_a_no_op() {
    let mut acc = Accumulator::new(SizeLimit::MaxEvents(10), Compression::Uncompressed);
    assert!(acc.flush().is_none());
    let mut gz = Accumulator::new(SizeLimit::MaxBytes(100), Compression::Gzip);
    assert!(gz.flush().is_none());
    let mut router = PartitionRouter::new(SizeLimit::MaxEvents(10), Compression::Uncompressed);
    assert!(router.tick(&Some("a".to_string())).is_none());
}

#[test]
fn accumulator_emits_every_byte_exactly_once() {
    let mut acc = Accumulator::new(SizeLimit::MaxBytes(8), Compression::Uncompressed);
    let mut emitted: Vec<u8> = Vec::new();
    for chunk in [b"abc".to_vec(), b"defgh".to_vec(), b"i".to_vec()] {
        if let Some(b) = acc.add(chunk) {
            emitted.extend_from_slice(&b.payload);
        }
    }
    if let Some(b) = acc.flush() {
        emitted.extend_from_slice(&b.payload);
    }
    assert_eq!(emitted, b"abcdefghi".to_vec());
}

#[test]
fn gzip_batches_decompress_to_their_inputs() {
    let mut acc = Accumulator::new(SizeLimit::MaxBytes(1_000_000), Compression::Gzip);
    for _ in 0..5 {
        assert!(acc.add(b"hello world ".to_vec()).is_none());
    }
    let b = acc.flush().unwrap();
    assert_eq!(b.event_count, 5);
    assert_eq!(gunzip(&b.payload), b"hello world hello world hello world hello world hello world ".to_vec());
}

#[test]
fn compressed_byte_accounting_delays_the_flush() {
    // 100 raw bytes per item, compressing far smaller: a 1000-byte bound
    // must not trigger at the tenth item (1000 raw bytes), only once the
    // compressed stream itself approaches the bound.
    let mut acc = Accumulator::new(SizeLimit::MaxBytes(1000), Compression::Gzip);
    let item = vec![b'x'; 100];
    let mut fired_at: Option<usize> = None;
    let mut inputs: Vec<u8> = Vec::new();
    for i in 1..=4000 {
        inputs.extend_from_slice(&item);
        if let Some(b) = acc.add(item.clone()) {
            assert_eq!(gunzip(&b.payload), inputs);
            fired_at = Some(i);
            break;
        }
    }
    let fired = fired_at.expect("the compressed stream should eventually reach the bound");
    assert!(fired > 10, "accounting must use compressed bytes, not raw bytes");
}

#[test]
fn partitions_fill_independently() {
    let mut router = PartitionRouter::new(SizeLimit::MaxEvents(10), Compression::Uncompressed);
    let mut batches = Vec::new();
    for key in ["1", "2", "3"] {
        for i in 0..10 {
            let payload = format!("{}-{}", key, i).into_bytes();
            let item = EncodedItem { payload, key: Some(key.to_string()) };
            if let Some(b) = router.route(item) {
                batches.push(b);
            }
        }
    }
    assert_eq!(batches.len(), 3);
    for (idx, key) in ["1", "2", "3"].iter().enumerate() {
        let b = &batches[idx];
        assert_eq!(b.key.as_deref(), Some(*key));
        assert_eq!(b.event_count, 10);
        let mut expected = Vec::new();
        for i in 0..10 {
            expected.extend_from_slice(format!("{}-{}", key, i).as_bytes());
        }
        assert_eq!(b.payload, expected);
    }
}

#[test]
fn slow_partition_does_not_delay_another_partitions_flush() {
    let mut router = PartitionRouter::new(SizeLimit::MaxEvents(100), Compression::Uncompressed);
    let a = Some("a".to_string());
    let b = Some("b".to_string());
    assert!(router.route(EncodedItem { payload: b"a1".to_vec(), key: a.clone() }).is_none());
    assert!(router.route(EncodedItem { payload: b"b1".to_vec(), key: b.clone() }).is_none());
    assert!(router.route(EncodedItem { payload: b"b2".to_vec(), key: b.clone() }).is_none());
    let flushed = router.tick(&b).expect("partition b must flush on its own deadline");
    assert_eq!(flushed.payload, b"b1b2".to_vec());
    assert_eq!(flushed.event_count, 2);
    let keep = router.tick(&a).expect("partition a is untouched");
    assert_eq!(keep.payload, b"a1".to_vec());
}

#[test]
fn retry_policy_retries_exactly_the_configured_number_of_times() {
    let mut p = RetryPolicy::new(5, 100, 1000);
    let mut retries = 0;
    loop {
        match p.decide(&RetryAction::Retry("boom".to_string())) {
            RetryDecision::RetryAfter(_) => retries += 1,
            RetryDecision::Abandon => break,
            RetryDecision::Done => unreachable!(),
        }
    }
    assert_eq!(retries, 5);
}

#[test]
fn dont_retry_is_never_retried() {
    let mut p = RetryPolicy::new(5, 100, 1000);
    let d = p.decide(&RetryAction::DontRetry("bad payload".to_string()));
    assert_eq!(d, RetryDecision::Abandon);
    assert_eq!(p.remaining, 5);
}

#[test]
fn backoff_doubles_up_to_the_cap() {
    let mut p = RetryPolicy::new(10, 100, 500);
    assert_eq!(p.on_failure(), RetryDecision::RetryAfter(100));
    assert_eq!(p.on_failure(), RetryDecision::RetryAfter(200));
    assert_eq!(p.on_failure(), RetryDecision::RetryAfter(400));
    assert_eq!(p.on_failure(), RetryDecision::RetryAfter(500));
    assert_eq!(p.on_failure(), RetryDecision::RetryAfter(500));
}

#[test]
fn limiter_enforces_concurrency_and_rate() {
    let mut l = FlowLimiter::new(2, 3, 1000, 0);
    assert_eq!(l.try_admit(0), AdmitDecision::Admit);
    assert_eq!(l.try_admit(0), AdmitDecision::Admit);
    assert_eq!(l.try_admit(0), AdmitDecision::Wait);
    l.release();
    assert_eq!(l.try_admit(1), AdmitDecision::Admit);
    l.release();
    assert_eq!(l.try_admit(2), AdmitDecision::Wait);
    l.release();
    assert_eq!(l.try_admit(1000), AdmitDecision::Admit);
}

#[test]
fn orchestrator_assigns_contiguous_sequence_numbers() {
    let mut o = DeliveryOrchestrator::new(SizeLimit::MaxEvents(2), Compression::Uncompressed);
    let mk = |k: &str, p: &str| EncodedItem {
        payload: p.as_bytes().to_vec(),
        key: Some(k.to_string()),
    };
    assert!(o.on_item(mk("a", "x1")).is_none());
    let s0 = o.on_item(mk("a", "x2")).unwrap();
    assert_eq!(s0.seq, 0);
    assert!(o.on_item(mk("b", "y1")).is_none());
    let s1 = o.on_item(mk("a", "x3x4")).map(|_| ());
    assert!(s1.is_none());
    let rest = o.on_shutdown();
    assert_eq!(rest.len(), 2);
    assert_eq!(rest[0].seq, 1);
    assert_eq!(rest[1].seq, 2);
    assert_eq!(o.on_completion(1, rest[0].batch.event_count as u64), 0);
    assert_eq!(o.on_completion(0, s0.batch.event_count as u64), 3);
    assert_eq!(o.on_completion(2, rest[1].batch.event_count as u64), 1);
}

#[test]
fn conflicting_size_bounds_are_rejected() {
    let both = BatchConfig {
        max_bytes: Some(1000),
        max_events: Some(10),
        timeout_secs: None,
    };
    assert_eq!(both.settings(500, 1).unwrap_err(), ConfigurationError::ConflictingSizeBounds);
    let bytes_only = BatchConfig { max_bytes: Some(1000), max_events: None, timeout_secs: Some(7) };
    let s = bytes_only.settings(500, 1).unwrap();
    assert!(matches!(s.limit, SizeLimit::MaxBytes(1000)));
    assert_eq!(s.timeout_secs, 7);
    let neither = BatchConfig::default();
    assert!(matches!(neither.settings(500, 1).unwrap().limit, SizeLimit::MaxBytes(500)));
}
