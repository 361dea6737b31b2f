//! Delivery engine for an observability pipeline: batching, partitioning,
//! retry and in-order acknowledgment of out-of-order completions, together
//! with the protocol parsers and configuration types of the integrations
//! built on top of it.

pub mod batch;
pub mod clickhouse;
pub mod events;
pub mod gzip;
pub mod honeycomb;
pub mod lua;
pub mod orchestrator;
pub mod pulsar;
pub mod resequencer;
pub mod router;
pub mod s3;
pub mod service;
pub mod statsd;
pub mod syslog;
pub mod tcp;
pub mod unix;
