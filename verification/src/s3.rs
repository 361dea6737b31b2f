//! The object-storage uploader's configuration, object-request assembly,
//! and its retry classification.

use crate::batch::{BatchConfig, Compression};
use crate::service::RequestConfig;
use std::fmt::Write;
use vstd::prelude::*;

verus! {

/// Relies on chrono's `Utc::now` and `DateTime::format`: the current time
/// rendered with the given format string. The value depends on the clock,
/// so nothing is promised of it; an invalid format specifier yields a
/// truncated value rather than a panic.
#[verifier::external_body]
fn now_formatted(fmt: &str) -> String {
    let mut s = String::new();
    let _ = write!(s, "{}", chrono::Utc::now().format(fmt));
    s
}

/// Relies on uuid's `Uuid::new_v4` and its hyphenated form: a random
/// 36-character identifier. The value is random, so only its length is
/// promised, which the format documents.
#[verifier::external_body]
fn new_uuid_hyphenated() -> (r: String)
    ensures
        r@.len() == 36,
{
    uuid::Uuid::new_v4().hyphenated().to_string()
}

/// The uploader's default delivery knobs: fifty uploads in flight, two
/// hundred and fifty admissions per window, everything else left to the
/// service's own defaults.
pub fn default_request_config() -> (r: RequestConfig)
    ensures
        r.in_flight_limit == Some(50u64),
        r.rate_limit_num == Some(250u64),
        r.rate_limit_window_ms is None,
        r.retry_attempts is None,
        r.retry_initial_backoff_ms is None,
        r.retry_max_backoff_ms is None,
{
    RequestConfig {
        in_flight_limit: Some(50),
        rate_limit_num: Some(250),
        rate_limit_window_ms: None,
        retry_attempts: None,
        retry_initial_backoff_ms: None,
        retry_max_backoff_ms: None,
    }
}

/// The uploader's default batching: ten megabytes of object body, a five
/// minute flush deadline.
pub fn default_batch_settings() -> (r: crate::batch::BatchSettings)
    ensures
        r.limit == crate::batch::SizeLimit::MaxBytes(10_000_000),
        r.timeout_secs == 300,
{
    crate::batch::BatchSettings {
        limit: crate::batch::SizeLimit::MaxBytes(10_000_000),
        timeout_secs: 300,
    }
}

/// The default object-key prefix: one directory per day.
pub fn default_key_prefix() -> (r: &'static str)
    ensures
        r@ == "date=%F/"@,
{
    "date=%F/"
}

/// The default filename: seconds since the epoch.
pub fn default_filename_time_format() -> (r: &'static str)
    ensures
        r@ == "%s"@,
{
    "%s"
}

/// By default a random identifier is appended so concurrent uploads never
/// collide on a key.
pub fn default_filename_append_uuid() -> (r: bool)
    ensures
        r == true,
{
    true
}

/// Optional per-object storage options, carried through to the request.
#[derive(Clone, Debug, Default)]
pub struct S3Options {
    pub acl: Option<String>,
    pub grant_full_control: Option<String>,
    pub grant_read: Option<String>,
    pub grant_read_acp: Option<String>,
    pub grant_write_acp: Option<String>,
    pub server_side_encryption: Option<String>,
    pub ssekms_key_id: Option<String>,
    pub storage_class: Option<String>,
    pub tags: Option<Vec<(String, String)>>,
    pub content_encoding: Option<String>,
    pub content_type: Option<String>,
}

#[derive(Clone, Debug)]
pub struct S3SinkConfig {
    pub bucket: String,
    pub key_prefix: Option<String>,
    pub filename_time_format: Option<String>,
    pub filename_append_uuid: Option<bool>,
    pub filename_extension: Option<String>,
    pub options: S3Options,
    pub region: String,
    pub encoding: Encoding,
    pub compression: Compression,
    pub batch: BatchConfig,
    pub request: RequestConfig,
    pub assume_role: Option<String>,
}

#[derive(Clone, Copy, Debug, PartialEq, Eq)]
pub enum Encoding {
    Text,
    Ndjson,
}

/// One object upload, fully assembled but for the transmission itself.
#[derive(Clone, Debug)]
pub struct Request {
    pub body: Vec<u8>,
    pub bucket: String,
    pub key: String,
    pub content_encoding: Option<String>,
    pub options: S3Options,
}

/// The transmit-level failures of the object store, as its client
/// surfaces them.
#[derive(Clone, Copy, Debug, PartialEq, Eq)]
pub enum TransmitError {
    /// The request never reached the service.
    HttpDispatch,
    /// The service answered outside the modelled error set.
    Unknown { status: u16 },
    /// Anything else: credentials, validation, response parsing.
    Other,
}

/// Per-destination retry classification for the object store.
#[derive(Clone, Copy, Debug)]
pub struct S3RetryLogic {
}

impl S3RetryLogic {
    /// Dispatch failures and server-error answers are worth retrying;
    /// everything else is not.
    pub fn is_retriable_error(&self, error: &TransmitError) -> (r: bool)
        ensures
            r <==> (error is HttpDispatch || (error matches TransmitError::Unknown { status }
                && 500 <= *status < 600)),
    {
        match error {
            TransmitError::HttpDispatch => true,
            TransmitError::Unknown { status } => 500 <= *status && *status < 600,
            TransmitError::Other => false,
        }
    }
}

/// The extension the configuration chooses: its own, or the
/// compression's.
pub open spec fn chosen_extension(extension: Option<String>, compression: Compression)
    -> Seq<char> {
    match extension {
        Some(e) => e@,
        None => match compression {
            Compression::Uncompressed => "log"@,
            Compression::Gzip => "log.gz"@,
        },
    }
}

/// Why a bucket probe failed.
#[derive(Clone, Debug, PartialEq, Eq)]
pub enum HealthcheckError {
    InvalidCredentials,
    UnknownBucket { bucket: String },
    UnknownStatus(u16),
    Transport,
}

/// Classify a failed bucket probe: a forbidden answer means bad
/// credentials, a missing answer means the named bucket does not exist,
/// any other answered status is surfaced as it is, and everything else is
/// a transport-level failure.
pub fn healthcheck_outcome(error: &TransmitError, bucket: &str) -> (r: HealthcheckError)
    ensures
        (match *error {
            TransmitError::Unknown { status } => if status == 403 {
                r == HealthcheckError::InvalidCredentials
            } else if status == 404 {
                r matches HealthcheckError::UnknownBucket { bucket: b } && b@ == bucket@
            } else {
                r == HealthcheckError::UnknownStatus(status)
            },
            _ => r == HealthcheckError::Transport,
        }),
{
    match error {
        TransmitError::Unknown { status } => {
            if *status == 403 {
                HealthcheckError::InvalidCredentials
            } else if *status == 404 {
                HealthcheckError::UnknownBucket { bucket: bucket.to_owned() }
            } else {
                HealthcheckError::UnknownStatus(*status)
            }
        },
        _ => HealthcheckError::Transport,
    }
}

/// The object key composed from its parts.
pub open spec fn spec_object_key(
    prefix: Seq<char>,
    filename: Seq<char>,
    extension: Seq<char>,
) -> Seq<char> {
    prefix + filename + "."@ + extension
}

/// Assemble the upload request for one completed partition buffer: the
/// object key is the partition's key prefix, a timestamp-derived filename
/// (with a random identifier appended when asked for), and the extension
/// chosen by the configuration or the compression. The body and bucket
/// pass through unchanged.
pub fn build_request(
    body: Vec<u8>,
    key_prefix: String,
    time_format: &str,
    extension: Option<String>,
    append_uuid: bool,
    compression: Compression,
    bucket: String,
    options: S3Options,
) -> (r: Request)
    ensures
        r.body@ == body@,
        r.bucket@ == bucket@,
        (match options.content_encoding {
            Some(ce) => r.content_encoding matches Some(x) && x@ == ce@,
            None => match compression {
                Compression::Gzip => r.content_encoding matches Some(x) && x@ == "gzip"@,
                Compression::Uncompressed => r.content_encoding is None,
            },
        }),
        exists|f: Seq<char>|
            r.key@ == #[trigger] spec_object_key(
                key_prefix@,
                f,
                chosen_extension(extension, compression),
            ),
        append_uuid ==> exists|t: Seq<char>, u: Seq<char>|
            u.len() == 36 && r.key@ == #[trigger] spec_object_key(
                key_prefix@,
                t + "-"@ + u,
                chosen_extension(extension, compression),
            ),
{
    let ghost ext0 = extension;
    let ghost mut uuid_t: Seq<char> = Seq::empty();
    let ghost mut uuid_u: Seq<char> = Seq::empty();
    let filename = {
        let seconds = now_formatted(time_format);
        if append_uuid {
            let id = new_uuid_hyphenated();
            proof {
                uuid_t = seconds@;
                uuid_u = id@;
            }
            let mut f = seconds;
            f.append("-");
            f.append(id.as_str());
            f
        } else {
            seconds
        }
    };
    let ext: String = match extension {
        Some(e) => e,
        None => {
            let mut e = String::new();
            e.append(compression.extension());
            e
        },
    };
    let content_encoding: Option<String> = match options.content_encoding {
        Some(ref ce) => Some(clone_str(ce)),
        None => match compression.content_encoding() {
            Some(ce) => {
                let mut s = String::new();
                s.append(ce);
                Some(s)
            },
            None => None,
        },
    };
    let mut key = key_prefix;
    key.append(filename.as_str());
    key.append(".");
    key.append(ext.as_str());
    proof {
        assert(ext@ == chosen_extension(ext0, compression));
        assert(key@ =~= spec_object_key(
            key_prefix@,
            filename@,
            chosen_extension(ext0, compression),
        ));
        if append_uuid {
            assert(uuid_u.len() == 36);
            assert(filename@ =~= uuid_t + "-"@ + uuid_u);
            assert(key@ == spec_object_key(
                key_prefix@,
                uuid_t + "-"@ + uuid_u,
                chosen_extension(ext0, compression),
            ));
        }
        assert(exists|f: Seq<char>|
            key@ == #[trigger] spec_object_key(
                key_prefix@,
                f,
                chosen_extension(ext0, compression),
            ));
    }
    Request { body, bucket, key, content_encoding, options }
}

fn clone_str(s: &String) -> (r: String)
    ensures
        r@ == s@,
{
    s.clone()
}

} // verus!
