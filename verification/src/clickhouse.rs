//! The analytics-database writer's configuration, request URI building,
//! and its retry classification: a server-error status is normally
//! retriable, but a body that reports unfixable input is not, whatever the
//! status says.

use crate::batch::BatchConfig;
use crate::service::{DeliveryError, RequestConfig, RetryAction};
use vstd::prelude::*;

verus! {

/// The query string that `url`'s form encoder produces for one key-value
/// pair.
pub uninterp spec fn urlencoded_pair(k: Seq<char>, v: Seq<char>) -> Seq<char>;

/// Relies on `url::form_urlencoded::Serializer::append_pair` and
/// `finish`: the form-urlencoded rendering of one key-value pair, a
/// function of the two strings alone.
#[verifier::external_body]
fn urlencode_pair(k: &str, v: &str) -> (r: String)
    ensures
        r@ == urlencoded_pair(k@, v@),
{
    url::form_urlencoded::Serializer::new(String::new()).append_pair(k, v).finish()
}

/// Whether `http`'s `Uri` parser accepts the string.
pub uninterp spec fn uri_parse_ok(s: Seq<char>) -> bool;

/// Relies on `str::parse::<http::Uri>`: whether the string is a URI that
/// the `http` crate accepts.
#[verifier::external_body]
fn uri_ok(s: &str) -> (r: bool)
    ensures
        r == uri_parse_ok(s@),
{
    s.parse::<http::Uri>().is_ok()
}

#[derive(Clone, Debug, Default)]
pub struct ClickhouseConfig {
    pub host: String,
    pub table: String,
    pub database: Option<String>,
    pub compression: Option<crate::batch::Compression>,
    pub encoding: Encoding,
    pub batch: BatchConfig,
    pub auth: Option<(String, String)>,
    pub request: RequestConfig,
}

#[derive(Clone, Copy, Debug, PartialEq, Eq, Default)]
pub enum Encoding {
    #[default]
    Default,
}

/// The URI could not be assembled from the host, database and table.
#[derive(Clone, Copy, Debug, PartialEq, Eq)]
pub enum UriError {
    InvalidUri,
}

/// The table name with every double quote backslash-escaped.
pub open spec fn spec_escape_quotes(s: Seq<char>) -> Seq<char>
    decreases s.len(),
{
    if s.len() == 0 {
        Seq::empty()
    } else if s[0] == '"' {
        seq!['\\', '"'] + spec_escape_quotes(s.drop_first())
    } else {
        seq![s[0]] + spec_escape_quotes(s.drop_first())
    }
}

fn escape_quotes(s: &str) -> (r: String)
    ensures
        r@ == spec_escape_quotes(s@),
    decreases s@.len(),
{
    let n = s.unicode_len();
    if n == 0 {
        return String::new();
    }
    let c = s.get_char(0);
    let rest = escape_quotes(s.substring_char(1, n));
    proof {
        assert(s@.subrange(1, n as int) =~= s@.drop_first());
    }
    let mut out = String::new();
    if c == '"' {
        crate::statsd::push_char(&mut out, '\\');
        crate::statsd::push_char(&mut out, '"');
        out.append(rest.as_str());
        proof {
            assert(out@ =~= seq!['\\', '"'] + spec_escape_quotes(s@.drop_first()));
        }
    } else {
        crate::statsd::push_char(&mut out, c);
        out.append(rest.as_str());
        proof {
            assert(out@ =~= seq![s@[0]] + spec_escape_quotes(s@.drop_first()));
        }
    }
    out
}

/// The SQL statement the insert URI carries.
pub open spec fn spec_insert_sql(database: Seq<char>, table: Seq<char>) -> Seq<char> {
    "INSERT INTO \""@ + database + "\".\""@ + spec_escape_quotes(table)
        + "\" FORMAT JSONEachRow"@
}

/// The full insert URI before validation.
pub open spec fn spec_insert_uri(host: Seq<char>, database: Seq<char>, table: Seq<char>)
    -> Seq<char> {
    let q = urlencoded_pair("query"@, spec_insert_sql(database, table));
    if host.len() > 0 && host[host.len() - 1] == '/' {
        host + "?"@ + q
    } else {
        host + "/?"@ + q
    }
}

/// Build the insert URI for one host, database and table. Succeeds
/// exactly when the assembled string is a URI the `http` crate accepts.
pub fn encode_uri(host: &str, database: &str, table: &str) -> (r: Result<String, UriError>)
    ensures
        r matches Ok(u) ==> u@ == spec_insert_uri(host@, database@, table@) && uri_parse_ok(
            u@,
        ),
        r is Err <==> !uri_parse_ok(spec_insert_uri(host@, database@, table@)),
{
    let mut sql = String::new();
    sql.append("INSERT INTO \"");
    sql.append(database);
    sql.append("\".\"");
    let esc = escape_quotes(table);
    sql.append(esc.as_str());
    sql.append("\" FORMAT JSONEachRow");
    let query = urlencode_pair("query", sql.as_str());
    let hn = host.unicode_len();
    let mut url = String::new();
    url.append(host);
    if hn > 0 && host.get_char(hn - 1) == '/' {
        url.append("?");
    } else {
        url.append("/?");
    }
    url.append(query.as_str());
    proof {
        assert(sql@ =~= spec_insert_sql(database@, table@));
        assert(url@ =~= spec_insert_uri(host@, database@, table@));
    }
    if uri_ok(url.as_str()) {
        Ok(url)
    } else {
        Err(UriError::InvalidUri)
    }
}

/// The health probe's request target: the host with a fixed select-one
/// query appended.
pub fn healthcheck_uri(host: &str) -> (r: String)
    ensures
        r@ == host@ + "/?query=SELECT%201"@,
{
    let mut u = String::new();
    u.append(host);
    u.append("/?query=SELECT%201");
    u
}

/// Whether the health probe's answer counts as healthy: only a plain OK
/// does.
pub fn healthcheck_ok(status: u16) -> (r: bool)
    ensures
        r <==> status == 200,
{
    status == 200
}

/// The destination's default batching: ten mebibytes of request body, a
/// one second flush deadline.
pub fn default_batch_settings() -> (r: crate::batch::BatchSettings)
    ensures
        r.limit == crate::batch::SizeLimit::MaxBytes(10485760),
        r.timeout_secs == 1,
{
    crate::batch::BatchSettings {
        limit: crate::batch::SizeLimit::MaxBytes(10485760),
        timeout_secs: 1,
    }
}

/// The text that `String::from_utf8_lossy` reads out of a byte string.
pub uninterp spec fn utf8_lossy_of(b: Seq<u8>) -> Seq<char>;

/// Relies on `String::from_utf8_lossy` of std: the text of the bytes,
/// invalid sequences replaced; a function of the bytes alone.
#[verifier::external_body]
fn lossy_string(b: &[u8]) -> (r: String)
    ensures
        r@ == utf8_lossy_of(b@),
{
    String::from_utf8_lossy(b).into_owned()
}

/// Whether the body starts with the given ASCII prefix.
pub open spec fn has_prefix(b: Seq<u8>, p: Seq<u8>) -> bool {
    b.len() >= p.len() && b.take(p.len() as int) == p
}

/// The destination's error code for unparseable rows.
pub open spec fn code_incorrect_data() -> Seq<u8> {
    seq![67u8, 111u8, 100u8, 101u8, 58u8, 32u8, 49u8, 49u8, 55u8]
}

/// The destination's error code for schema mismatches.
pub open spec fn code_type_mismatch() -> Seq<u8> {
    seq![67u8, 111u8, 100u8, 101u8, 58u8, 32u8, 53u8, 51u8]
}

fn starts_code_117(b: &[u8]) -> (r: bool)
    ensures
        r == has_prefix(b@, code_incorrect_data()),
{
    let r = b.len() >= 9 && b[0] == 67 && b[1] == 111 && b[2] == 100 && b[3] == 101 && b[4]
        == 58 && b[5] == 32 && b[6] == 49 && b[7] == 49 && b[8] == 55;
    proof {
        if b@.len() >= 9 {
            assert(b@.take(9) =~= code_incorrect_data() <==> (b@[0] == 67 && b@[1] == 111
                && b@[2] == 100 && b@[3] == 101 && b@[4] == 58 && b@[5] == 32 && b@[6] == 49
                && b@[7] == 49 && b@[8] == 55));
        }
    }
    r
}

fn starts_code_53(b: &[u8]) -> (r: bool)
    ensures
        r == has_prefix(b@, code_type_mismatch()),
{
    let r = b.len() >= 8 && b[0] == 67 && b[1] == 111 && b[2] == 100 && b[3] == 101 && b[4]
        == 58 && b[5] == 32 && b[6] == 53 && b[7] == 51;
    proof {
        if b@.len() >= 8 {
            assert(b@.take(8) =~= code_type_mismatch() <==> (b@[0] == 67 && b@[1] == 111
                && b@[2] == 100 && b@[3] == 101 && b@[4] == 58 && b@[5] == 32 && b@[6] == 53
                && b@[7] == 51));
        }
    }
    r
}

/// Per-destination retry classification for the analytics database.
#[derive(Clone, Copy, Debug)]
pub struct ClickhouseRetryLogic {
}

impl ClickhouseRetryLogic {
    /// Transport-level failures are always retriable; a permanent
    /// rejection never is.
    pub fn is_retriable_error(&self, error: &DeliveryError) -> (r: bool)
        ensures
            r == !(error is PermanentRejection),
    {
        match error {
            DeliveryError::Transport => true,
            DeliveryError::RetriableServer => true,
            DeliveryError::PermanentRejection => false,
        }
    }

    /// Classify a response. The destination reports unparseable rows and
    /// schema mismatches under a server-error status; retrying those would
    /// loop forever on unfixable input, so they are refused outright,
    /// while every other server error and an over-capacity status stay
    /// retriable.
    pub fn should_retry_response(&self, status: u16, body: &[u8]) -> (r: RetryAction)
        ensures
            status == 500 && has_prefix(body@, code_incorrect_data()) ==> (r matches
            RetryAction::DontRetry(s) && s@ == "incorrect data"@),
            status == 500 && !has_prefix(body@, code_incorrect_data()) && has_prefix(
                body@,
                code_type_mismatch(),
            ) ==> (r matches RetryAction::DontRetry(s) && s@ == "type mismatch"@),
            status == 500 && !has_prefix(body@, code_incorrect_data()) && !has_prefix(
                body@,
                code_type_mismatch(),
            ) ==> (r matches RetryAction::Retry(s) && s@ == utf8_lossy_of(body@)),
            status == 429 ==> (r matches RetryAction::Retry(s) && s@ == "too many requests"@),
            status == 501 ==> (r matches RetryAction::DontRetry(s) && s@
                == "not implemented"@),
            status != 500 && status != 501 && 500 <= status < 600 ==> (r matches
            RetryAction::Retry(s) && s@ == utf8_lossy_of(body@)),
            !(status == 429 || 500 <= status < 600) ==> r is Proceed,
    {
        if status == 500 {
            if starts_code_117(body) {
                let mut reason = String::new();
                reason.append("incorrect data");
                RetryAction::DontRetry(reason)
            } else if starts_code_53(body) {
                let mut reason = String::new();
                reason.append("type mismatch");
                RetryAction::DontRetry(reason)
            } else {
                RetryAction::Retry(lossy_string(body))
            }
        } else if status == 429 {
            let mut reason = String::new();
            reason.append("too many requests");
            RetryAction::Retry(reason)
        } else if status == 501 {
            let mut reason = String::new();
            reason.append("not implemented");
            RetryAction::DontRetry(reason)
        } else if status >= 500 && status < 600 {
            RetryAction::Retry(lossy_string(body))
        } else {
            RetryAction::Proceed
        }
    }
}

} // verus!
