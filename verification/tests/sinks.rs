use vector::batch::Compression;
use vector::clickhouse::{encode_uri, ClickhouseRetryLogic};
use vector::honeycomb::HoneycombConfig;
use vector::lua::{default_config_paths, DataType, HooksConfig, LuaConfig};
use vector::pulsar::{AuthConfig, PulsarSinkConfig};
use vector::s3::{build_request, healthcheck_outcome, HealthcheckError, S3Options, S3RetryLogic, TransmitError};
use vector::service::{DeliveryError, RetryAction};
use vector::syslog::{default_max_length, Mode, SyslogConfig};
use vector::tcp::{parse_systemd_fd, SocketListenAddr};
use vector::unix::UnixConfig;

#[test]
fn encode_valid() {
    let uri = encode_uri("http://localhost:80", "my_database", "my_table").unwrap();
    assert_eq!(uri, "http://localhost:80/?query=INSERT+INTO+%22my_database%22.%22my_table%22+FORMAT+JSONEachRow");

    let uri = encode_uri("http://localhost:80", "my_database", "my_\"table\"").unwrap();
    assert_eq!(uri, "http://localhost:80/?query=INSERT+INTO+%22my_database%22.%22my_%5C%22table%5C%22%22+FORMAT+JSONEachRow");
}

#[test]
fn encode_invalid() {
    encode_uri("localhost:80", "my_database", "my_table").unwrap_err();
}

#[test]
fn clickhouse_never_retries_unfixable_data() {
    let logic = ClickhouseRetryLogic {};
    assert!(matches!(
        logic.should_retry_response(500, b"Code: 117, bad row"),
        RetryAction::DontRetry(_)
    ));
    assert!(matches!(
        logic.should_retry_response(500, b"Code: 53, type mismatch"),
        RetryAction::DontRetry(_)
    ));
    assert!(matches!(
        logic.should_retry_response(500, b"some transient failure"),
        RetryAction::Retry(_)
    ));
    assert!(matches!(logic.should_retry_response(503, b""), RetryAction::Retry(_)));
    assert!(matches!(logic.should_retry_response(429, b""), RetryAction::Retry(_)));
    assert!(matches!(logic.should_retry_response(501, b""), RetryAction::DontRetry(_)));
    assert!(matches!(logic.should_retry_response(200, b""), RetryAction::Proceed));
    assert!(!logic.is_retriable_error(&DeliveryError::PermanentRejection));
    assert!(logic.is_retriable_error(&DeliveryError::Transport));
}

#[test]
fn s3_build_request() {
    let req = build_request(
        vec![0u8; 10],
        "key/".to_string(),
        "date",
        Some("ext".to_string()),
        false,
        Compression::Uncompressed,
        "bucket".to_string(),
        S3Options::default(),
    );
    assert_eq!(req.key, "key/date.ext".to_string());

    let req = build_request(
        vec![0u8; 10],
        "key/".to_string(),
        "date",
        None,
        false,
        Compression::Uncompressed,
        "bucket".to_string(),
        S3Options::default(),
    );
    assert_eq!(req.key, "key/date.log".to_string());

    let req = build_request(
        vec![0u8; 10],
        "key/".to_string(),
        "date",
        None,
        false,
        Compression::Gzip,
        "bucket".to_string(),
        S3Options::default(),
    );
    assert_eq!(req.key, "key/date.log.gz".to_string());
    assert_eq!(req.content_encoding.as_deref(), Some("gzip"));

    let req = build_request(
        vec![0u8; 10],
        "key/".to_string(),
        "date",
        None,
        true,
        Compression::Gzip,
        "bucket".to_string(),
        S3Options::default(),
    );
    assert_ne!(req.key, "key/date.log.gz".to_string());
}

#[test]
fn s3_retry_classification() {
    let logic = S3RetryLogic {};
    assert!(logic.is_retriable_error(&TransmitError::HttpDispatch));
    assert!(logic.is_retriable_error(&TransmitError::Unknown { status: 503 }));
    assert!(!logic.is_retriable_error(&TransmitError::Unknown { status: 403 }));
    assert!(!logic.is_retriable_error(&TransmitError::Other));
}

#[test]
fn honeycomb_uri_includes_the_dataset() {
    let cfg = HoneycombConfig {
        api_key: "KEY".to_string(),
        dataset: "prod".to_string(),
        batch: Default::default(),
        request: Default::default(),
    };
    assert_eq!(cfg.build_uri(), "https://api.honeycomb.io/1/batch/prod");
}

#[test]
fn pulsar_config_holds_its_fields() {
    let cfg = PulsarSinkConfig::new(
        "pulsar://127.0.0.1:6650".to_string(),
        "topic".to_string(),
        vector::pulsar::Encoding::Text,
        Some(AuthConfig { name: "token".to_string(), token: "SECRET-REDACTED".to_string() }),
    );
    assert_eq!(cfg.address, "pulsar://127.0.0.1:6650");
    assert_eq!(cfg.topic, "topic");
}

#[test]
fn syslog_config_defaults() {
    let cfg = SyslogConfig::new(Mode::Udp { address: "127.0.0.1:514".to_string() });
    assert_eq!(cfg.max_length, default_max_length());
    assert!(cfg.host_key.is_none());
    assert!(matches!(cfg.mode, Mode::Udp { .. }));
}

#[test]
fn unix_config_defaults() {
    let cfg = UnixConfig::new("/var/run/sock".to_string());
    assert_eq!(cfg.path, "/var/run/sock");
    assert_eq!(cfg.max_length, 102400);
    assert!(cfg.host_key.is_none());
}

#[test]
fn systemd_addresses_parse() {
    assert_eq!(parse_systemd_fd("systemd"), Some(0));
    assert_eq!(parse_systemd_fd("systemd#3"), Some(2));
    assert_eq!(parse_systemd_fd("bogus"), None);
    assert_eq!(parse_systemd_fd("systemd#0"), None);
    assert_eq!(
        SocketListenAddr::SystemdFd(2),
        SocketListenAddr::SystemdFd(parse_systemd_fd("systemd#3").unwrap())
    );
}

#[test]
fn lua_config_surface() {
    let cfg = LuaConfig {
        search_dirs: vec![],
        hooks: HooksConfig { init: None, process: "function (e, emit) emit(e) end".to_string(), shutdown: None },
        timers: vec![],
        source: None,
    };
    assert_eq!(cfg.input_type(), DataType::Any);
    assert_eq!(cfg.output_type(), DataType::Any);
    assert_eq!(cfg.transform_type(), "lua");
    let parents = default_config_paths(&vec!["/etc/app/config.toml".to_string(), "plain".to_string()]);
    assert_eq!(parents, vec!["/etc/app".to_string(), "".to_string()]);
}

#[test]
fn resolve_year_rolls_back_in_january() {
    assert_eq!(vector::syslog::resolve_year(12, 2020, 1), 2019);
    assert_eq!(vector::syslog::resolve_year(2, 2020, 2), 2020);
    let received = vector::events::ElasticSearchEventReceived::new(42, "idx".to_string());
    assert_eq!(received.byte_size, 42);
}

#[test]
fn healthcheck_classification() {
    assert_eq!(
        healthcheck_outcome(&TransmitError::Unknown { status: 403 }, "b"),
        HealthcheckError::InvalidCredentials
    );
    assert_eq!(
        healthcheck_outcome(&TransmitError::Unknown { status: 404 }, "missing-bucket"),
        HealthcheckError::UnknownBucket { bucket: "missing-bucket".to_string() }
    );
    assert_eq!(
        healthcheck_outcome(&TransmitError::Unknown { status: 500 }, "b"),
        HealthcheckError::UnknownStatus(500)
    );
    assert_eq!(
        healthcheck_outcome(&TransmitError::HttpDispatch, "b"),
        HealthcheckError::Transport
    );
    assert!(vector::clickhouse::healthcheck_ok(200));
    assert!(!vector::clickhouse::healthcheck_ok(500));
    assert!(vector::honeycomb::healthcheck_ok(400));
    assert!(!vector::honeycomb::healthcheck_ok(200));
}

#[test]
fn clickhouse_retry_reasons_are_exact() {
    let logic = ClickhouseRetryLogic {};
    assert_eq!(
        logic.should_retry_response(500, b"Code: 117, bad row"),
        RetryAction::DontRetry("incorrect data".to_string())
    );
    assert_eq!(
        logic.should_retry_response(500, b"Code: 53, mismatch"),
        RetryAction::DontRetry("type mismatch".to_string())
    );
    assert_eq!(
        logic.should_retry_response(500, b"transient"),
        RetryAction::Retry("transient".to_string())
    );
    assert_eq!(
        logic.should_retry_response(503, b"busy"),
        RetryAction::Retry("busy".to_string())
    );
}

#[test]
fn destination_defaults() {
    let r = vector::s3::default_request_config();
    assert_eq!(r.in_flight_limit, Some(50));
    assert_eq!(r.rate_limit_num, Some(250));
    let b = vector::s3::default_batch_settings();
    assert!(matches!(b.limit, vector::batch::SizeLimit::MaxBytes(10_000_000)));
    assert_eq!(b.timeout_secs, 300);
    assert_eq!(vector::s3::default_key_prefix(), "date=%F/");
    assert_eq!(vector::s3::default_filename_time_format(), "%s");
    assert!(vector::s3::default_filename_append_uuid());
    let c = vector::clickhouse::default_batch_settings();
    assert!(matches!(c.limit, vector::batch::SizeLimit::MaxBytes(10485760)));
    assert_eq!(c.timeout_secs, 1);
    let h = vector::honeycomb::default_batch_settings();
    assert!(matches!(h.limit, vector::batch::SizeLimit::MaxBytes(102400)));
    assert_eq!(h.timeout_secs, 1);
}

#[test]
fn clickhouse_health_probe_uri() {
    assert_eq!(
        vector::clickhouse::healthcheck_uri("http://localhost:8123"),
        "http://localhost:8123/?query=SELECT%201"
    );
}
