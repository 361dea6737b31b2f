use vector::statsd::{
    parse, sanitize_key, sanitize_sampling, Metric, MetricKind, MetricValue, Number, ParseError,
};

#[test]
fn basic_counter() {
    assert_eq!(
        parse("foo:1|c"),
        Ok(Metric {
            name: "foo".to_string(),
            timestamp: None,
            tags: None,
            kind: MetricKind::Incremental,
            value: MetricValue::Counter { value: Number::integer(1) },
        }),
    );
}

#[test]
fn tagged_counter() {
    assert_eq!(
        parse("foo:1|c|#tag1,tag2:value"),
        Ok(Metric {
            name: "foo".to_string(),
            timestamp: None,
            tags: Some(vec![
                ("tag1".to_string(), "true".to_string()),
                ("tag2".to_string(), "value".to_string()),
            ]),
            kind: MetricKind::Incremental,
            value: MetricValue::Counter { value: Number::integer(1) },
        }),
    );
}

#[test]
fn sampled_counter() {
    assert_eq!(
        parse("bar:2|c|@0.1"),
        Ok(Metric {
            name: "bar".to_string(),
            timestamp: None,
            tags: None,
            kind: MetricKind::Incremental,
            value: MetricValue::Counter { value: Number::integer(20) },
        }),
    );
}

#[test]
fn zero_sampled_counter() {
    assert_eq!(
        parse("bar:2|c|@0"),
        Ok(Metric {
            name: "bar".to_string(),
            timestamp: None,
            tags: None,
            kind: MetricKind::Incremental,
            value: MetricValue::Counter { value: Number::integer(2) },
        }),
    );
}

#[test]
fn sampled_timer() {
    assert_eq!(
        parse("glork:320|ms|@0.1"),
        Ok(Metric {
            name: "glork".to_string(),
            timestamp: None,
            tags: None,
            kind: MetricKind::Incremental,
            value: MetricValue::Distribution {
                values: vec![Number::ratio(320, 1000)],
                sample_rates: vec![10],
            },
        }),
    );
}

#[test]
fn sampled_tagged_histogram() {
    assert_eq!(
        parse("glork:320|h|@0.1|#region:us-west1,production,e:"),
        Ok(Metric {
            name: "glork".to_string(),
            timestamp: None,
            tags: Some(vec![
                ("region".to_string(), "us-west1".to_string()),
                ("production".to_string(), "true".to_string()),
                ("e".to_string(), "".to_string()),
            ]),
            kind: MetricKind::Incremental,
            value: MetricValue::Distribution {
                values: vec![Number::integer(320)],
                sample_rates: vec![10],
            },
        }),
    );
}

#[test]
fn simple_gauge() {
    assert_eq!(
        parse("gaugor:333|g"),
        Ok(Metric {
            name: "gaugor".to_string(),
            timestamp: None,
            tags: None,
            kind: MetricKind::Absolute,
            value: MetricValue::Gauge { value: Number::integer(333) },
        }),
    );
}

#[test]
fn signed_gauge() {
    assert_eq!(
        parse("gaugor:-4|g"),
        Ok(Metric {
            name: "gaugor".to_string(),
            timestamp: None,
            tags: None,
            kind: MetricKind::Incremental,
            value: MetricValue::Gauge { value: Number::integer(-4) },
        }),
    );
    assert_eq!(
        parse("gaugor:+10|g"),
        Ok(Metric {
            name: "gaugor".to_string(),
            timestamp: None,
            tags: None,
            kind: MetricKind::Incremental,
            value: MetricValue::Gauge { value: Number::integer(10) },
        }),
    );
}

#[test]
fn sets() {
    assert_eq!(
        parse("uniques:765|s"),
        Ok(Metric {
            name: "uniques".to_string(),
            timestamp: None,
            tags: None,
            kind: MetricKind::Incremental,
            value: MetricValue::SetValues { values: vec!["765".to_string()] },
        }),
    );
}

#[test]
fn sanitizing_keys() {
    assert_eq!("foo-bar-baz", sanitize_key("foo/bar/baz"));
    assert_eq!("foo_bar_baz", sanitize_key("foo bar  baz"));
    assert_eq!("foo.__bar_.baz", sanitize_key("foo. @& bar_$!#.baz"));
}

#[test]
fn sanitizing_sampling() {
    assert_eq!(Number::integer(1), sanitize_sampling(Number::integer(0)));
    assert_eq!(Number::ratio(25, 10), sanitize_sampling(Number::ratio(25, 10)));
    assert_eq!(Number::integer(-5), sanitize_sampling(Number::integer(-5)));
}

#[test]
fn malformed_packets_are_rejected() {
    assert!(matches!(parse("no-colon-here"), Err(ParseError::Malformed(_))));
    assert!(matches!(parse("foo:1"), Err(ParseError::Malformed(_))));
    assert!(matches!(parse("bar:2|c|@-1"), Err(ParseError::Malformed(_))));
}

#[test]
fn unknown_metric_type_is_reported() {
    assert_eq!(
        parse("foo:1|q"),
        Err(ParseError::UnknownMetricType("q".to_string())),
    );
}

#[test]
fn invalid_numbers_are_rejected() {
    assert!(matches!(parse("foo:xyz|c"), Err(ParseError::InvalidFloat)));
    assert!(matches!(parse("glork:1.2.3|ms"), Err(ParseError::InvalidFloat)));
    assert!(matches!(parse("bar:2|c|@zz"), Err(ParseError::InvalidFloat)));
}
