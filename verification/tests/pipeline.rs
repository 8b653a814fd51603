//! End-to-end tests of the metric pipeline: conversion tables, sorting,
//! field zipping, round trips, sink planning and the connection handler.

use santametricservice::decode::{decode_metric_set, extract_payload, DecodeError, Envelope,
    EnvelopeEntry};
use santametricservice::handler::{handle_event, Config, ConnError, ConnEvent, ConnState,
    FORMAT_MONARCH, FORMAT_RAW};
use santametricservice::json::{json_to_string, Json};
use santametricservice::model::{Metric, MetricSet, MetricValue, MetricValueData, NumberValue};
use santametricservice::monarch::{convert, ConvertError, Value};
use santametricservice::sink::{plan_delivery, DispatchError, SinkAction};
use santametricservice::wire::{metric_set_to_json, monarch_payload, raw_payload};

const T0: i64 = 1631826400;
const T1: i64 = 1631826490;

fn num(text: &str) -> MetricValueData {
    MetricValueData::Number(NumberValue { text: text.to_string() })
}

fn observation(created: i64, data: MetricValueData, value: &str) -> MetricValue {
    MetricValue { created, data, last_updated: created, value: value.to_string() }
}

fn metric(code: i8, fields: Vec<(&str, Vec<MetricValue>)>) -> Metric {
    Metric {
        description: "d".to_string(),
        fields: fields.into_iter().map(|(k, v)| (k.to_string(), v)).collect(),
        type_code: code,
    }
}

fn single_metric_set(name: &str, m: Metric) -> MetricSet {
    MetricSet {
        metrics: vec![(name.to_string(), m)],
        root_labels: vec![("host".to_string(), "h1".to_string())],
    }
}

fn bool_obs() -> Vec<MetricValue> {
    vec![observation(T0, MetricValueData::Bool(true), "true")]
}

fn num_obs(text: &str) -> Vec<MetricValue> {
    vec![observation(T0, num(text), text)]
}

fn str_obs(s: &str) -> Vec<MetricValue> {
    vec![observation(T0, MetricValueData::String(s.to_string()), s)]
}

fn obs_for(code: i8) -> Vec<MetricValue> {
    match code {
        1 | 5 => bool_obs(),
        2 | 6 => str_obs("x"),
        _ => num_obs("5"),
    }
}

#[test]
fn test_stream_kind_table() {
    for code in 1..=9i8 {
        let ms = single_metric_set("m", metric(code, vec![("", obs_for(code))]));
        let w = convert(&ms, T1).unwrap();
        let d = &w.collection[0].dataset[0];
        let want = match code {
            1..=4 => "",
            5..=8 => "GAUGE",
            _ => "CUMULATIVE",
        };
        assert_eq!(d.stream_kind, want, "code {}", code);
    }
    for code in [0i8, 10, -1, 127] {
        let ms = single_metric_set("m", metric(code, vec![("", num_obs("5"))]));
        assert_eq!(convert(&ms, T1), Err(ConvertError::InvalidMetricType));
    }
}

#[test]
fn test_value_type_table() {
    let cases: Vec<(i8, &str)> = vec![
        (1, "BOOL"),
        (5, "BOOL"),
        (2, "STRING"),
        (6, "STRING"),
        (3, "INT64"),
        (7, "INT64"),
        (9, "INT64"),
        (4, "DOUBLE"),
        (8, "DOUBLE"),
    ];
    for (code, want) in cases {
        let ms = single_metric_set("m", metric(code, vec![("", obs_for(code))]));
        let w = convert(&ms, T1).unwrap();
        assert_eq!(w.collection[0].dataset[0].value_type, want, "code {}", code);
    }
}

#[test]
fn test_sorted_output_deterministic() {
    let a = MetricSet {
        metrics: vec![
            ("zeta".to_string(), metric(9, vec![("", num_obs("1"))])),
            ("alpha".to_string(), metric(7, vec![("", num_obs("2"))])),
        ],
        root_labels: vec![
            ("version".to_string(), "2".to_string()),
            ("host".to_string(), "h1".to_string()),
        ],
    };
    let b = MetricSet {
        metrics: vec![
            ("alpha".to_string(), metric(7, vec![("", num_obs("2"))])),
            ("zeta".to_string(), metric(9, vec![("", num_obs("1"))])),
        ],
        root_labels: vec![
            ("host".to_string(), "h1".to_string()),
            ("version".to_string(), "2".to_string()),
        ],
    };
    let wa = convert(&a, T1).unwrap();
    let wb = convert(&b, T1).unwrap();
    assert_eq!(wa, wb);
    assert_eq!(monarch_payload(&wa), monarch_payload(&wb));
    let names: Vec<&str> =
        wa.collection[0].dataset.iter().map(|d| d.metric_name.as_str()).collect();
    assert_eq!(names, vec!["alpha", "zeta"]);
    let keys: Vec<&str> = wa.collection[0].root_labels.iter().map(|l| l.key.as_str()).collect();
    assert_eq!(keys, vec!["host", "version"]);
}

#[test]
fn test_field_zip() {
    let m = metric(9, vec![("a,b", vec![observation(T0, num("1"), "1,2")])]);
    let ms = single_metric_set("m", m);
    let w = convert(&ms, T1).unwrap();
    let data = &w.collection[0].dataset[0].data[0];
    let fields = data.field.as_ref().unwrap();
    assert_eq!(fields.len(), 2);
    assert_eq!(fields[0].name, "a");
    assert_eq!(fields[0].value, Value::String("1".to_string()));
    assert_eq!(fields[1].name, "b");
    assert_eq!(fields[1].value, Value::String("2".to_string()));
}

#[test]
fn test_field_zip_empty_key_and_truncation() {
    // the empty key yields no field entry at all
    let ms = single_metric_set("m", metric(9, vec![("", num_obs("5"))]));
    let w = convert(&ms, T1).unwrap();
    assert!(w.collection[0].dataset[0].data[0].field.is_none());
    assert!(w.collection[0].dataset[0].field_descriptor.is_none());
    // arity mismatch zips positionally and truncates to the shorter list
    let m = metric(9, vec![("a,b", vec![observation(T0, num("1"), "1")])]);
    let w = convert(&single_metric_set("m", m), T1).unwrap();
    let fields = w.collection[0].dataset[0].data[0].field.as_ref().unwrap();
    assert_eq!(fields.len(), 1);
    assert_eq!(fields[0].name, "a");
    assert_eq!(fields[0].value, Value::String("1".to_string()));
}

#[test]
fn test_field_descriptors_declared_string() {
    let m = metric(6, vec![("path,user", vec![observation(T0,
        MetricValueData::String("s".to_string()), "/bin/ls,root")])]);
    let w = convert(&single_metric_set("m", m), T1).unwrap();
    let fds = w.collection[0].dataset[0].field_descriptor.as_ref().unwrap();
    assert_eq!(fds.len(), 2);
    assert_eq!(fds[0].name, "path");
    assert_eq!(fds[0].field_type, "STRING");
    assert_eq!(fds[1].name, "user");
    assert_eq!(fds[1].field_type, "STRING");
}

#[test]
fn test_value_kind_mismatch() {
    // a string observation under an Int64 code is a hard failure
    let ms = single_metric_set("m", metric(3, vec![("", str_obs("5"))]));
    assert_eq!(convert(&ms, T1), Err(ConvertError::ValueKindMismatch));
    // a numeric observation under a String code likewise
    let ms = single_metric_set("m", metric(2, vec![("", num_obs("5"))]));
    assert_eq!(convert(&ms, T1), Err(ConvertError::ValueKindMismatch));
}

#[test]
fn test_numeric_truncation() {
    let cases: Vec<(&str, i64)> = vec![
        ("5", 5),
        ("5.9", 5),
        ("-3.7", -3),
        ("0", 0),
        ("99999999999999999999999", i64::MAX),
        ("-99999999999999999999999", i64::MIN),
    ];
    for (text, want) in cases {
        let ms = single_metric_set("m", metric(9, vec![("", num_obs(text))]));
        let w = convert(&ms, T1).unwrap();
        assert_eq!(w.collection[0].dataset[0].data[0].value, Value::I64(want), "text {}", text);
    }
    // Bool codes coerce the numeric form through `!= 0`
    let ms = single_metric_set("m", metric(1, vec![("", num_obs("0.4"))]));
    let w = convert(&ms, T1).unwrap();
    assert_eq!(w.collection[0].dataset[0].data[0].value, Value::Bool(false));
    let ms = single_metric_set("m", metric(5, vec![("", num_obs("2"))]));
    let w = convert(&ms, T1).unwrap();
    assert_eq!(w.collection[0].dataset[0].data[0].value, Value::Bool(true));
}

#[test]
fn test_raw_round_trip() {
    let ms = MetricSet {
        metrics: vec![
            (
                "req_count".to_string(),
                metric(9, vec![("path,user", vec![observation(T0, num("5"), "/a,root")])]),
            ),
            ("ok".to_string(), metric(1, vec![("", bool_obs())])),
        ],
        root_labels: vec![("host".to_string(), "h1".to_string())],
    };
    let tree = metric_set_to_json(&ms);
    let back = decode_metric_set(&tree).unwrap();
    assert_eq!(back, ms);
}

#[test]
fn test_raw_payload_is_valid_json() {
    let ms = single_metric_set(
        "m\"x",
        metric(2, vec![("", vec![observation(T0, MetricValueData::String("a\\b\n".to_string()),
            "a\\b\n")])]),
    );
    let payload = raw_payload(&ms);
    let v: serde_json::Value = serde_json::from_str(&payload).unwrap();
    let metrics = v.get("metrics").unwrap();
    let m = metrics.get("m\"x").unwrap();
    let entry = &m.get("fields").unwrap().get("").unwrap()[0];
    assert_eq!(entry.get("created").unwrap().as_i64().unwrap(), T0);
    assert_eq!(entry.get("data").unwrap().as_str().unwrap(), "a\\b\n");
    assert_eq!(m.get("type").unwrap().as_i64().unwrap(), 2);
    assert_eq!(
        v.get("root_labels").unwrap().get("host").unwrap().as_str().unwrap(),
        "h1"
    );
}

fn value_to_json(v: serde_json::Value) -> Json {
    match v {
        serde_json::Value::Null => Json::Null,
        serde_json::Value::Bool(b) => Json::Bool(b),
        serde_json::Value::Number(n) => Json::Num(NumberValue { text: n.to_string() }),
        serde_json::Value::String(s) => Json::Str(s),
        serde_json::Value::Array(a) => Json::Arr(a.into_iter().map(value_to_json).collect()),
        serde_json::Value::Object(m) => {
            Json::Obj(m.into_iter().map(|(k, v)| (k, value_to_json(v))).collect())
        }
    }
}

#[test]
fn test_raw_round_trip_through_text() {
    // the rendered Raw payload, parsed back from its text, reproduces the
    // snapshot's names, types and values exactly
    let ms = MetricSet {
        metrics: vec![(
            "disk_free".to_string(),
            metric(8, vec![("mount", vec![observation(T0, num("0.5"), "/")])]),
        )],
        root_labels: vec![("host".to_string(), "h1".to_string())],
    };
    let payload = raw_payload(&ms);
    let parsed: serde_json::Value = serde_json::from_str(&payload).unwrap();
    let back = decode_metric_set(&value_to_json(parsed)).unwrap();
    assert_eq!(back, ms);
}

#[test]
fn test_decode_accepts_rfc3339_timestamps() {
    let tree = Json::Obj(vec![
        (
            "metrics".to_string(),
            Json::Obj(vec![(
                "m".to_string(),
                Json::Obj(vec![
                    ("description".to_string(), Json::Str("d".to_string())),
                    (
                        "fields".to_string(),
                        Json::Obj(vec![(
                            "".to_string(),
                            Json::Arr(vec![Json::Obj(vec![
                                (
                                    "created".to_string(),
                                    Json::Str("2021-09-16T21:08:10Z".to_string()),
                                ),
                                ("data".to_string(), Json::Num(NumberValue {
                                    text: "5".to_string(),
                                })),
                                (
                                    "last_updated".to_string(),
                                    Json::Str("2021-09-16T21:08:10Z".to_string()),
                                ),
                                ("value".to_string(), Json::Str("5".to_string())),
                            ])]),
                        )]),
                    ),
                    ("type".to_string(), Json::Num(NumberValue { text: "9".to_string() })),
                ]),
            )]),
        ),
        ("root_labels".to_string(), Json::Obj(vec![])),
    ]);
    let ms = decode_metric_set(&tree).unwrap();
    assert_eq!(ms.metrics[0].1.fields[0].1[0].created, T1);
    assert_eq!(ms.metrics[0].1.fields[0].1[0].last_updated, T1);
}

fn valid_tree_with_code(code: &str) -> Json {
    Json::Obj(vec![
        (
            "metrics".to_string(),
            Json::Obj(vec![(
                "m".to_string(),
                Json::Obj(vec![
                    ("description".to_string(), Json::Str("d".to_string())),
                    ("fields".to_string(), Json::Obj(vec![])),
                    ("type".to_string(), Json::Num(NumberValue { text: code.to_string() })),
                ]),
            )]),
        ),
        ("root_labels".to_string(), Json::Obj(vec![])),
    ])
}

#[test]
fn test_decode_errors() {
    // type code out of table
    assert_eq!(decode_metric_set(&valid_tree_with_code("12")), Err(DecodeError::InvalidTypeCode));
    assert_eq!(decode_metric_set(&valid_tree_with_code("0")), Err(DecodeError::InvalidTypeCode));
    // in-table code decodes
    assert!(decode_metric_set(&valid_tree_with_code("9")).is_ok());
    // the root must be an object with both maps
    assert_eq!(
        decode_metric_set(&Json::Str("x".to_string())),
        Err(DecodeError::InvalidShape)
    );
    assert_eq!(
        decode_metric_set(&Json::Obj(vec![("metrics".to_string(), Json::Obj(vec![]))])),
        Err(DecodeError::InvalidShape)
    );
    // a duplicate root-label key is rejected
    let tree = Json::Obj(vec![
        ("metrics".to_string(), Json::Obj(vec![])),
        (
            "root_labels".to_string(),
            Json::Obj(vec![
                ("host".to_string(), Json::Str("a".to_string())),
                ("host".to_string(), Json::Str("b".to_string())),
            ]),
        ),
    ]);
    assert_eq!(decode_metric_set(&tree), Err(DecodeError::DuplicateKey));
    // an interval that ends before it starts is rejected
    let tree = Json::Obj(vec![
        (
            "metrics".to_string(),
            Json::Obj(vec![(
                "m".to_string(),
                Json::Obj(vec![
                    ("description".to_string(), Json::Str("d".to_string())),
                    (
                        "fields".to_string(),
                        Json::Obj(vec![(
                            "".to_string(),
                            Json::Arr(vec![Json::Obj(vec![
                                ("created".to_string(), Json::Num(NumberValue {
                                    text: "10".to_string(),
                                })),
                                ("data".to_string(), Json::Num(NumberValue {
                                    text: "5".to_string(),
                                })),
                                ("last_updated".to_string(), Json::Num(NumberValue {
                                    text: "9".to_string(),
                                })),
                                ("value".to_string(), Json::Str("5".to_string())),
                            ])]),
                        )]),
                    ),
                    ("type".to_string(), Json::Num(NumberValue { text: "9".to_string() })),
                ]),
            )]),
        ),
        ("root_labels".to_string(), Json::Obj(vec![])),
    ]);
    assert_eq!(decode_metric_set(&tree), Err(DecodeError::InvalidTimestamp));
}

#[test]
fn test_extract_payload() {
    let env = Envelope::Dictionary(vec![(
        "json".to_string(),
        EnvelopeEntry::Data(vec![1, 2, 3]),
    )]);
    assert_eq!(extract_payload(env), Ok(vec![1, 2, 3]));
    let env = Envelope::Dictionary(vec![("other".to_string(), EnvelopeEntry::Data(vec![1]))]);
    assert_eq!(extract_payload(env), Err(DecodeError::MissingPayload));
    let env = Envelope::Dictionary(vec![("json".to_string(), EnvelopeEntry::Other)]);
    assert_eq!(extract_payload(env), Err(DecodeError::InvalidPayload));
    assert_eq!(extract_payload(Envelope::Other), Err(DecodeError::InvalidEnvelope));
}

#[test]
fn test_plan_delivery() {
    let action = plan_delivery(&"file:///tmp/metrics.log".to_string(), "p".to_string(), 30);
    assert_eq!(
        action,
        Ok(SinkAction::AppendFile { path: "/tmp/metrics.log".to_string(), payload: "p".to_string() })
    );
    let action = plan_delivery(&"https://example.com/submit".to_string(), "p".to_string(), 30);
    assert_eq!(
        action,
        Ok(SinkAction::HttpPost {
            url: "https://example.com/submit".to_string(),
            payload: "p".to_string(),
            timeout_seconds: 30,
        })
    );
}

#[test]
fn test_unsupported_scheme_rejected() {
    let action = plan_delivery(&"ftp://example.com/x".to_string(), "p".to_string(), 30);
    assert_eq!(action, Err(DispatchError::UnsupportedScheme));
    let action = plan_delivery(&"not a url".to_string(), "p".to_string(), 30);
    assert_eq!(action, Err(DispatchError::InvalidUrl));
}

fn config(format: i8, dest: &str) -> Config {
    Config {
        export_enabled: true,
        format,
        destination: dest.to_string(),
        timeout_seconds: 30,
    }
}

#[test]
fn test_denied_peer_never_dispatches() {
    let cfg = config(FORMAT_MONARCH, "file:///tmp/m.log");
    let (state, action, report) =
        handle_event(ConnState::AwaitingAuthorization, ConnEvent::Authorized(false), &cfg, T1);
    assert_eq!(state, ConnState::Closed);
    assert!(action.is_none());
    assert_eq!(report, Some(ConnError::AuthorizationDenied));
    // whatever arrives later, the closed connection neither decodes nor
    // dispatches
    let tree = valid_tree_with_code("9");
    let (state, action, report) =
        handle_event(state, ConnEvent::MessageReceived(Ok(tree)), &cfg, T1);
    assert_eq!(state, ConnState::Closed);
    assert!(action.is_none());
    assert!(report.is_none());
}

#[test]
fn test_handler_serving_flow() {
    let cfg = config(FORMAT_RAW, "file:///tmp/m.log");
    let (state, action, report) =
        handle_event(ConnState::AwaitingAuthorization, ConnEvent::Authorized(true), &cfg, T1);
    assert_eq!(state, ConnState::Serving);
    assert!(action.is_none() && report.is_none());
    // a transport interruption is transient
    let (state, action, report) = handle_event(state, ConnEvent::Interrupted, &cfg, T1);
    assert_eq!(state, ConnState::Serving);
    assert!(action.is_none() && report.is_none());
    // a message is decoded, formatted and planned for delivery
    let tree = valid_tree_with_code("9");
    let expected_payload = {
        let ms = decode_metric_set(&valid_tree_with_code("9")).unwrap();
        raw_payload(&ms)
    };
    let (state, action, report) =
        handle_event(state, ConnEvent::MessageReceived(Ok(tree)), &cfg, T1);
    assert_eq!(state, ConnState::Serving);
    assert!(report.is_none());
    match action.unwrap() {
        SinkAction::AppendFile { path, payload } => {
            assert_eq!(path, "/tmp/m.log");
            assert_eq!(payload, expected_payload);
        },
        other => panic!("unexpected action {:?}", other),
    }
    // the peer closing ends the loop
    let (state, action, report) = handle_event(state, ConnEvent::PeerClosed, &cfg, T1);
    assert_eq!(state, ConnState::Closed);
    assert!(action.is_none() && report.is_none());
}

#[test]
fn test_handler_monarch_delivery() {
    let cfg = config(FORMAT_MONARCH, "https://collector.example/submit");
    let tree = valid_tree_with_code("9");
    let expected_payload = {
        let ms = decode_metric_set(&valid_tree_with_code("9")).unwrap();
        monarch_payload(&convert(&ms, T1).unwrap())
    };
    let (state, action, report) =
        handle_event(ConnState::Serving, ConnEvent::MessageReceived(Ok(tree)), &cfg, T1);
    assert_eq!(state, ConnState::Serving);
    assert!(report.is_none());
    match action.unwrap() {
        SinkAction::HttpPost { url, payload, timeout_seconds } => {
            assert_eq!(url, "https://collector.example/submit");
            assert_eq!(payload, expected_payload);
            assert_eq!(timeout_seconds, 30);
        },
        other => panic!("unexpected action {:?}", other),
    }
}

#[test]
fn test_handler_fatal_paths() {
    let cfg = config(FORMAT_RAW, "file:///tmp/m.log");
    // a payload that failed to parse closes the connection
    let (state, _, report) = handle_event(
        ConnState::Serving,
        ConnEvent::MessageReceived(Err(DecodeError::MalformedPayload)),
        &cfg,
        T1,
    );
    assert_eq!(state, ConnState::Closed);
    assert_eq!(report, Some(ConnError::Decode(DecodeError::MalformedPayload)));
    // an unknown format code is fatal
    let cfg_bad = config(7, "file:///tmp/m.log");
    let (state, _, report) = handle_event(
        ConnState::Serving,
        ConnEvent::MessageReceived(Ok(valid_tree_with_code("9"))),
        &cfg_bad,
        T1,
    );
    assert_eq!(state, ConnState::Closed);
    assert_eq!(report, Some(ConnError::UnsupportedFormat));
    // an unsupported destination scheme is fatal
    let cfg_ftp = config(FORMAT_RAW, "ftp://example.com/x");
    let (state, _, report) = handle_event(
        ConnState::Serving,
        ConnEvent::MessageReceived(Ok(valid_tree_with_code("9"))),
        &cfg_ftp,
        T1,
    );
    assert_eq!(state, ConnState::Closed);
    assert_eq!(report, Some(ConnError::Dispatch(DispatchError::UnsupportedScheme)));
    // export disabled stops serving, with nothing to report
    let mut cfg_off = config(FORMAT_RAW, "file:///tmp/m.log");
    cfg_off.export_enabled = false;
    let (state, action, report) = handle_event(
        ConnState::Serving,
        ConnEvent::MessageReceived(Ok(valid_tree_with_code("9"))),
        &cfg_off,
        T1,
    );
    assert_eq!(state, ConnState::Closed);
    assert!(action.is_none() && report.is_none());
}

#[test]
fn test_handler_reports_conversion_failure() {
    // a string-typed metric whose observation is a number decodes fine but
    // cannot be converted; the handler closes with the conversion error
    let tree = Json::Obj(vec![
        (
            "metrics".to_string(),
            Json::Obj(vec![(
                "m".to_string(),
                Json::Obj(vec![
                    ("description".to_string(), Json::Str("d".to_string())),
                    (
                        "fields".to_string(),
                        Json::Obj(vec![(
                            "".to_string(),
                            Json::Arr(vec![Json::Obj(vec![
                                ("created".to_string(), Json::Num(NumberValue {
                                    text: "1".to_string(),
                                })),
                                ("data".to_string(), Json::Num(NumberValue {
                                    text: "5".to_string(),
                                })),
                                ("last_updated".to_string(), Json::Num(NumberValue {
                                    text: "1".to_string(),
                                })),
                                ("value".to_string(), Json::Str("5".to_string())),
                            ])]),
                        )]),
                    ),
                    ("type".to_string(), Json::Num(NumberValue { text: "2".to_string() })),
                ]),
            )]),
        ),
        ("root_labels".to_string(), Json::Obj(vec![])),
    ]);
    let cfg = config(FORMAT_MONARCH, "file:///tmp/m.log");
    let (state, action, report) =
        handle_event(ConnState::Serving, ConnEvent::MessageReceived(Ok(tree)), &cfg, T1);
    assert_eq!(state, ConnState::Closed);
    assert!(action.is_none());
    assert_eq!(report, Some(ConnError::Convert(ConvertError::ValueKindMismatch)));
}

#[test]
fn test_field_zip_trailing_separator() {
    // "1," splits into ["1", ""], so the second dimension carries the empty
    // string
    let m = metric(9, vec![("a,b", vec![observation(T0, num("1"), "1,")])]);
    let w = convert(&single_metric_set("m", m), T1).unwrap();
    let fields = w.collection[0].dataset[0].data[0].field.as_ref().unwrap();
    assert_eq!(fields.len(), 2);
    assert_eq!(fields[1].name, "b");
    assert_eq!(fields[1].value, Value::String("".to_string()));
}

#[test]
fn test_end_to_end_scenario() {
    let ms = MetricSet {
        metrics: vec![(
            "req_count".to_string(),
            Metric {
                description: "d".to_string(),
                fields: vec![("".to_string(), vec![MetricValue {
                    created: T0,
                    data: num("5"),
                    last_updated: T0,
                    value: "5".to_string(),
                }])],
                type_code: 9,
            },
        )],
        root_labels: vec![("host".to_string(), "h1".to_string())],
    };
    let w = convert(&ms, T1).unwrap();
    assert_eq!(w.collection.len(), 1);
    let c = &w.collection[0];
    assert_eq!(c.dataset.len(), 1);
    let d = &c.dataset[0];
    assert_eq!(d.metric_name, "req_count");
    assert_eq!(d.value_type, "INT64");
    assert_eq!(d.stream_kind, "CUMULATIVE");
    assert_eq!(d.data.len(), 1);
    assert_eq!(d.data[0].start_timestamp, T0);
    assert_eq!(d.data[0].end_timestamp, T1);
    assert!(d.data[0].field.is_none());
    assert_eq!(d.data[0].value, Value::I64(5));
    assert_eq!(c.root_labels.len(), 1);
    assert_eq!(c.root_labels[0].key, "host");
    assert_eq!(c.root_labels[0].value, Value::String("h1".to_string()));
}

#[test]
fn test_monarch_payload_text() {
    let ms = MetricSet {
        metrics: vec![(
            "req_count".to_string(),
            Metric {
                description: "d".to_string(),
                fields: vec![("".to_string(), vec![MetricValue {
                    created: T1,
                    data: num("5"),
                    last_updated: T1,
                    value: "5".to_string(),
                }])],
                type_code: 9,
            },
        )],
        root_labels: vec![("host".to_string(), "h1".to_string())],
    };
    let w = convert(&ms, T1).unwrap();
    let payload = monarch_payload(&w);
    let mut want = String::new();
    want.push_str("{\"metricsCollection\":[{\"metricsDataSet\":[");
    want.push_str("{\"metricName\":\"req_count\",\"description\":\"d\",\"valueType\":\"INT64\",");
    want.push_str("\"streamKind\":\"CUMULATIVE\",\"data\":[");
    want.push_str(
        "{\"startTimestamp\":\"2021-09-16T21:08:10Z\",\"endTimestamp\":\"2021-09-16T21:08:10Z\",",
    );
    want.push_str("\"int64Value\":5}]}],");
    want.push_str("\"rootLabels\":[{\"key\":\"host\",\"stringValue\":\"h1\"}]}]}");
    assert_eq!(payload, want);
    // the payload is valid JSON for any consumer
    let v: serde_json::Value = serde_json::from_str(&payload).unwrap();
    assert!(v.get("metricsCollection").unwrap().is_array());
}

#[test]
fn test_decode_rejects_duplicate_metric() {
    let tree = Json::Obj(vec![
        (
            "metrics".to_string(),
            Json::Obj(vec![
                (
                    "m".to_string(),
                    Json::Obj(vec![
                        ("description".to_string(), Json::Str("d".to_string())),
                        ("fields".to_string(), Json::Obj(vec![])),
                        ("type".to_string(), Json::Num(NumberValue { text: "9".to_string() })),
                    ]),
                ),
                (
                    "m".to_string(),
                    Json::Obj(vec![
                        ("description".to_string(), Json::Str("d".to_string())),
                        ("fields".to_string(), Json::Obj(vec![])),
                        ("type".to_string(), Json::Num(NumberValue { text: "9".to_string() })),
                    ]),
                ),
            ]),
        ),
        ("root_labels".to_string(), Json::Obj(vec![])),
    ]);
    assert_eq!(decode_metric_set(&tree), Err(DecodeError::DuplicateKey));
}

#[test]
fn test_json_escaping() {
    let j = Json::Str("a\"b\\c\nd".to_string());
    assert_eq!(json_to_string(&j), "\"a\\\"b\\\\c\\u000ad\"");
}
