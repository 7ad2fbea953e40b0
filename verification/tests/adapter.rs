use draco::codec::{decode_validation_flow, decode_value, encode_execution_flow, encode_validation_flow, value_to_bytes};
use draco::config::{AdapterConfig, Mode};
use draco::cron::Time;
use draco::dispatcher::{decode_execution_reply, prepare_flow_execution};
use draco::flow::{
    DataType, DataTypeContainsKeyRuleConfig, DataTypeContainsTypeRuleConfig, DataTypeIdentifier,
    DataTypeNumberRangeRuleConfig, DataTypeRegexRuleConfig, DataTypeRule, ExecutionFlow,
    FlowSetting, NodeFunction, ValidationFlow,
};
use draco::violation::DataTypeRuleViolation as V;
use draco::http::{HeaderMap, HttpOption, HttpResponse, parse_request, response_parts_from_reply, status_text};
use draco::lifecycle::{LifecycleAction, LifecycleEvent, RunnerMachine};
use draco::matcher::{get_possible_flow_match, is_matching_key, FlowIdentifyResult};
use draco::route::{extract_slug_from_path, RequestRoute};
use draco::matcher::IdentifiableFlow;
use draco::types::{get_data_types, get_flow_types};
use draco::validator::verify_flow;
use draco::value::{check_value_wf, number_string, value_eq, Number, Value};

fn setting(id: &str, field: &str, value: &str) -> FlowSetting {
    FlowSetting {
        setting_id: id.to_string(),
        object: vec![(field.to_string(), Value::String(value.to_string()))],
    }
}

fn rest_flow(flow_id: i64, method: &str, url: &str) -> ValidationFlow {
    ValidationFlow {
        flow_id,
        starting_node_id: 1,
        node_functions: vec![],
        settings: vec![
            setting("HTTP_METHOD", "method", method),
            setting("HTTP_URL", "url", url),
        ],
        input_type_identifier: None,
        data_types: vec![],
    }
}

fn cron_flow(flow_id: i64) -> ValidationFlow {
    ValidationFlow {
        flow_id,
        starting_node_id: 1,
        node_functions: vec![],
        settings: vec![
            setting("CRON_MINUTE", "minute", "*"),
            setting("CRON_HOUR", "hour", "*"),
            setting("CRON_DAY_OF_MONTH", "day_of_month", "*"),
            setting("CRON_MONTH", "month", "*"),
            setting("CRON_DAY_OF_WEEK", "day_of_week", "*"),
        ],
        input_type_identifier: None,
        data_types: vec![],
    }
}

#[test]
fn validator_purity_repeated_runs_agree() {
    let flow = ValidationFlow {
        flow_id: 7,
        starting_node_id: 1,
        node_functions: vec![],
        settings: vec![],
        input_type_identifier: Some("T".to_string()),
        data_types: vec![DataType {
            identifier: "T".to_string(),
            parent_identifier: None,
            rules: vec![DataTypeRule::Regex(DataTypeRegexRuleConfig {
                pattern: "^[a-z]+$".to_string(),
            })],
        }],
    };
    let body = Value::String("123".to_string());
    let first = verify_flow(&flow, &body).unwrap_err().to_string();
    let second = verify_flow(&flow, &body).unwrap_err().to_string();
    assert_eq!(first, second);
}

#[test]
fn empty_input_rule_accepts_anything() {
    let flow = rest_flow(1, "GET", "^/x$");
    assert!(verify_flow(&flow, &Value::Null).is_ok());
    assert!(verify_flow(&flow, &Value::Bool(false)).is_ok());
    assert!(verify_flow(&flow, &Value::List(vec![Value::Null])).is_ok());
}

#[test]
fn violation_completeness_counts_each_failing_rule() {
    let flow = ValidationFlow {
        flow_id: 7,
        starting_node_id: 1,
        node_functions: vec![],
        settings: vec![],
        input_type_identifier: Some("T".to_string()),
        data_types: vec![DataType {
            identifier: "T".to_string(),
            parent_identifier: None,
            rules: vec![
                DataTypeRule::Regex(DataTypeRegexRuleConfig { pattern: "^[a-z]+$".to_string() }),
                DataTypeRule::NumberRange(DataTypeNumberRangeRuleConfig {
                    from: 1,
                    to: 10,
                    steps: None,
                }),
            ],
        }],
    };
    let body = Value::String("123".to_string());
    let report = verify_flow(&flow, &body).unwrap_err();
    assert_eq!(report.violations.len(), 2);
}

#[test]
fn regex_round_trip_matching_string_passes() {
    let rule = DataTypeRegexRuleConfig { pattern: "^a+$".to_string() };
    let value = Value::String("aaa".to_string());
    assert!(draco::validator::apply_regex(rule, &value).is_ok());
}

#[test]
fn pattern_key_match_cases() {
    assert!(is_matching_key("A.B.C", "A.B.C"));
    assert!(is_matching_key("A.*.C", "A.X.C"));
    assert!(is_matching_key("A.*", "A.B.C"));
    assert!(!is_matching_key("A.B", "A.B.C"));
    assert!(!is_matching_key("REST.bar.*", "REST.foo.1"));
}

#[test]
fn matcher_single_and_repeatable() {
    let flow = rest_flow(42, "GET", "^/api/users/\\d+$");
    let bytes = encode_validation_flow(&flow);
    let entries = vec![("REST.api.42".to_string(), bytes)];
    let route = RequestRoute { url: "/api/users/7".to_string(), method: HttpOption::GET };

    let first = get_possible_flow_match(entries.clone(), "REST.api.*", &route);
    match first {
        FlowIdentifyResult::Single(f) => assert_eq!(f.flow_id, 42),
        _ => panic!("expected a single match"),
    }
    let second = get_possible_flow_match(entries, "REST.api.*", &route);
    match second {
        FlowIdentifyResult::Single(f) => assert_eq!(f.flow_id, 42),
        _ => panic!("expected the same single match"),
    }
}

#[test]
fn matcher_none_for_unmatched_pattern() {
    let flow = rest_flow(1, "GET", "^/x$");
    let entries = vec![("REST.foo.1".to_string(), encode_validation_flow(&flow))];
    let route = RequestRoute { url: "/x".to_string(), method: HttpOption::GET };
    match get_possible_flow_match(entries, "REST.bar.*", &route) {
        FlowIdentifyResult::NoFlow => {}
        _ => panic!("expected no match"),
    }
}

fn epoch_minute_now() -> u64 {
    std::time::SystemTime::now()
        .duration_since(std::time::UNIX_EPOCH)
        .map(|d| d.as_secs() / 60)
        .unwrap_or(0)
}

#[test]
fn matcher_multiple_cron_flows() {
    let now = epoch_minute_now();
    let entries = vec![
        ("CRON.1".to_string(), encode_validation_flow(&cron_flow(1))),
        ("CRON.2".to_string(), encode_validation_flow(&cron_flow(2))),
    ];
    let time = Time { now_minute: now };
    match get_possible_flow_match(entries, "CRON.*", &time) {
        FlowIdentifyResult::Multiple(fs) => {
            assert_eq!(fs.len(), 2);
            let mut ids: Vec<i64> = fs.iter().map(|f| f.flow_id).collect();
            ids.sort();
            assert_eq!(ids, vec![1, 2]);
        }
        _ => panic!("expected both cron flows"),
    }
}

#[test]
fn cron_predicate_needs_all_settings() {
    let time = Time { now_minute: epoch_minute_now() };
    assert!(time.identify(&cron_flow(1)));
    let incomplete = rest_flow(1, "GET", "^/x$");
    assert!(!time.identify(&incomplete));
}

#[test]
fn dispatch_payload_is_the_encoded_execution_flow() {
    let prepared = prepare_flow_execution(rest_flow(42, "GET", "^/api/users/\\d+$"), None).unwrap();
    let expected = encode_execution_flow(&ExecutionFlow {
        flow_id: 42,
        starting_node_id: 1,
        input_value: None,
        node_functions: vec![],
    });
    assert_eq!(prepared.payload, expected);
}

#[test]
fn dispatcher_correlation_ids_differ() {
    let first = prepare_flow_execution(rest_flow(1, "GET", "^/x$"), None).unwrap();
    let second = prepare_flow_execution(rest_flow(1, "GET", "^/x$"), None).unwrap();
    assert_eq!(first.correlation_id.len(), 36);
    assert_ne!(first.correlation_id, second.correlation_id);
    assert_eq!(first.topic, format!("execution.{}", first.correlation_id));
}

#[test]
fn dispatcher_rejects_invalid_input() {
    let flow = ValidationFlow {
        flow_id: 9,
        starting_node_id: 1,
        node_functions: vec![],
        settings: vec![],
        input_type_identifier: Some("REQ".to_string()),
        data_types: vec![DataType {
            identifier: "REQ".to_string(),
            parent_identifier: None,
            rules: vec![DataTypeRule::Regex(DataTypeRegexRuleConfig {
                pattern: "^[a-z]+$".to_string(),
            })],
        }],
    };
    let result = prepare_flow_execution(flow, Some(Value::String("123".to_string())));
    assert!(result.is_err());
}

#[test]
fn lifecycle_shutdown_exactly_once() {
    let mut machine = RunnerMachine::new();
    assert_eq!(machine.step(LifecycleEvent::ConfigLoaded), LifecycleAction::CallInit);
    assert_eq!(machine.step(LifecycleEvent::InitSucceeded), LifecycleAction::StartRun);
    assert_eq!(machine.step(LifecycleEvent::RunStarted), LifecycleAction::Continue);
    assert_eq!(machine.step(LifecycleEvent::ShutdownSignal), LifecycleAction::CallShutdown);
    assert_eq!(machine.step(LifecycleEvent::ShutdownSignal), LifecycleAction::Continue);
    assert_eq!(machine.step(LifecycleEvent::ShutdownFinished), LifecycleAction::ExitClean);
    assert_eq!(machine.shutdown_calls, 1);
}

#[test]
fn lifecycle_run_return_skips_shutdown() {
    let mut machine = RunnerMachine::new();
    machine.step(LifecycleEvent::ConfigLoaded);
    machine.step(LifecycleEvent::InitSucceeded);
    machine.step(LifecycleEvent::RunStarted);
    assert_eq!(machine.step(LifecycleEvent::RunCompleted), LifecycleAction::ExitClean);
    assert_eq!(machine.shutdown_calls, 0);
}

#[test]
fn value_codec_round_trip() {
    let value = Value::Struct(vec![
        ("name".to_string(), Value::String("John".to_string())),
        ("pi".to_string(), Value::Number(Number { mantissa: 314, scale: 2 })),
        ("tags".to_string(), Value::List(vec![Value::Bool(true), Value::Null])),
    ]);
    let bytes = value_to_bytes(&value);
    let (decoded, used) = decode_value(&bytes, 0).unwrap();
    assert_eq!(used, bytes.len());
    assert_eq!(decoded, value);
    assert!(value_eq(&decoded, &value));
}

#[test]
fn flow_codec_round_trip() {
    let flow = rest_flow(42, "GET", "^/api/users/\\d+$");
    let bytes = encode_validation_flow(&flow);
    let decoded = decode_validation_flow(&bytes).unwrap();
    assert_eq!(decoded, flow);
}

#[test]
fn reply_codec_round_trip() {
    let reply = Value::Struct(vec![("ok".to_string(), Value::Bool(true))]);
    let bytes = value_to_bytes(&reply);
    let decoded = decode_execution_reply(&bytes).unwrap();
    assert_eq!(decoded, reply);
}

#[test]
fn report_serializes_to_stable_json() {
    let rule = DataTypeRegexRuleConfig { pattern: "^[a-z]+$".to_string() };
    let report = draco::validator::apply_regex(rule, &Value::String("123".to_string()))
        .unwrap_err()
        .to_string();
    assert_eq!(
        report,
        "{\"error\":\"DataTypeRuleError\",\"violation_count\":1,\"violations\":[{\"type\":\"Regex\",\"explanation\":\"Failed to match regex pattern: '^[a-z]+$'\",\"details\":{\"missing_regex\":\"^[a-z]+$\"}}]}"
    );
}

#[test]
fn numbers_render_as_decimals() {
    assert_eq!(number_string(&Number { mantissa: 42, scale: 0 }), "42");
    assert_eq!(number_string(&Number { mantissa: 314, scale: 2 }), "3.14");
    assert_eq!(number_string(&Number { mantissa: -5, scale: 2 }), "-0.05");
    assert_eq!(number_string(&Number { mantissa: -12, scale: 0 }), "-12");
}

#[test]
fn header_map_folds_names_and_values() {
    let header = vec![
        "Content-Type: application/json".to_string(),
        "User-Agent: Mozilla/5.0".to_string(),
    ];
    let header_map = HeaderMap::from_vec(header);
    assert_eq!(header_map.get("content-type"), Some(&"application/json".to_string()));
    assert_eq!(header_map.get("user-agent"), Some(&"mozilla/5.0".to_string()));
    assert_eq!(header_map.get("host"), None);
}

#[test]
fn responses_carry_their_status() {
    let ok = HttpResponse::ok(b"{}".to_vec(), vec![]);
    assert_eq!(ok.status_code, 200);
    assert!(ok.is_success());
    assert!(!ok.is_client_error());

    let missing = HttpResponse::not_found("gone".to_string(), vec![]);
    assert_eq!(missing.status_code, 404);
    assert!(missing.is_client_error());
    assert_eq!(missing.body, b"{\"error\":\"gone\"}".to_vec());

    let broken = HttpResponse::internal_server_error("Flow execution failed".to_string(), vec![]);
    assert_eq!(broken.status_code, 500);
    assert!(broken.is_server_error());

    assert_eq!(status_text(200), "OK");
    assert_eq!(status_text(404), "Not Found");
    assert_eq!(status_text(999), "Unknown Status");
}

#[test]
fn response_bytes_spell_the_wire_form() {
    let response = HttpResponse::new(
        204,
        vec![("x-test".to_string(), "1".to_string())],
        Vec::new(),
    );
    let bytes = response.to_bytes();
    assert_eq!(bytes, b"HTTP/1.1 204 No Content\r\nx-test: 1\r\n\r\n".to_vec());
}

#[test]
fn slug_is_first_path_segment() {
    assert_eq!(extract_slug_from_path("/api/users/7"), Some("api"));
    assert_eq!(extract_slug_from_path("api/users"), Some("api"));
    assert_eq!(extract_slug_from_path("/"), None);
    assert_eq!(extract_slug_from_path(""), None);
}

#[test]
fn request_parses_line_headers_and_query() {
    let raw = vec![
        "GET /api/users/7?sort=asc HTTP/1.1".to_string(),
        "Host: localhost".to_string(),
    ];
    let request = parse_request(raw, None).unwrap();
    assert_eq!(request.method, HttpOption::GET);
    assert_eq!(request.path, "/api/users/7?sort=asc");
    assert_eq!(request.version, "HTTP/1.1");
    assert_eq!(request.host, "localhost");
    let body = request.body.unwrap();
    assert_eq!(
        draco::path::get_string("query.sort", &body),
        Some("asc".to_string())
    );
}

#[test]
fn request_without_host_is_rejected() {
    let raw = vec!["GET / HTTP/1.1".to_string()];
    let refused = parse_request(raw, None).unwrap_err();
    assert_eq!(refused.status_code, 400);

    let raw = vec!["BREW / HTTP/1.1".to_string(), "Host: x".to_string()];
    let refused = parse_request(raw, None).unwrap_err();
    assert_eq!(refused.status_code, 405);
}

#[test]
fn route_predicate_matches_method_and_url() {
    let flow = rest_flow(42, "GET", "^/api/users/\\d+$");
    let hit = RequestRoute { url: "/api/users/7".to_string(), method: HttpOption::GET };
    assert!(hit.identify(&flow));

    let wrong_method = RequestRoute { url: "/api/users/7".to_string(), method: HttpOption::POST };
    assert!(!wrong_method.identify(&flow));

    let wrong_url = RequestRoute { url: "/api/items/7".to_string(), method: HttpOption::GET };
    assert!(!wrong_url.identify(&flow));
}

#[test]
fn validation_failure_reports_unacceptable_number() {
    let flow = ValidationFlow {
        flow_id: 42,
        starting_node_id: 1,
        node_functions: vec![],
        settings: vec![],
        input_type_identifier: Some("REQ".to_string()),
        data_types: vec![
            DataType {
                identifier: "REQ".to_string(),
                parent_identifier: None,
                rules: vec![DataTypeRule::ContainsKey(DataTypeContainsKeyRuleConfig {
                    key: "x".to_string(),
                    data_type_identifier: Some(DataTypeIdentifier::DataTypeIdentifier(
                        "HTTP_URL".to_string(),
                    )),
                })],
            },
            DataType {
                identifier: "HTTP_URL".to_string(),
                parent_identifier: None,
                rules: vec![DataTypeRule::Regex(DataTypeRegexRuleConfig {
                    pattern: "^/.*$".to_string(),
                })],
            },
        ],
    };
    let body = Value::Struct(vec![(
        "x".to_string(),
        Value::Number(Number { mantissa: 123, scale: 0 }),
    )]);
    let report = verify_flow(&flow, &body).unwrap_err();
    assert_eq!(report.violations.len(), 1);
    match &report.violations[0] {
        draco::violation::DataTypeRuleViolation::Regex(_) => {}
        _ => panic!("expected the nested regex violation"),
    }
    let text = report.to_string();
    assert!(text.contains("\"violation_count\":1"));
}

#[test]
fn reply_translates_to_response_parts() {
    let reply = Value::Struct(vec![
        ("status_code".to_string(), Value::Number(Number { mantissa: 200, scale: 0 })),
        (
            "headers".to_string(),
            Value::List(vec![Value::Struct(vec![
                ("key".to_string(), Value::String("content-type".to_string())),
                ("value".to_string(), Value::String("application/json".to_string())),
            ])]),
        ),
        ("payload".to_string(), Value::Struct(vec![])),
    ]);
    let (code, headers, payload) = response_parts_from_reply(&reply).unwrap();
    assert_eq!(code, 200);
    assert_eq!(headers, vec![("content-type".to_string(), "application/json".to_string())]);
    assert_eq!(payload, &Value::Struct(vec![]));

    assert_eq!(response_parts_from_reply(&Value::Null), None);
}

#[test]
fn adapter_config_defaults_apply() {
    let config = AdapterConfig::from_values(
        None, None, None, None, None, None, None, None, None, None,
    );
    assert_eq!(config.nats_url, "nats://localhost:4222");
    assert_eq!(config.nats_bucket, "flow_store");
    assert_eq!(config.grpc_port, 50051);
    assert_eq!(config.mode, Mode::STATIC);
    assert!(config.is_static());
    assert!(!config.with_health_service);

    let hybrid = AdapterConfig::from_values(
        None,
        None,
        None,
        None,
        None,
        None,
        Some("hybrid".to_string()),
        None,
        Some(true),
        None,
    );
    assert!(!hybrid.is_static());
    assert!(hybrid.with_health_service);
}

#[test]
fn declared_types_cover_the_http_surface() {
    let data_types = get_data_types();
    assert_eq!(data_types.len(), 6);
    assert_eq!(data_types[0].identifier, "HTTP_METHOD");
    assert_eq!(data_types[4].identifier, "HTTP_REQUEST_OBJECT");

    let flow_types = get_flow_types();
    assert_eq!(flow_types.len(), 1);
    assert_eq!(flow_types[0].identifier, "REST");
}

#[test]
fn structs_compare_as_unordered_maps() {
    let a = Value::Struct(vec![
        ("x".to_string(), Value::Bool(true)),
        ("y".to_string(), Value::Null),
    ]);
    let b = Value::Struct(vec![
        ("y".to_string(), Value::Null),
        ("x".to_string(), Value::Bool(true)),
    ]);
    assert!(value_eq(&a, &b));
    let c = Value::Struct(vec![("x".to_string(), Value::Bool(false))]);
    assert!(!value_eq(&a, &c));
}

#[test]
fn wf_checker_spots_duplicate_keys_and_stale_zeros() {
    let good = Value::Struct(vec![
        ("x".to_string(), Value::Number(Number { mantissa: 314, scale: 2 })),
    ]);
    assert!(check_value_wf(&good));

    let duplicated = Value::Struct(vec![
        ("x".to_string(), Value::Null),
        ("x".to_string(), Value::Bool(true)),
    ]);
    assert!(!check_value_wf(&duplicated));

    let stale = Value::Number(Number { mantissa: 310, scale: 1 });
    assert!(!check_value_wf(&stale));
}

#[test]
fn every_violation_kind_is_reachable() {
    let _ = NodeFunction {
        function_id: "f".to_string(),
        runtime_function_id: "std::math::add".to_string(),
        parameters: vec![],
    };

    // DataTypeNotFound: the flow names an input type its universe lacks.
    let orphan = ValidationFlow {
        flow_id: 1,
        starting_node_id: 1,
        node_functions: vec![],
        settings: vec![],
        input_type_identifier: Some("MISSING".to_string()),
        data_types: vec![],
    };
    let report = verify_flow(&orphan, &Value::Null).unwrap_err();
    assert!(matches!(report.violations[0], V::DataTypeNotFound(_)));

    let universe = vec![DataType {
        identifier: "INNER".to_string(),
        parent_identifier: None,
        rules: vec![],
    }];

    // ContainsKey: the record lacks the required key.
    let rule = DataTypeContainsKeyRuleConfig {
        key: "x".to_string(),
        data_type_identifier: Some(DataTypeIdentifier::DataTypeIdentifier("INNER".to_string())),
    };
    let empty_record = Value::Struct(vec![]);
    let report =
        draco::validator::apply_contains_key(rule, &empty_record, &universe).unwrap_err();
    assert!(matches!(report.violations[0], V::ContainsKey(_)));

    // MissingDataType: the key is present but the referenced type is not.
    let rule = DataTypeContainsKeyRuleConfig {
        key: "x".to_string(),
        data_type_identifier: Some(DataTypeIdentifier::DataTypeIdentifier("GHOSTLY".to_string())),
    };
    let record = Value::Struct(vec![("x".to_string(), Value::Null)]);
    let report = draco::validator::apply_contains_key(rule, &record, &universe).unwrap_err();
    assert!(matches!(report.violations[0], V::MissingDataType(_)));

    // DataTypeIdentifierNotPresent: the rule carries no identifier at all.
    let rule = DataTypeContainsKeyRuleConfig { key: "x".to_string(), data_type_identifier: None };
    let report = draco::validator::apply_contains_key(rule, &record, &universe).unwrap_err();
    assert!(matches!(report.violations[0], V::DataTypeIdentifierNotPresent(_)));

    // GenericKeyNotAllowed: the rule references a generic parameter.
    let rule = DataTypeContainsKeyRuleConfig {
        key: "x".to_string(),
        data_type_identifier: Some(DataTypeIdentifier::GenericType("T".to_string())),
    };
    let report = draco::validator::apply_contains_key(rule, &record, &universe).unwrap_err();
    assert!(matches!(report.violations[0], V::GenericKeyNotAllowed(_)));

    // InvalidFormat: a list rule applied to something that is not a list.
    let rule = DataTypeContainsTypeRuleConfig {
        data_type_identifier: Some(DataTypeIdentifier::DataTypeIdentifier("INNER".to_string())),
    };
    let report =
        draco::validator::apply_contains_type(rule, &universe, &Value::Bool(true)).unwrap_err();
    assert!(matches!(report.violations[0], V::InvalidFormat(_)));
}

#[test]
fn contains_type_collects_every_element_report() {
    let universe = vec![DataType {
        identifier: "LOWER".to_string(),
        parent_identifier: None,
        rules: vec![DataTypeRule::Regex(DataTypeRegexRuleConfig {
            pattern: "^[a-z]+$".to_string(),
        })],
    }];
    let rule = DataTypeContainsTypeRuleConfig {
        data_type_identifier: Some(DataTypeIdentifier::DataTypeIdentifier("LOWER".to_string())),
    };
    let list = Value::List(vec![
        Value::String("ok".to_string()),
        Value::String("123".to_string()),
        Value::String("456".to_string()),
    ]);
    let report = draco::validator::apply_contains_type(rule, &universe, &list).unwrap_err();
    assert_eq!(report.violations.len(), 2);
}

#[test]
fn dotted_keys_descend_nested_records() {
    let rule = DataTypeContainsKeyRuleConfig {
        key: "a.b".to_string(),
        data_type_identifier: Some(DataTypeIdentifier::DataTypeIdentifier("LOWER".to_string())),
    };
    let universe = vec![DataType {
        identifier: "LOWER".to_string(),
        parent_identifier: None,
        rules: vec![DataTypeRule::Regex(DataTypeRegexRuleConfig {
            pattern: "^[a-z]+$".to_string(),
        })],
    }];
    let nested = Value::Struct(vec![(
        "a".to_string(),
        Value::Struct(vec![("b".to_string(), Value::String("ok".to_string()))]),
    )]);
    assert!(draco::validator::apply_contains_key(rule, &nested, &universe).is_ok());
}

#[test]
fn mangled_bytes_are_refused() {
    let value = Value::Struct(vec![
        ("name".to_string(), Value::String("John".to_string())),
        ("ok".to_string(), Value::Bool(true)),
    ]);
    let bytes = value_to_bytes(&value);

    let mut truncated = bytes.clone();
    truncated.pop();
    assert_eq!(decode_execution_reply(&truncated), None);

    let mut bad_tag = bytes.clone();
    bad_tag[0] = 9;
    assert_eq!(decode_value(&bad_tag, 0), None);

    let mut trailing = bytes;
    trailing.push(0);
    assert_eq!(decode_execution_reply(&trailing), None);
}
