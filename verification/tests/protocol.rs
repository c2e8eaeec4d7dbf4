use stellaris_parser::error::{handle_error, ErrorKind, SCHEMA_VERSION};
use stellaris_parser::parser::parse;
use stellaris_parser::query::ParsedSave;
use stellaris_parser::serializer::to_assignments_text;
use stellaris_parser::session::{
    default_batch_size, handle_iter_section, handle_multi_op, handle_request,
    iter_section_lines, start_session, validate_schema_version, ErrorResponse, IterLine,
    MultiOp, Request, ResponseData,
};
use stellaris_parser::value::Value;

fn sample_gamestate() -> Vec<u8> {
    let text = "version=\"3.8\"\ncountry={\n\t0={\n\t\tname=\"Empire\"\n\t}\n\t1={\n\t\tname=\"Rivals\"\n\t}\n\t2={\n\t\tname=\"Others\"\n\t}\n}\n";
    text.as_bytes().to_vec()
}

fn sample_save() -> ParsedSave {
    ParsedSave::load(sample_gamestate(), None).expect("sample gamestate should parse")
}

fn get<'a>(v: &'a Value, key: &str) -> Option<&'a Value> {
    v.get(&key.to_string())
}

#[test]
fn test_schema_version_validation() {
    assert_eq!(SCHEMA_VERSION, 1);
}

#[test]
fn test_schema_version() {
    assert_eq!(SCHEMA_VERSION, 1);
}

#[test]
fn test_validate_schema_version_accepts_supported() {
    assert!(validate_schema_version("1").is_ok());
    assert!(validate_schema_version("01").is_ok());
}

#[test]
fn test_validate_schema_version_rejects_others() {
    for bad in ["2", "0", "", "one", "1.0", "99999999999999999999"] {
        let err = validate_schema_version(bad).expect_err("version should be rejected");
        assert_eq!(err.error, "InvalidArgument");
        assert_eq!(err.exit_code, 3);
    }
}

#[test]
fn test_unsupported_schema_version_never_loads() {
    // The payload here cannot be parsed at all; an unsupported version
    // must still be answered with the invalid-argument envelope, which
    // shows the payload was never touched.
    let garbage = b"a=\"unterminated".to_vec();
    let err = start_session("2", garbage, None).expect_err("version 2 is unsupported");
    assert_eq!(err.error, "InvalidArgument");
    assert_eq!(err.exit_code, 3);
}

#[test]
fn test_start_session_parses_on_supported_version() {
    let save = start_session("1", sample_gamestate(), None).expect("should load");
    let (_, found) = save.get_entry(&"country".to_string(), &"0".to_string());
    assert!(found);
}

#[test]
fn test_start_session_parse_failure_envelope() {
    let err = start_session("1", b"a=\"unterminated".to_vec(), None)
        .expect_err("a grammar failure must be answered with the parse-error envelope");
    assert_eq!(err.error, "ParseError");
    assert_eq!(err.exit_code, 2);
}

#[test]
fn test_start_session_meta_parse_failure_envelope() {
    let err = start_session("1", sample_gamestate(), Some(b"date=\"open".to_vec()))
        .expect_err("a meta grammar failure must be answered with the parse-error envelope");
    assert_eq!(err.error, "ParseError");
    assert_eq!(err.exit_code, 2);
}

#[test]
fn test_start_session_with_meta() {
    let save = start_session("1", sample_gamestate(), Some(b"date=\"2200.01.01\"\n".to_vec()))
        .expect("both payloads parse, so the session must start");
    assert!(save.meta.is_some());
}

#[test]
fn test_error_response_serialization() {
    let err = ErrorResponse::new("SectionNotFound", "Section 'foo' not found", 2);
    let json = err.to_json();
    assert!(json.contains(r#""ok":false"#));
    assert!(json.contains(r#""error":"SectionNotFound""#));
}

#[test]
fn test_error_response_fields() {
    let err = ErrorResponse::new("ParseError", "bad input", 2);
    assert_eq!(err.message, "bad input");
    assert_eq!(err.schema_version, 1);
    assert_eq!(err.tool_version, "0.1.0");
    assert_eq!(err.game, "stellaris");
    let json = err.to_json();
    assert!(json.contains(r#""exit_code":2"#));
    assert!(json.contains(r#""schema_version":1"#));
    assert!(json.contains(r#""game":"stellaris""#));
}

#[test]
fn test_error_response_json_escapes_quotes() {
    let err = ErrorResponse::new("ParseError", "a \"quoted\" word", 2);
    let json = err.to_json();
    assert!(json.contains(r#"a \"quoted\" word"#));
}

#[test]
fn test_exit_codes() {
    assert_eq!(ErrorKind::FileNotFound.exit_code(), 1);
    assert_eq!(ErrorKind::ParseError.exit_code(), 2);
    assert_eq!(ErrorKind::InvalidArgument.exit_code(), 3);
}

#[test]
fn test_error_types() {
    assert_eq!(ErrorKind::FileNotFound.error_type(), "FileNotFound");
    assert_eq!(ErrorKind::ParseError.error_type(), "ParseError");
    assert_eq!(ErrorKind::InvalidArgument.error_type(), "InvalidArgument");
}

#[test]
fn test_handle_error_classification() {
    assert!(matches!(handle_error("Failed to open file: x.sav"), ErrorKind::FileNotFound));
    assert!(matches!(handle_error("No such file or directory"), ErrorKind::FileNotFound));
    assert!(matches!(handle_error("Failed to parse gamestate"), ErrorKind::ParseError));
    assert!(matches!(handle_error("anything else"), ErrorKind::ParseError));
}

#[test]
fn test_default_batch_size() {
    assert_eq!(default_batch_size(), 100);
}

#[test]
fn test_multi_op_two_results_in_order() {
    let save = sample_save();
    let ops = vec![
        MultiOp::GetEntry { section: "country".to_string(), key: "0".to_string() },
        MultiOp::CountKeys { keys: vec!["name".to_string()] },
    ];
    let r = handle_multi_op(&save, ops);
    match r {
        ResponseData::MultiResults { results } => {
            assert_eq!(results.len(), 2);
            match &results[0] {
                ResponseData::SingleEntry { entry, found } => {
                    assert!(*found);
                    assert_eq!(get(entry, "name").and_then(|v| v.as_str()), Some("Empire"));
                },
                _ => panic!("first result should be the entry"),
            }
            match &results[1] {
                ResponseData::KeyCounts { counts } => {
                    assert_eq!(counts[0], ("name".to_string(), 3));
                },
                _ => panic!("second result should be the counts"),
            }
        },
        _ => panic!("multi-op should answer with a result list"),
    }
}

#[test]
fn test_multi_op_duplicate_values_cached() {
    let text = "intro=\"x\"\nleaders={\n\t5={\n\t\ttraits=\"a\"\n\t\ttraits=\"b\"\n\t}\n\t6={\n\t\ttraits=\"c\"\n\t}\n}\n";
    let save = ParsedSave::load(text.as_bytes().to_vec(), None).expect("should parse");
    let ops = vec![
        MultiOp::GetDuplicateValues {
            section: "leaders".to_string(),
            key: "5".to_string(),
            field: "traits".to_string(),
        },
        MultiOp::GetDuplicateValues {
            section: "leaders".to_string(),
            key: "6".to_string(),
            field: "traits".to_string(),
        },
    ];
    match handle_multi_op(&save, ops) {
        ResponseData::MultiResults { results } => {
            assert_eq!(results.len(), 2);
            match &results[0] {
                ResponseData::DuplicateValues { values, found } => {
                    assert!(*found);
                    assert_eq!(values, &vec!["a".to_string(), "b".to_string()]);
                },
                _ => panic!("wrong result kind"),
            }
            match &results[1] {
                ResponseData::DuplicateValues { values, found } => {
                    assert!(*found);
                    assert_eq!(values, &vec!["c".to_string()]);
                },
                _ => panic!("wrong result kind"),
            }
        },
        _ => panic!("multi-op should answer with a result list"),
    }
}

#[test]
fn test_iter_section_per_entry() {
    let save = sample_save();
    let msgs = handle_iter_section(&save, "country".to_string(), 1);
    assert_eq!(msgs.len(), 5, "header, three entries, done");
    assert!(matches!(&msgs[0], ResponseData::StreamHeader { .. }));
    match &msgs[1] {
        ResponseData::StreamEntry { key, .. } => assert_eq!(key, "0"),
        _ => panic!("expected a per-entry message"),
    }
    assert!(matches!(&msgs[4], ResponseData::StreamDone { .. }));
}

#[test]
fn test_iter_section_batched() {
    let save = sample_save();
    let msgs = handle_iter_section(&save, "country".to_string(), 2);
    assert_eq!(msgs.len(), 4, "header, one full batch, one remainder batch, done");
    match &msgs[1] {
        ResponseData::StreamBatch { entries } => {
            assert_eq!(entries.len(), 2);
            assert_eq!(entries[0].0, "0");
            assert_eq!(entries[1].0, "1");
        },
        _ => panic!("expected a batch message"),
    }
    match &msgs[2] {
        ResponseData::StreamBatch { entries } => {
            assert_eq!(entries.len(), 1);
            assert_eq!(entries[0].0, "2");
        },
        _ => panic!("expected the remainder batch"),
    }
}

#[test]
fn test_iter_section_missing() {
    let save = sample_save();
    let msgs = handle_iter_section(&save, "nope".to_string(), 1);
    assert_eq!(msgs.len(), 2, "header and done only");
}

#[test]
fn test_handle_request_close_ends_session() {
    let save = sample_save();
    let (msgs, go_on) = handle_request(&save, Request::Close);
    assert!(!go_on);
    assert_eq!(msgs.len(), 1);
    assert!(matches!(&msgs[0], ResponseData::Closed));
}

#[test]
fn test_handle_request_get_entry() {
    let save = sample_save();
    let (msgs, go_on) = handle_request(
        &save,
        Request::GetEntry { section: "country".to_string(), key: "1".to_string() },
    );
    assert!(go_on);
    assert_eq!(msgs.len(), 1);
    match &msgs[0] {
        ResponseData::SingleEntry { entry, found } => {
            assert!(*found);
            assert_eq!(get(entry, "name").and_then(|v| v.as_str()), Some("Rivals"));
        },
        _ => panic!("expected a single entry"),
    }
}

#[test]
fn test_iter_section_lines_first_marked() {
    let save = sample_save();
    let lines = iter_section_lines(&save, &"country".to_string());
    assert_eq!(lines.len(), 3);
    match &lines[0] {
        IterLine::First { section, key, .. } => {
            assert_eq!(section, "country");
            assert_eq!(key, "0");
        },
        _ => panic!("first line should carry the section"),
    }
    match &lines[2] {
        IterLine::Rest { key, .. } => assert_eq!(key, "2"),
        _ => panic!("later lines carry only key and value"),
    }
}

#[test]
fn test_round_trip_flat_object() {
    let original = Value::Object(vec![
        ("plain".to_string(), Value::Str("hello world".to_string())),
        ("quoted".to_string(), Value::Str("a\"b".to_string())),
        ("slash".to_string(), Value::Str("a\\b".to_string())),
        ("flag".to_string(), Value::Bool(true)),
        ("off".to_string(), Value::Bool(false)),
        ("count".to_string(), Value::Num("42".to_string())),
        ("ratio".to_string(), Value::Num("-0.75".to_string())),
    ]);
    let text = to_assignments_text(&original).expect("flat scalar object serializes");
    let reparsed = parse(&text.as_bytes().to_vec()).expect("serialized text parses");
    assert_eq!(get(&reparsed, "plain").and_then(|v| v.as_str()), Some("hello world"));
    assert_eq!(get(&reparsed, "quoted").and_then(|v| v.as_str()), Some("a\"b"));
    assert_eq!(get(&reparsed, "slash").and_then(|v| v.as_str()), Some("a\\b"));
    assert_eq!(get(&reparsed, "flag").and_then(|v| v.as_bool()), Some(true));
    assert_eq!(get(&reparsed, "off").and_then(|v| v.as_bool()), Some(false));
    assert_eq!(get(&reparsed, "count").and_then(|v| v.as_num_str()), Some("42"));
    assert_eq!(get(&reparsed, "ratio").and_then(|v| v.as_num_str()), Some("-0.75"));
}

#[test]
fn test_serialize_rejects_nested() {
    let nested = Value::Object(vec![(
        "a".to_string(),
        Value::Object(vec![("b".to_string(), Value::Str("c".to_string()))]),
    )]);
    assert!(to_assignments_text(&nested).is_none());
}
