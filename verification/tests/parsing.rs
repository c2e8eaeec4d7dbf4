use stellaris_parser::parser::parse;
use stellaris_parser::value::Value;

fn parse_ok(data: &[u8]) -> Value {
    parse(&data.to_vec()).expect("input should parse")
}

fn get<'a>(v: &'a Value, key: &str) -> Option<&'a Value> {
    v.get(&key.to_string())
}

#[test]
fn test_duplicate_keys() {
    let clausewitz_data = br#"
species={
    name="Human"
    traits={
        trait=trait_adaptive
        trait=trait_nomadic
        trait=trait_quick_learners
    }
}
"#;
    let parsed = parse(&clausewitz_data.to_vec())
        .expect("Should parse Clausewitz data with duplicate keys");
    let species = get(&parsed, "species").expect("species section should exist");
    assert!(get(species, "name").is_some(), "name should exist");
    let traits = get(species, "traits").expect("traits section should exist");
    let trait_value = get(traits, "trait").expect("trait key should exist");
    assert!(
        trait_value.as_str().is_some(),
        "trait should have a string value (last one wins): {:?}",
        trait_value.as_str()
    );
    assert_eq!(trait_value.as_str(), Some("trait_quick_learners"));
}

#[test]
fn test_duplicate_keys_no_parse_error() {
    let clausewitz_data = br#"
traits={
    trait="trait_organic"
    trait="trait_adaptive"
    trait="trait_nomadic"
    trait="trait_wasteful"
}
"#;
    let result = parse(&clausewitz_data.to_vec());
    assert!(result.is_ok(), "Parsing duplicate keys should not error");
    let parsed = result.unwrap();
    let traits = get(&parsed, "traits").expect("traits should exist");
    assert!(get(traits, "trait").is_some(), "trait key should exist");
}

#[test]
fn test_duplicate_keys_numeric() {
    let clausewitz_data = b"\nfleet_manager={\n    fleet=123\n    fleet=456\n    fleet=789\n}\n";
    let result = parse(&clausewitz_data.to_vec());
    assert!(result.is_ok(), "Parsing numeric duplicate keys should not error");
    let parsed = result.unwrap();
    let manager = get(&parsed, "fleet_manager").expect("fleet_manager should exist");
    assert!(get(manager, "fleet").is_some(), "fleet key should exist");
    assert_eq!(get(manager, "fleet").unwrap().as_num_str(), Some("789"));
}

#[test]
fn test_condensed_syntax() {
    let clausewitz_data = br#"data={name="test"value="42"enabled="yes"}"#;
    let parsed = parse_ok(clausewitz_data);
    let data = get(&parsed, "data").expect("data section should exist");
    assert_eq!(
        get(data, "name").and_then(|v| v.as_str()),
        Some("test"),
        "name should be 'test'"
    );
    assert_eq!(
        get(data, "value").and_then(|v| v.as_str()),
        Some("42"),
        "value should be '42'"
    );
    assert_eq!(
        get(data, "enabled").and_then(|v| v.as_str()),
        Some("yes"),
        "enabled should be 'yes'"
    );
}

#[test]
fn test_condensed_syntax_nested() {
    let clausewitz_data = br#"outer={inner={a="1"b="2"}c="3"}"#;
    let parsed = parse_ok(clausewitz_data);
    let outer = get(&parsed, "outer").expect("outer section should exist");
    let inner = get(outer, "inner").expect("inner section should exist");
    assert_eq!(get(inner, "a").and_then(|v| v.as_str()), Some("1"), "a should be '1'");
    assert_eq!(get(inner, "b").and_then(|v| v.as_str()), Some("2"), "b should be '2'");
    assert_eq!(get(outer, "c").and_then(|v| v.as_str()), Some("3"), "c should be '3'");
}

#[test]
fn test_condensed_syntax_quotes() {
    let clausewitz_data = br#"data={first="hello"second="world"count=5}"#;
    let parsed = parse_ok(clausewitz_data);
    let data = get(&parsed, "data").expect("data should exist");
    assert_eq!(get(data, "first").and_then(|v| v.as_str()), Some("hello"));
    assert_eq!(get(data, "second").and_then(|v| v.as_str()), Some("world"));
}

#[test]
fn test_escape_sequences() {
    let clausewitz_data = br#"empire={
    name="The \"Great\" Empire"
    path="C:\\Users\\Player\\saves"
}"#;
    let parsed = parse_ok(clausewitz_data);
    let empire = get(&parsed, "empire").expect("empire section should exist");
    let name = get(empire, "name").and_then(|v| v.as_str()).expect("name should be a string");
    assert!(
        name.contains("Great") || name.contains("\\\"Great\\\""),
        "name should contain 'Great' (possibly escaped): got '{}'",
        name
    );
    let path = get(empire, "path").and_then(|v| v.as_str()).expect("path should be a string");
    assert!(
        path.contains("Users") || path.contains("\\\\Users"),
        "path should contain 'Users': got '{}'",
        path
    );
}

#[test]
fn test_escape_sequences_simple() {
    let data1 = br#"test={value="hello \"world\""}"#;
    let parsed1 = parse(&data1.to_vec()).expect("Failed to parse simple escape");
    let test = get(&parsed1, "test").expect("test should exist");
    let value = get(test, "value").and_then(|v| v.as_str()).unwrap();
    assert!(value.contains("world"), "Should contain 'world': got '{}'", value);
    assert_eq!(value, "hello \"world\"");
}

#[test]
fn test_escape_sequences_backslash() {
    let data = br#"config={dir="C:\\Program Files\\Game"}"#;
    let parsed = parse(&data.to_vec()).expect("Failed to parse backslash escape");
    let config = get(&parsed, "config").expect("config should exist");
    let dir = get(config, "dir").and_then(|v| v.as_str()).unwrap();
    assert!(
        dir.contains("Program") && dir.contains("Game"),
        "Should contain path components: got '{}'",
        dir
    );
    assert_eq!(dir, "C:\\Program Files\\Game");
}

#[test]
fn test_empty_blocks() {
    let clausewitz_data = b"\nempty={}\nwith_empty={\n    nested={}\n    value=42\n}\n";
    let parsed = parse(&clausewitz_data.to_vec()).expect("Failed to parse empty blocks");
    assert!(get(&parsed, "empty").is_some(), "empty should exist");
    let with_empty = get(&parsed, "with_empty").expect("with_empty should exist");
    assert!(get(with_empty, "nested").is_some(), "nested should exist");
    assert!(get(with_empty, "value").is_some(), "value should exist");
}

#[test]
fn test_mixed_values() {
    let clausewitz_data =
        b"\nmixed={\n    id=12345\n    name=\"Test Empire\"\n    active=yes\n    ratio=0.75\n}\n";
    let parsed = parse(&clausewitz_data.to_vec()).expect("Failed to parse mixed values");
    let mixed = get(&parsed, "mixed").expect("mixed should exist");
    let id = get(mixed, "id").expect("id should exist");
    assert!(
        id.as_num_str().is_some() || id.as_str().is_some(),
        "id should be a number or string"
    );
    assert_eq!(get(mixed, "name").and_then(|v| v.as_str()), Some("Test Empire"));
    let active = get(mixed, "active").expect("active should exist");
    assert!(
        active.as_bool() == Some(true) || active.as_str() == Some("yes"),
        "active should be true/yes"
    );
    assert_eq!(get(mixed, "ratio").and_then(|v| v.as_num_str()), Some("0.75"));
}

#[test]
fn test_encoding_windows1252_basic() {
    let data = b"test={name=\"Hello\x92World\"}";
    let result = parse(&data.to_vec());
    assert!(result.is_ok(), "Windows-1252 encoded data should parse successfully");
    let parsed = result.unwrap();
    let test = get(&parsed, "test").expect("test should exist");
    let name = get(test, "name").and_then(|v| v.as_str()).unwrap();
    assert!(
        name.contains("Hello") && name.contains("World"),
        "Name should contain both parts: '{}'",
        name
    );
}

#[test]
fn test_encoding_ascii_passthrough() {
    let data = b"\nempire={\n    name=\"Test Empire\"\n    id=12345\n}\n";
    let result = parse(&data.to_vec());
    assert!(result.is_ok(), "ASCII data should parse successfully");
    let parsed = result.unwrap();
    let empire = get(&parsed, "empire").expect("empire should exist");
    assert_eq!(get(empire, "name").and_then(|v| v.as_str()), Some("Test Empire"));
}

#[test]
fn test_encoding_windows1252_special_range() {
    let data = b"test={currency=\"\x80\"ellipsis=\"\x85\"quote=\"\x93text\x94\"}";
    let result = parse(&data.to_vec());
    assert!(result.is_ok(), "Windows-1252 special characters should parse");
    let parsed = result.unwrap();
    let test = get(&parsed, "test").expect("test should exist");
    let currency = get(test, "currency").and_then(|v| v.as_str()).unwrap();
    assert!(currency.contains('\u{20AC}'), "Currency should contain Euro sign: '{}'", currency);
}

#[test]
fn test_encoding_color_codes() {
    let data = b"test={text=\"\x15BColored Text\x15!\"}";
    let result = parse(&data.to_vec());
    assert!(result.is_ok(), "Color codes should parse");
    let parsed = result.unwrap();
    let test = get(&parsed, "test").expect("test should exist");
    let text = get(test, "text").and_then(|v| v.as_str()).unwrap();
    assert!(text.contains("Colored Text"), "Text should contain 'Colored Text': '{}'", text);
}

#[test]
fn test_encoding_high_bytes() {
    let data = b"test={name=\"caf\xe9\"country=\"Espa\xf1a\"city=\"M\xfcnchen\"}";
    let result = parse(&data.to_vec());
    assert!(result.is_ok(), "Extended Latin characters should parse");
    let parsed = result.unwrap();
    let test = get(&parsed, "test").expect("test should exist");
    let name = get(test, "name").and_then(|v| v.as_str()).unwrap();
    assert!(name.contains("caf"), "Should contain 'caf': '{}'", name);
    let country = get(test, "country").and_then(|v| v.as_str()).unwrap();
    assert!(country.contains("Espa"), "Should contain 'Espa': '{}'", country);
}

#[test]
fn test_encoding_utf8_compatible() {
    let data = br#"test={name="Simple ASCII name"value=42}"#;
    let result = parse(&data.to_vec());
    assert!(result.is_ok(), "UTF-8 compatible data should parse");
    let parsed = result.unwrap();
    let test = get(&parsed, "test").expect("test should exist");
    assert_eq!(get(test, "name").and_then(|v| v.as_str()), Some("Simple ASCII name"));
}

#[test]
fn test_validate_json_strings() {
    let valid = Value::Object(vec![
        ("name".to_string(), Value::Str("test".to_string())),
        (
            "nested".to_string(),
            Value::Object(vec![
                (
                    "array".to_string(),
                    Value::Array(vec![
                        Value::Str("a".to_string()),
                        Value::Str("b".to_string()),
                        Value::Str("c".to_string()),
                    ]),
                ),
                ("number".to_string(), Value::Num("42".to_string())),
            ]),
        ),
    ]);
    assert!(
        stellaris_parser::value::validate_json_strings(&valid),
        "Valid JSON should pass validation"
    );
}

#[test]
fn test_condensed_equals_spaced() {
    let condensed = parse_ok(br#"a={b="1"c="2"}"#);
    let spaced = parse_ok(b"a={\n  b=\"1\"\n  c=\"2\"\n}");
    for doc in [&condensed, &spaced] {
        let a = get(doc, "a").expect("a should exist");
        assert_eq!(get(a, "b").and_then(|v| v.as_str()), Some("1"));
        assert_eq!(get(a, "c").and_then(|v| v.as_str()), Some("2"));
    }
}

#[test]
fn test_every_byte_value_in_quoted_string() {
    for b in 0u8..=255u8 {
        if b == 0x22 || b == 0x5C {
            // The quote closes the string and the backslash starts an
            // escape; embedding them changes the shape of the input.
            continue;
        }
        let data = vec![b'k', b'=', b'"', b, b'"'];
        let parsed = parse(&data).unwrap_or_else(|_| panic!("byte {} should parse", b));
        let v = get(&parsed, "k").expect("key should exist");
        let s = v.as_str().expect("value should be a string");
        assert!(!s.is_empty(), "decoded string for byte {} should be non-empty", b);
    }
}

#[test]
fn test_condensed_after_block() {
    // Tokens packed with no separating whitespace parse like their
    // whitespace-separated equivalents when quotes and braces give the
    // boundaries.
    let packed = parse_ok(br#"a={b="1"}c="3""#);
    let spaced = parse_ok(b"a = { b = \"1\" }\nc = \"3\"\n");
    for doc in [&packed, &spaced] {
        let a = get(doc, "a").expect("a should exist");
        assert_eq!(get(a, "b").and_then(|v| v.as_str()), Some("1"));
        assert_eq!(get(doc, "c").and_then(|v| v.as_str()), Some("3"));
    }
}

#[test]
fn test_unterminated_string_is_error() {
    assert!(parse(&b"a=\"unterminated".to_vec()).is_err());
}

#[test]
fn test_dangling_equals_is_error() {
    assert!(parse(&b"a=".to_vec()).is_err());
    assert!(parse(&b"={}".to_vec()).is_err());
}

#[test]
fn test_unbalanced_braces_are_errors() {
    assert!(parse(&b"a={".to_vec()).is_err());
    assert!(parse(&b"}".to_vec()).is_err());
}

#[test]
fn test_top_level_array_content_is_error() {
    assert!(parse(&b"1 2 3".to_vec()).is_err());
}

#[test]
fn test_array_block() {
    let parsed = parse_ok(b"xs={ 1 2 3 }");
    let xs = get(&parsed, "xs").expect("xs should exist");
    assert!(xs.as_str().is_none());
}

#[test]
fn test_error_position_line() {
    let err = parse(&b"a=\"ok\"\nb=\"bad".to_vec()).unwrap_err();
    assert_eq!(err.line, 2);
}
