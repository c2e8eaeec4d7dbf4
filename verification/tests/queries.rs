use stellaris_parser::query::ParsedSave;
use stellaris_parser::value::Value;

fn sample_gamestate() -> Vec<u8> {
    let text = "version=\"3.8\"\ncountry={\n\t0={\n\t\tname=\"Empire\"\n\t\ttype=\"default\"\n\t\tfleet_size=12\n\t}\n\t1={\n\t\tname=\"Rivals\"\n\t\twar_in_heaven=yes\n\t}\n}\nfleet={\n\t7={\n\t\tname=\"First Fleet\"\n\t}\n}\nleaders={\n\t123=\n\t{\n\t\ttraits=\"trait_bold\"\n\t\ttraits=\"trait_calm\"\n\t\tname=\"Kass\"\n\t}\n}\n";
    text.as_bytes().to_vec()
}

fn sample_save() -> ParsedSave {
    ParsedSave::load(sample_gamestate(), None).expect("sample gamestate should parse")
}

fn get<'a>(v: &'a Value, key: &str) -> Option<&'a Value> {
    v.get(&key.to_string())
}

#[test]
fn test_load_retains_bytes() {
    let save = sample_save();
    assert_eq!(save.gamestate_bytes, sample_gamestate());
    assert!(save.meta.is_none());
}

#[test]
fn test_load_with_meta() {
    let save = ParsedSave::load(sample_gamestate(), Some(b"date=\"2200.01.01\"\n".to_vec()))
        .expect("meta should parse");
    let meta = save.meta.expect("meta should be retained");
    assert_eq!(get(&meta, "date").and_then(|v| v.as_str()), Some("2200.01.01"));
}

#[test]
fn test_extract_sections_metadata_and_sections() {
    let save = sample_save();
    let out = save.extract_sections(&vec!["country".to_string(), "unknown".to_string()]);
    assert_eq!(get(&out, "schema_version").and_then(|v| v.as_num_str()), Some("1"));
    assert_eq!(get(&out, "tool_version").and_then(|v| v.as_str()), Some("0.1.0"));
    assert_eq!(get(&out, "game").and_then(|v| v.as_str()), Some("stellaris"));
    assert!(get(&out, "country").is_some(), "known section should be present");
    assert!(get(&out, "unknown").is_none(), "unknown section should be omitted");
}

#[test]
fn test_extract_sections_meta_payload() {
    let save = ParsedSave::load(sample_gamestate(), Some(b"date=\"2200.01.01\"\n".to_vec()))
        .expect("meta should parse");
    let out = save.extract_sections(&vec!["meta".to_string()]);
    let meta = get(&out, "meta").expect("meta should be present");
    assert_eq!(get(meta, "date").and_then(|v| v.as_str()), Some("2200.01.01"));
}

#[test]
fn test_get_entry_found() {
    let save = sample_save();
    let (entry, found) = save.get_entry(&"country".to_string(), &"0".to_string());
    assert!(found);
    assert_eq!(get(&entry, "name").and_then(|v| v.as_str()), Some("Empire"));
}

#[test]
fn test_get_entry_missing() {
    let save = sample_save();
    let (entry, found) = save.get_entry(&"country".to_string(), &"99".to_string());
    assert!(!found);
    assert!(entry.as_str().is_none());
    let (_, found2) = save.get_entry(&"nope".to_string(), &"0".to_string());
    assert!(!found2);
}

#[test]
fn test_get_entries_projection() {
    let save = sample_save();
    let entries = save.get_entries(
        &"country".to_string(),
        &vec!["0".to_string(), "99".to_string(), "1".to_string()],
        &Some(vec!["name".to_string()]),
    );
    assert_eq!(entries.len(), 2, "missing keys are skipped silently");
    assert_eq!(get(&entries[0], "_key").and_then(|v| v.as_str()), Some("0"));
    assert_eq!(get(&entries[0], "name").and_then(|v| v.as_str()), Some("Empire"));
    assert!(get(&entries[0], "type").is_none(), "unrequested fields are dropped");
    assert_eq!(get(&entries[1], "_key").and_then(|v| v.as_str()), Some("1"));
}

#[test]
fn test_get_entries_without_fields() {
    let save = sample_save();
    let entries = save.get_entries(&"country".to_string(), &vec!["0".to_string()], &None);
    assert_eq!(entries.len(), 1);
    let value = get(&entries[0], "_value").expect("full entry should be wrapped");
    assert_eq!(get(value, "type").and_then(|v| v.as_str()), Some("default"));
}

#[test]
fn test_count_keys_nested_tree() {
    let text = b"a={\n\tx=1\n}\nb={\n\tx=2\n\ty={\n\t\tx=3\n\t}\n}\n".to_vec();
    let save = ParsedSave::load(text, None).expect("tree should parse");
    let counts = save.count_keys(&vec!["x".to_string()]);
    assert_eq!(counts.len(), 1);
    assert_eq!(counts[0].0, "x");
    assert_eq!(counts[0].1, 3);
}

#[test]
fn test_count_keys_multiple_names() {
    let save = sample_save();
    let counts = save.count_keys(&vec!["name".to_string(), "missing".to_string()]);
    assert_eq!(counts.len(), 2);
    assert_eq!(counts[0], ("name".to_string(), 4));
    assert_eq!(counts[1], ("missing".to_string(), 0));
}

#[test]
fn test_contains_tokens_presence() {
    let save = sample_save();
    let matches = save.contains_tokens(&vec!["fleet".to_string(), "nonexistent_xyz".to_string()]);
    assert_eq!(matches.len(), 2);
    assert_eq!(matches[0], ("fleet".to_string(), true));
    assert_eq!(matches[1], ("nonexistent_xyz".to_string(), false));
}

#[test]
fn test_contains_kv_matches() {
    let save = sample_save();
    let matches = save.contains_kv(&vec![
        ("war_in_heaven".to_string(), "yes".to_string()),
        ("name".to_string(), "Empire".to_string()),
        ("fleet_size".to_string(), "12".to_string()),
        ("name".to_string(), "Nobody".to_string()),
    ]);
    assert_eq!(matches.len(), 4);
    assert_eq!(matches[0], ("war_in_heaven=yes".to_string(), true));
    assert_eq!(matches[1], ("name=Empire".to_string(), true));
    assert_eq!(matches[2], ("fleet_size=12".to_string(), true));
    assert_eq!(matches[3], ("name=Nobody".to_string(), false));
}

#[test]
fn test_get_country_summaries_fields() {
    let save = sample_save();
    let countries = save.get_country_summaries(&vec!["name".to_string()]);
    assert_eq!(countries.len(), 2);
    assert_eq!(get(&countries[0], "id").and_then(|v| v.as_str()), Some("0"));
    assert_eq!(get(&countries[0], "name").and_then(|v| v.as_str()), Some("Empire"));
    assert_eq!(get(&countries[1], "id").and_then(|v| v.as_str()), Some("1"));
    assert_eq!(get(&countries[1], "name").and_then(|v| v.as_str()), Some("Rivals"));
}

#[test]
fn test_get_duplicate_values_in_order() {
    let save = sample_save();
    let (values, found, offset) = save.get_duplicate_values("leaders", "123", "traits", None);
    assert!(found);
    assert_eq!(values, vec!["trait_bold".to_string(), "trait_calm".to_string()]);
    assert!(offset.is_some(), "section offset should be handed back for reuse");
}

#[test]
fn test_duplicate_values_tree_collapses_to_last() {
    // The parsed tree holds only the last assignment, while the raw-text
    // extraction recovers every value in source order.
    let save = sample_save();
    let (entry, found) = save.get_entry(&"leaders".to_string(), &"123".to_string());
    assert!(found);
    assert_eq!(get(&entry, "traits").and_then(|v| v.as_str()), Some("trait_calm"));
    let (values, vfound, _) = save.get_duplicate_values("leaders", "123", "traits", None);
    assert!(vfound);
    assert_eq!(values, vec!["trait_bold".to_string(), "trait_calm".to_string()]);
}

#[test]
fn test_get_duplicate_values_missing_section() {
    let save = sample_save();
    let (values, found, offset) = save.get_duplicate_values("nope", "123", "traits", None);
    assert!(!found);
    assert!(values.is_empty());
    assert!(offset.is_none());
}

#[test]
fn test_get_duplicate_values_cached_offset() {
    let save = sample_save();
    let (_, _, offset) = save.get_duplicate_values("leaders", "123", "traits", None);
    let (values, found, _) = save.get_duplicate_values("leaders", "123", "traits", offset);
    assert!(found);
    assert_eq!(values, vec!["trait_bold".to_string(), "trait_calm".to_string()]);
}

#[test]
fn test_get_entry_text_verbatim() {
    let save = sample_save();
    let (text, found) = save.get_entry_text("country", "0", None);
    assert!(found);
    assert!(text.contains("name=\"Empire\""), "raw text should be verbatim: {}", text);
    assert!(text.starts_with("\n\t0="));
    assert!(text.ends_with("}"));
}

#[test]
fn test_get_entry_text_missing() {
    let save = sample_save();
    let (text, found) = save.get_entry_text("country", "42", None);
    assert!(!found);
    assert!(text.is_empty());
}
