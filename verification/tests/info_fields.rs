use mp4box::info::{parse_compatible_brands, parse_string_field, parse_u32_field, parse_u64_field};

#[test]
fn parse_u64_field_extracts_number() {
    let s = "timescale=600000 duration=65536";
    assert_eq!(parse_u64_field(s, "timescale="), Some(600000));
    assert_eq!(parse_u64_field(s, "duration="), Some(65536));
    assert_eq!(parse_u64_field(s, "missing="), None);
}

#[test]
fn parse_u32_field_clamps_to_u32() {
    let s = "timescale=12345";
    assert_eq!(parse_u32_field(s, "timescale="), Some(12345));
}

#[test]
fn parse_string_field_basic() {
    let s = "major=isom minor=512";
    assert_eq!(parse_string_field(s, "major="), Some("isom".to_string()));
    assert_eq!(parse_string_field(s, "minor="), Some("512".to_string()));
    assert_eq!(parse_string_field(s, "missing="), None);
}

#[test]
fn parse_string_field_trims_quotes() {
    let s = r#"language="und""#;
    assert_eq!(parse_string_field(s, "language="), Some("und".to_string()));
}

#[test]
fn parse_compatible_brands_parses_list() {
    let s = r#"major=isom minor=512 compatible=["isom", "iso2", "avc1", "mp41"]"#;
    let brands = parse_compatible_brands(s).unwrap();
    assert_eq!(brands, vec!["isom", "iso2", "avc1", "mp41"]);
}

#[test]
fn parse_compatible_brands_empty() {
    let s = r#"compatible=[]"#;
    let brands = parse_compatible_brands(s).unwrap();
    assert!(brands.is_empty());
}

#[test]
fn u64_field_rejects_overflow_and_missing_digits() {
    assert_eq!(parse_u64_field("n=18446744073709551615", "n="), Some(u64::MAX));
    assert_eq!(parse_u64_field("n=18446744073709551616", "n="), None);
    assert_eq!(parse_u64_field("n=x12", "n="), None);
    assert_eq!(parse_u64_field("n=12x", "n="), Some(12));
}

#[test]
fn u32_field_refuses_values_above_u32() {
    assert_eq!(parse_u32_field("t=4294967295", "t="), Some(u32::MAX));
    assert_eq!(parse_u32_field("t=4294967296", "t="), None);
}

#[test]
fn string_field_skips_leading_space_and_stops_at_space() {
    assert_eq!(parse_string_field("k=   value rest", "k="), Some("value".to_string()));
    assert_eq!(parse_string_field("k=   ", "k="), None);
    assert_eq!(parse_string_field("k=\"\"\"", "k="), Some(String::new()));
}

#[test]
fn compatible_brands_drop_empty_items_and_need_a_closing_bracket() {
    assert_eq!(parse_compatible_brands("compatible=[\"a\", , \"b\"]"), Some(vec!["a".to_string(), "b".to_string()]));
    assert_eq!(parse_compatible_brands("compatible=[\"a\""), None);
    assert_eq!(parse_compatible_brands("brands=[a]"), None);
    assert_eq!(parse_compatible_brands("compatible=[   ]"), Some(vec![]));
}
