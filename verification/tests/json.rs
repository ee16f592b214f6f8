use gorgeous::config::PrinterConfig;
use gorgeous::json::{prettify_json, prettify_json_range, JsonParser};

#[test]
fn test_prettify_null() {
    let config = PrinterConfig::default();
    let result = prettify_json("null", &config).unwrap();
    assert_eq!(result.trim(), "null");
}

#[test]
fn test_prettify_string() {
    let config = PrinterConfig::default();
    let result = prettify_json(r#""hello""#, &config).unwrap();
    assert_eq!(result.trim(), r#""hello""#);
}

#[test]
fn test_prettify_number() {
    let config = PrinterConfig::default();
    let result = prettify_json("42", &config).unwrap();
    assert_eq!(result.trim(), "42");
}

#[test]
fn test_prettify_simple_array() {
    let config = PrinterConfig::default();
    let result = prettify_json("[1, 2, 3]", &config).unwrap();
    assert!(result.contains("1"));
    assert!(result.contains("2"));
    assert!(result.contains("3"));
}

#[test]
fn test_prettify_simple_object() {
    let config = PrinterConfig::default();
    let result = prettify_json(r#"{"a": 1, "b": 2}"#, &config).unwrap();
    assert!(result.contains(r#""a""#));
    assert!(result.contains("1"));
}

#[test]
fn test_idempotent() {
    let config = PrinterConfig::default();
    let input = r#"{"key": [1, 2, {"nested": true}]}"#;
    let first = prettify_json(input, &config).unwrap();
    let second = prettify_json(&first, &config).unwrap();
    assert_eq!(first, second, "prettify should be idempotent");
}

#[test]
fn test_nested_json_output() {
    let config = PrinterConfig::default();
    let input = r#"{"users": [{"id": 1, "name": "Alice", "email": "alice@example.com", "active": true}, {"id": 2, "name": "Bob", "email": "bob@example.com", "active": false}], "total": 2, "page": 1}"#;
    let result = prettify_json(input, &config).unwrap();
    // Each object in the array should be on its own line
    assert!(result.contains("},\n"), "Objects in array should be on separate lines:\n{}", result);
    // Verify idempotency
    let second = prettify_json(&result, &config).unwrap();
    assert_eq!(result, second, "nested JSON prettify should be idempotent");
}

#[test]
fn test_json_formatting_samples() {
    let config = PrinterConfig::default();
    // Short objects stay inline
    let simple = prettify_json(r#"{"a": 1, "b": 2}"#, &config).unwrap();
    assert_eq!(simple.trim(), r#"{"a": 1, "b": 2}"#);
    // Deeply nested small objects stay inline
    let deep = prettify_json(r#"{"a": {"b": {"c": {"d": 1}}}}"#, &config).unwrap();
    assert_eq!(deep.trim(), r#"{"a": {"b": {"c": {"d": 1}}}}"#);
}

#[test]
fn test_minified_equals_pretty() {
    let config = PrinterConfig::default();
    let minified = r#"{"a":1,"b":[2,3],"c":{"d":"e"}}"#;
    let pretty = r#"{ "a": 1, "b": [2, 3], "c": { "d": "e" } }"#;
    let from_min = prettify_json(minified, &config).unwrap();
    let from_pretty = prettify_json(pretty, &config).unwrap();
    // Both should produce structurally equivalent output.
    assert_eq!(from_min.trim(), from_pretty.trim());
}

#[test]
fn json_exact_layouts() {
    let config = PrinterConfig::default();
    assert_eq!(prettify_json(" [ ] ", &config).unwrap(), "[]");
    assert_eq!(prettify_json("{ }", &config).unwrap(), "{}");
    assert_eq!(prettify_json("[true,false,null,-0.5e+3]", &config).unwrap(), "[true, false, null, -0.5e+3]");
    let narrow = PrinterConfig { max_width: 10, indent: 2, use_tabs: false };
    assert_eq!(prettify_json("[1000, 2000, 3000]", &narrow).unwrap(), "[\n  1000,\n  2000,\n  3000\n]");
    let medium = PrinterConfig { max_width: 16, indent: 2, use_tabs: false };
    assert_eq!(
        prettify_json(r#"{"k": [1, 2], "long": "abcdef"}"#, &medium).unwrap(),
        "{\n  \"k\": [1, 2],\n  \"long\": \"abcdef\"\n}"
    );
}

#[test]
fn json_rejects_what_is_not_json() {
    let config = PrinterConfig::default();
    for bad in ["", "nul", "[,]", "[1,,2]", "{\"a\" 1}", "{a: 1}", "\"\\x\"", "\"abc", "{,}", "tru", "x[1]", "[1"] {
        assert!(prettify_json(bad, &config).is_none(), "{bad:?} should be refused");
        assert!(JsonParser::value(bad).is_none(), "{bad:?} should be refused");
    }
    // The value at the start is read; what follows it is not.
    assert_eq!(prettify_json("[1] x", &config).unwrap(), "[1]");
    assert_eq!(prettify_json("01", &config).unwrap(), "0");
    assert_eq!(prettify_json("1.", &config).unwrap(), "1");
    for good in ["0", "-0", "1e5", "1E-5", "\"\\u00e9\\n\"", "[[[]]]", "{\"a\":{\"b\":[]}}", " \t\n true \r\n"] {
        assert!(JsonParser::value(good).is_some(), "{good:?} should parse");
    }
}

#[test]
fn json_formatting_changes_only_white_space() {
    let strip = |t: &str| t.chars().filter(|c| !matches!(c, ' ' | '\t' | '\n' | '\r')).collect::<String>();
    let input = r#"{"users": [{"id": 1, "name": "Alice", "tags": ["a", "b"]}, {"id": 2, "name": "Bob", "tags": []}], "total": 2}"#;
    for width in [80, 20, 5] {
        let config = PrinterConfig { max_width: width, indent: 4, use_tabs: false };
        let out = prettify_json(input, &config).unwrap();
        assert_eq!(strip(&out), strip(input), "at width {width}");
    }
}

#[test]
fn json_range_formats_only_overlapping_containers() {
    let config = PrinterConfig::default();
    let input = r#"{"a": [1,2], "b": [3,   4]}"#;
    // Positions 6..9 lie inside the first array only.
    assert_eq!(prettify_json_range(input, 6..9, &config).unwrap(), r#"{"a": [1, 2], "b": [3,   4]}"#);
    // Positions 20..22 lie inside the second array only.
    assert_eq!(prettify_json_range(input, 20..22, &config).unwrap(), r#"{"a": [1,2], "b": [3, 4]}"#);
    // The whole text formats as the full formatter does.
    let len = input.chars().count();
    assert_eq!(prettify_json_range(input, 0..len, &config), prettify_json(input, &config));
    // A range that misses the value keeps it as written.
    assert_eq!(prettify_json_range("  [1,2]", 0..1, &config).unwrap(), "[1,2]");
    assert!(prettify_json_range("[1,", 0..3, &config).is_none());
}

#[test]
fn json_commas_between_items_are_optional() {
    let config = PrinterConfig::default();
    assert_eq!(prettify_json("[1 2]", &config).unwrap(), "[1, 2]");
    assert_eq!(prettify_json("[1,]", &config).unwrap(), "[1]");
    assert_eq!(prettify_json("[1, 2,]", &config).unwrap(), "[1, 2]");
    assert_eq!(prettify_json("{\"a\":1,}", &config).unwrap(), "{\"a\": 1}");
    assert_eq!(prettify_json("{\"a\":1 \"b\":[true false]}", &config).unwrap(), "{\"a\": 1, \"b\": [true, false]}");
}

#[test]
fn json_range_keeps_text_it_misses() {
    let config = PrinterConfig::default();
    let input = r#"{"a":[1,2]}"#;
    assert_eq!(prettify_json_range(input, 0..0, &config).unwrap(), input);
    let n = input.chars().count();
    assert_eq!(prettify_json_range(input, n..n + 3, &config).unwrap(), input);
    // Range formatting fails exactly where full formatting does.
    for text in ["", "[1,", "{\"a\" 1}", "[1 2]", "true"] {
        assert_eq!(prettify_json_range(text, 0..1, &config).is_none(), prettify_json(text, &config).is_none(), "{text:?}");
    }
}
