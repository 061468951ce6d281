//! Positions of values in JSON text.
use nota_bene::json_path::{json_path_range, JsonPathSegment, LineIndex};
use std::ops::Range;

fn segment(key: &str) -> JsonPathSegment {
    JsonPathSegment::from(key)
}

fn index(position: usize) -> JsonPathSegment {
    JsonPathSegment::from(position)
}

fn slice(text: &str, range: Range<usize>) -> &str {
    &text[range]
}

// json_path_range

#[test]
fn root_level_key() {
    let text = r#"{"name": "Alice", "age": 30}"#;
    let range = json_path_range(text, &vec![segment("name")]).unwrap();
    assert_eq!(slice(text, range), r#""Alice""#);
}

#[test]
fn root_level_numeric_value() {
    let text = r#"{"name": "Alice", "age": 30}"#;
    let range = json_path_range(text, &vec![segment("age")]).unwrap();
    assert_eq!(slice(text, range), "30");
}

#[test]
fn nested_object_key() {
    let text = r#"{"a": {"b": {"c": 42}}}"#;
    let range = json_path_range(text, &vec![segment("a"), segment("b"), segment("c")]).unwrap();
    assert_eq!(slice(text, range), "42");
}

#[test]
fn array_index() {
    let text = r#"[10, 20, 30]"#;
    let range = json_path_range(text, &vec![index(1)]).unwrap();
    assert_eq!(slice(text, range), "20");
}

#[test]
fn array_of_objects_nested_key() {
    // Simulates the .ipynb pattern: cells[0].source
    let text = r#"{"cells": [{"source": "print(1)"}, {"source": "print(2)"}]}"#;
    let range = json_path_range(text, &vec![segment("cells"), index(0), segment("source")]).unwrap();
    assert_eq!(slice(text, range), r#""print(1)""#);

    let range2 = json_path_range(text, &vec![segment("cells"), index(1), segment("source")]).unwrap();
    assert_eq!(slice(text, range2), r#""print(2)""#);
}

#[test]
fn missing_key_returns_none() {
    let text = r#"{"a": 1}"#;
    assert!(json_path_range(text, &vec![segment("b")]).is_none());
}

#[test]
fn array_index_out_of_bounds_returns_none() {
    let text = r#"[1, 2, 3]"#;
    assert!(json_path_range(text, &vec![index(5)]).is_none());
}

#[test]
fn key_on_array_returns_none() {
    let text = r#"[1, 2, 3]"#;
    assert!(json_path_range(text, &vec![segment("key")]).is_none());
}

#[test]
fn index_on_object_returns_none() {
    let text = r#"{"a": 1}"#;
    assert!(json_path_range(text, &vec![index(0)]).is_none());
}

#[test]
fn invalid_json_returns_none() {
    assert!(json_path_range("{not valid json", &vec![segment("a")]).is_none());
}

#[test]
fn empty_string_returns_none() {
    assert!(json_path_range("", &vec![segment("a")]).is_none());
}

#[test]
fn empty_path_returns_root_range() {
    let text = r#"{"a": 1}"#;
    let range = json_path_range(text, &vec![]).unwrap();
    assert_eq!(slice(text, range), text);
}

#[test]
fn empty_path_on_array() {
    let text = r#"[1, 2]"#;
    let range = json_path_range(text, &vec![]).unwrap();
    assert_eq!(slice(text, range), text);
}

#[test]
fn null_value() {
    let text = r#"{"x": null}"#;
    let range = json_path_range(text, &vec![segment("x")]).unwrap();
    assert_eq!(slice(text, range), "null");
}

#[test]
fn boolean_values() {
    let text = r#"{"t": true, "f": false}"#;
    assert_eq!(
        slice(text, json_path_range(text, &vec![segment("t")]).unwrap()),
        "true"
    );
    assert_eq!(
        slice(text, json_path_range(text, &vec![segment("f")]).unwrap()),
        "false"
    );
}

#[test]
fn empty_array_index_returns_none() {
    let text = r#"[]"#;
    assert!(json_path_range(text, &vec![index(0)]).is_none());
}

#[test]
fn empty_object_key_returns_none() {
    let text = r#"{}"#;
    assert!(json_path_range(text, &vec![segment("a")]).is_none());
}

#[test]
fn empty_string_key() {
    let text = r#"{"": "empty key value"}"#;
    let range = json_path_range(text, &vec![segment("")]).unwrap();
    assert_eq!(slice(text, range), r#""empty key value""#);
}

#[test]
fn unicode_and_special_chars_in_key() {
    let text = "{\" emoji\u{1F600}\": 99}";
    let range = json_path_range(text, &vec![segment(" emoji\u{1F600}")]).unwrap();
    assert_eq!(slice(text, range), "99");
}

#[test]
fn escaped_key_in_json() {
    // The JSON key "a\nb" (with literal backslash-n) decodes to "a\nb"
    // (with a real newline). We look up the decoded key.
    let text = r#"{"a\nb": "value"}"#;
    let range = json_path_range(text, &vec![segment("a\nb")]).unwrap();
    assert_eq!(slice(text, range), r#""value""#);
}

#[test]
fn multiline_json_offsets_span_lines() {
    let text = "{\n  \"key\": \"value\"\n}";
    let range = json_path_range(text, &vec![segment("key")]).unwrap();
    assert_eq!(slice(text, range.clone()), r#""value""#);
    // Offset must be beyond the first newline (byte 1)
    assert!(range.start > 1);
}

#[test]
fn deeply_nested_missing_intermediate_key() {
    let text = r#"{"a": {"b": 1}}"#;
    assert!(json_path_range(text, &vec![segment("a"), segment("c"), segment("d")]).is_none());
}

#[test]
fn path_through_null_returns_none() {
    let text = r#"{"a": null}"#;
    assert!(json_path_range(text, &vec![segment("a"), segment("b")]).is_none());
}

#[test]
fn array_first_element() {
    let text = r#"["first", "second"]"#;
    let range = json_path_range(text, &vec![index(0)]).unwrap();
    assert_eq!(slice(text, range), r#""first""#);
}

#[test]
fn array_last_element() {
    let text = r#"[1, 2, 3]"#;
    let range = json_path_range(text, &vec![index(2)]).unwrap();
    assert_eq!(slice(text, range), "3");
}

#[test]
fn nested_arrays() {
    let text = r#"[[1, 2], [3, 4]]"#;
    let range = json_path_range(text, &vec![index(1), index(0)]).unwrap();
    assert_eq!(slice(text, range), "3");
}

#[test]
fn value_is_array() {
    let text = r#"{"arr": [1, 2, 3]}"#;
    let range = json_path_range(text, &vec![segment("arr")]).unwrap();
    assert_eq!(slice(text, range), "[1, 2, 3]");
}

#[test]
fn value_is_object() {
    let text = r#"{"obj": {"x": 1}}"#;
    let range = json_path_range(text, &vec![segment("obj")]).unwrap();
    assert_eq!(slice(text, range), r#"{"x": 1}"#);
}

// LineIndex

#[test]
fn line_index_single_line() {
    let idx = LineIndex::new("hello world");
    assert_eq!(idx.offset_to_position(0), (0, 0));
    assert_eq!(idx.offset_to_position(5), (0, 5));
    assert_eq!(idx.offset_to_position(10), (0, 10));
    assert_eq!(idx.line_count(), 1);
}

#[test]
fn line_index_multi_line() {
    // "abc\ndef\nghi"
    //  0123 456 7 89 10
    let text = "abc\ndef\nghi";
    let idx = LineIndex::new(text);
    assert_eq!(idx.line_count(), 3);
    assert_eq!(idx.offset_to_position(0), (0, 0)); // 'a'
    assert_eq!(idx.offset_to_position(2), (0, 2)); // 'c'
    assert_eq!(idx.offset_to_position(3), (0, 3)); // '\n'
    assert_eq!(idx.offset_to_position(4), (1, 0)); // 'd' (start of line 1)
    assert_eq!(idx.offset_to_position(6), (1, 2)); // 'f'
    assert_eq!(idx.offset_to_position(8), (2, 0)); // 'g'
    assert_eq!(idx.offset_to_position(10), (2, 2)); // 'i'
}

#[test]
fn line_index_position_at_line_start() {
    let text = "foo\nbar\nbaz";
    let idx = LineIndex::new(text);
    // Line 1 starts at offset 4
    assert_eq!(idx.offset_to_position(4), (1, 0));
    // Line 2 starts at offset 8
    assert_eq!(idx.offset_to_position(8), (2, 0));
}

#[test]
fn line_index_empty_string() {
    let idx = LineIndex::new("");
    assert_eq!(idx.line_count(), 1);
    assert_eq!(idx.offset_to_position(0), (0, 0));
}

#[test]
fn line_index_trailing_newline() {
    let text = "foo\n";
    let idx = LineIndex::new(text);
    assert_eq!(idx.line_count(), 2);
    assert_eq!(idx.offset_to_position(3), (0, 3)); // '\n' character
    assert_eq!(idx.offset_to_position(4), (1, 0)); // past the newline
}

#[test]
fn line_index_only_newlines() {
    let text = "\n\n\n";
    let idx = LineIndex::new(text);
    assert_eq!(idx.line_count(), 4);
    assert_eq!(idx.offset_to_position(0), (0, 0));
    assert_eq!(idx.offset_to_position(1), (1, 0));
    assert_eq!(idx.offset_to_position(2), (2, 0));
    assert_eq!(idx.offset_to_position(3), (3, 0));
}
