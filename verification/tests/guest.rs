use argus_core::guest::{computed_title, escape_json, extract_json_string, view_full_response, view_response};

#[test]
fn extracts_a_direct_string_and_a_value_object() {
    let json = r#"{"title":"Hello","fields":{"field_body":{"value":"Body text","format":"x"}}}"#;
    assert_eq!(extract_json_string(json, "title"), Some("Hello".to_string()));
    assert_eq!(extract_json_string(json, "field_body"), Some("Body text".to_string()));
    assert_eq!(extract_json_string(json, "missing"), None);
    assert_eq!(extract_json_string(r#"{"n":5}"#, "n"), None);
    assert_eq!(extract_json_string(r#"{"o":{"other":"x"}}"#, "o"), None);
    assert_eq!(extract_json_string(r#"{"t":"unterminated"#, "t"), None);
}

#[test]
fn extraction_needs_the_exact_key_pattern() {
    assert_eq!(extract_json_string(r#"{"title": "spaced"}"#, "title"), None);
    assert_eq!(extract_json_string(r#"{"subtitle":"a","title":"b"}"#, "title"), Some("b".to_string()));
}

#[test]
fn escaping_covers_quotes_backslashes_and_controls() {
    assert_eq!(escape_json("plain"), "plain");
    assert_eq!(escape_json("a\"b\\c\nd\re\tf"), "a\\\"b\\\\c\\nd\\re\\tf");
    assert_eq!(escape_json("é\u{1}"), "é\u{1}");
}

#[test]
fn the_handle_response_escapes_and_cuts_the_body() {
    let body = "x".repeat(150);
    let r = view_response("T \"q\"", &body);
    assert_eq!(
        r,
        format!(
            r#"{{"type":"container","children":[{{"type":"heading","level":1,"text":"T \"q\""}},{{"type":"markup","value":"{}"}}]}}"#,
            "x".repeat(100)
        )
    );
    assert_eq!(computed_title("Post"), "Processed: Post");
}

#[test]
fn the_full_response_reads_the_item_json() {
    let json = r#"{"title":"A","fields":{"field_body":{"value":"B"}}}"#;
    assert_eq!(
        view_full_response(json),
        r#"{"type":"container","children":[{"type":"heading","level":1,"text":"A"},{"type":"markup","value":"B"},{"field_computed":"Processed: A"}]}"#
    );
    assert_eq!(
        view_full_response("{}"),
        r#"{"type":"container","children":[{"type":"heading","level":1,"text":""},{"type":"markup","value":""},{"field_computed":"Processed: "}]}"#
    );
}
