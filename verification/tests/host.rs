use argus_core::host::StubHostState;
use argus_core::json::Json;

fn to_json(v: serde_json::Value) -> Json {
    match v {
        serde_json::Value::Null => Json::Null,
        serde_json::Value::Bool(b) => Json::Bool(b),
        serde_json::Value::Number(n) => Json::Number(n.to_string()),
        serde_json::Value::String(s) => Json::Str(s),
        serde_json::Value::Array(a) => Json::Array(a.into_iter().map(to_json).collect()),
        serde_json::Value::Object(m) => Json::Object(m.into_iter().map(|(k, x)| (k, to_json(x))).collect()),
    }
}

fn parse_json(text: &str) -> Option<Json> {
    serde_json::from_str::<serde_json::Value>(text).ok().map(to_json)
}


fn item(text: &str) -> Json {
    parse_json(text).expect("test JSON parses")
}

#[test]
fn stub_host_state_operations() {
    let mut state = StubHostState::new();

    state.log_message("info", "test", "hello world");
    assert_eq!(state.log_buffer.len(), 1);
    assert_eq!(state.log_buffer[0], "[info] test: hello world");

    assert_eq!(state.get_variable("missing", "default"), "default");
    state.set_variable("site_name", "Trovato");
    assert_eq!(state.get_variable("site_name", "default"), "Trovato");

    assert!(!state.user_has_permission("admin"));
    state.permissions.push(("admin".to_string(), true));
    assert!(state.user_has_permission("admin"));
}

#[test]
fn stub_host_state_item_operations() {
    let mut state = StubHostState::new();
    let it = item(r#"{"id": "test-123", "type": "blog", "title": "Test Post",
        "fields": {"field_body": {"value": "Hello world"}, "field_rating": {"value": 5}}}"#);
    state.load_item(0, it);

    assert_eq!(state.get_title(0), Some("Test Post".to_string()));
    assert_eq!(state.get_type(0), Some("blog".to_string()));
    assert_eq!(state.get_id(0), Some("test-123".to_string()));
    assert_eq!(state.get_field_string(0, "field_body"), Some("Hello world".to_string()));
    assert_eq!(state.get_field_int(0, "field_rating"), Some(5));

    state.set_field_string(0, "field_body", "Updated content");
    assert_eq!(state.get_field_string(0, "field_body"), Some("Updated content".to_string()));
}

#[test]
fn a_fresh_state_is_empty_and_anonymous() {
    let state = StubHostState::default();
    assert!(state.items.is_empty() && state.variables.is_empty() && state.log_buffer.is_empty());
    assert_eq!(state.current_user_id, "anonymous");
    assert_eq!(state.get_title(7), None);
    assert_eq!(state.get_request_context("k"), None);
    assert_eq!(state.db_query("{}"), Ok("[]".to_string()));
}

#[test]
fn a_field_can_be_a_bare_string_and_numbers_read_as_integers_only() {
    let mut state = StubHostState::new();
    state.load_item(3, item(r#"{"fields": {"plain": "text", "price": {"value": 29.99},
        "count": {"value": -12}, "nested": {"value": {"a": 1}}}}"#));
    assert_eq!(state.get_field_string(3, "plain"), Some("text".to_string()));
    assert_eq!(state.get_field_string(3, "nested"), None);
    assert_eq!(state.get_field_int(3, "price"), None);
    assert_eq!(state.get_field_int(3, "count"), Some(-12));
    assert_eq!(state.get_field_json(3, "nested"), Some(r#"{"value":{"a":1}}"#.to_string()));
    assert_eq!(state.get_field_json(3, "missing"), None);
    assert_eq!(state.get_title(3), None);
}

#[test]
fn writes_go_through_and_leave_everything_else_alone() {
    let mut state = StubHostState::new();
    state.load_item(1, item(r#"{"title": "Old", "fields": {"a": {"value": "x"}}}"#));
    state.load_item(2, item(r#"{"title": "Other"}"#));
    state.set_field_int(1, "count", -42);
    assert_eq!(state.get_field_int(1, "count"), Some(-42));
    assert_eq!(state.get_field_json(1, "count"), Some(r#"{"value":-42}"#.to_string()));
    assert_eq!(state.get_field_string(1, "a"), Some("x".to_string()));
    state.set_title(1, "New");
    assert_eq!(state.get_title(1), Some("New".to_string()));
    assert_eq!(state.get_title(2), Some("Other".to_string()));
    // An item with no fields member takes no field writes.
    state.set_field_string(2, "a", "y");
    assert_eq!(state.get_field_string(2, "a"), None);
    // Loading again replaces the item.
    state.load_item(1, item(r#"{"title": "Replaced"}"#));
    assert_eq!(state.get_title(1), Some("Replaced".to_string()));
    assert_eq!(state.items.len(), 2);
}

#[test]
fn a_null_item_becomes_an_object_when_titled() {
    let mut state = StubHostState::new();
    state.load_item(5, Json::Null);
    state.set_title(5, "Made");
    assert_eq!(state.get_title(5), Some("Made".to_string()));
    state.load_item(6, item(r#"{"fields": null}"#));
    state.set_field_string(6, "f", "v");
    assert_eq!(state.get_field_string(6, "f"), Some("v".to_string()));
}

#[test]
fn the_request_context_reads_back_what_was_written() {
    let mut state = StubHostState::new();
    state.set_request_context("user", "u1");
    state.set_request_context("user", "u2");
    state.set_request_context("lang", "en");
    assert_eq!(state.get_request_context("user"), Some("u2".to_string()));
    assert_eq!(state.get_request_context("lang"), Some("en".to_string()));
    assert_eq!(state.request_context.len(), 2);
}
