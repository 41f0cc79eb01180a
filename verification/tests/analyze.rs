use argus_core::analyze::{
    build_request, first_words, parse_analysis, ANALYZE_BODY_WORDS, MAX_ENTITIES_PER_ARTICLE,
};
use argus_core::entity::EntityType;
use argus_core::error::CoreError;

const CLEAN: &str = r#"{
    "summary": "A chip maker reported record revenue.",
    "critical_analysis": "The piece leans on company guidance.",
    "fallacy_analysis": "Appeal to authority in paragraph four.",
    "source_analysis": "Only the CFO is quoted.",
    "entities": [
        {"name": "Nvidia", "type": "company"},
        {"name": "Jensen Huang", "type": "person"}
    ]
}"#;

#[test]
fn parses_a_clean_response() {
    let a = parse_analysis(CLEAN).unwrap();
    assert_eq!(a.summary, "A chip maker reported record revenue.");
    assert_eq!(a.critical_analysis, "The piece leans on company guidance.");
    assert_eq!(a.fallacy_analysis, "Appeal to authority in paragraph four.");
    assert_eq!(a.source_analysis, "Only the CFO is quoted.");
    assert_eq!(a.entities.len(), 2);
    assert_eq!(a.entities[0].entity_type, EntityType::Company);
    assert_eq!(a.entities[1].entity_type, EntityType::Person);
}

#[test]
fn parses_fenced_output_with_preamble_and_trailing_prose() {
    let raw = format!("Sure, here you go:\n```json\n{CLEAN}\n```\nLet me know!");
    let a = parse_analysis(&raw).unwrap();
    assert_eq!(a.entities.len(), 2);
}

#[test]
fn accepts_camel_case_keys() {
    let raw = r#"{"summary": "s", "criticalAnalysis": "c", "fallacyAnalysis": "f",
                  "sourceAnalysis": "so", "entities": []}"#;
    let a = parse_analysis(raw).unwrap();
    assert_eq!(a.critical_analysis, "c");
    assert_eq!(a.fallacy_analysis, "f");
    assert_eq!(a.source_analysis, "so");
}

#[test]
fn accepts_prose_delivered_as_a_list_or_object() {
    let raw = r#"{"summary": ["First sentence.", "Second sentence."],
                  "critical_analysis": {"text": "wrapped"},
                  "entities": []}"#;
    let a = parse_analysis(raw).unwrap();
    assert_eq!(a.summary, "First sentence. Second sentence.");
    assert_eq!(a.critical_analysis, "wrapped");
}

#[test]
fn accepts_entities_as_bare_strings_and_alternate_keys() {
    let raw = r#"{"summary": "s", "entities": ["Nvidia", {"entity": "Intel", "kind": "org"},
                  {"name": "  ", "type": "company"}, 42, null]}"#;
    let a = parse_analysis(raw).unwrap();
    assert_eq!(a.entities.len(), 2, "blank and non-entity entries dropped");
    assert_eq!(a.entities[0].name, "Nvidia");
    assert_eq!(a.entities[0].entity_type, EntityType::Other);
    assert_eq!(a.entities[1].name, "Intel");
    assert_eq!(a.entities[1].entity_type, EntityType::Company);
}

#[test]
fn missing_prose_fields_default_to_empty() {
    let a = parse_analysis(r#"{"summary": "just a summary"}"#).unwrap();
    assert_eq!(a.summary, "just a summary");
    assert!(a.critical_analysis.is_empty());
    assert!(a.fallacy_analysis.is_empty());
    assert!(a.source_analysis.is_empty());
    assert!(a.entities.is_empty());
}

#[test]
fn entities_only_is_enough() {
    let a = parse_analysis(r#"{"entities": [{"name": "Intel", "type": "company"}]}"#).unwrap();
    assert!(a.summary.is_empty());
    assert_eq!(a.entities.len(), 1);
}

#[test]
fn entity_list_is_capped() {
    let many: Vec<String> = (0..100).map(|i| format!("\"Entity {i}\"")).collect();
    let raw = format!(r#"{{"summary": "s", "entities": [{}]}}"#, many.join(","));
    let a = parse_analysis(&raw).unwrap();
    assert_eq!(a.entities.len(), MAX_ENTITIES_PER_ARTICLE);
}

#[test]
fn entities_as_a_string_instead_of_an_array_is_ignored_not_fatal() {
    let a = parse_analysis(r#"{"summary": "s", "entities": "Nvidia, Intel"}"#).unwrap();
    assert!(a.entities.is_empty());
    assert_eq!(a.summary, "s");
}

#[test]
fn no_json_object_is_permanent() {
    let err = parse_analysis("I read the article and it seemed fine.").unwrap_err();
    assert!(!err.is_transient());
    assert!(matches!(err, CoreError::AnalysisParse(_)));
}

#[test]
fn empty_analysis_object_is_permanent() {
    let err = parse_analysis(r#"{"critical_analysis": "", "entities": []}"#).unwrap_err();
    assert!(!err.is_transient());
}

#[test]
fn truncated_output_is_permanent_not_a_panic() {
    let err = parse_analysis(r#"{"summary": "it started well", "entities": [{"name": "Nv"#)
        .unwrap_err();
    assert!(matches!(err, CoreError::AnalysisParse(_)));
}

#[test]
fn body_is_capped_at_the_word_limit() {
    let body = (0..3000).map(|i| i.to_string()).collect::<Vec<_>>().join(" ");
    assert_eq!(first_words(&body).split_whitespace().count(), ANALYZE_BODY_WORDS);
}

#[test]
fn request_carries_the_system_prompt_and_routes_the_model() {
    let req = build_request(Some("strong".into()), "T", "b");
    assert_eq!(req.model.as_deref(), Some("strong"));
    assert!(req.system.unwrap().contains("critical_analysis"));
    assert!(req.user.contains("Article title: T"));
}

#[test]
fn prose_numbers_keep_their_text_and_objects_fall_back_to_value() {
    let a = parse_analysis(r#"{"summary": 42, "critical_analysis": {"value": "  v  "}}"#).unwrap();
    assert_eq!(a.summary, "42");
    assert_eq!(a.critical_analysis, "v");
}

#[test]
fn entity_types_are_parsed_from_plurals() {
    let a = parse_analysis(r#"{"entities": [{"name": " Acme ", "entity_type": "Companies"}]}"#).unwrap();
    assert_eq!(a.entities[0].name, "Acme");
    assert_eq!(a.entities[0].entity_type, EntityType::Company);
}
