use argus_core::decide::{
    build_request, first_words, keeps, parse_decision, DECIDE_BODY_WORDS, DECIDE_MAX_TOKENS,
};
use argus_core::error::CoreError;

#[test]
fn first_words_caps_at_limit() {
    let body = (0..600).map(|i| i.to_string()).collect::<Vec<_>>().join(" ");
    let fw = first_words(&body);
    assert_eq!(fw.split_whitespace().count(), DECIDE_BODY_WORDS);
}

#[test]
fn parses_clean_decision() {
    let d = parse_decision(r#"{"score": 73, "reason": "on topic"}"#).unwrap();
    assert_eq!(d.score, 73);
    assert_eq!(d.reason, "on topic");
}

#[test]
fn parses_sloppy_decision() {
    let d = parse_decision("Sure!\n```json\n{\"score\": \"88\"}\n```\nDone.").unwrap();
    assert_eq!(d.score, 88);
    assert_eq!(d.reason, "");
}

#[test]
fn clamps_and_rounds_score() {
    assert_eq!(parse_decision(r#"{"score": 150}"#).unwrap().score, 100);
    assert_eq!(parse_decision(r#"{"score": 49.6}"#).unwrap().score, 50);
    assert_eq!(parse_decision(r#"{"score": -5}"#).unwrap().score, 0);
}

#[test]
fn malformed_output_is_permanent() {
    let err = parse_decision("the article seems relevant").unwrap_err();
    assert!(!err.is_transient());
    let err2 = parse_decision(r#"{"reason": "no score here"}"#).unwrap_err();
    assert!(matches!(err2, CoreError::DecisionParse(_)));
}

#[test]
fn threshold_boundary_is_inclusive() {
    assert!(keeps(50, 50));
    assert!(keeps(51, 50));
    assert!(!keeps(49, 50));
    assert!(keeps(0, 0));
}

#[test]
fn score_rounds_half_away_from_zero() {
    assert_eq!(parse_decision(r#"{"score": 49.5}"#).unwrap().score, 50);
    assert_eq!(parse_decision(r#"{"score": 49.49}"#).unwrap().score, 49);
    assert_eq!(parse_decision(r#"{"score": 0.5}"#).unwrap().score, 1);
    assert_eq!(parse_decision(r#"{"score": 0.4}"#).unwrap().score, 0);
    assert_eq!(parse_decision(r#"{"score": -0.6}"#).unwrap().score, 0);
    assert_eq!(parse_decision(r#"{"score": 99.5}"#).unwrap().score, 100);
}

#[test]
fn string_scores_read_like_floats() {
    assert_eq!(parse_decision(r#"{"score": " 7.5e1 "}"#).unwrap().score, 75);
    assert_eq!(parse_decision(r#"{"score": "+.5"}"#).unwrap().score, 1);
    assert_eq!(parse_decision(r#"{"score": "1e999"}"#).is_err(), true);
    assert_eq!(parse_decision(r#"{"score": "1e-999"}"#).unwrap().score, 0);
    assert!(parse_decision(r#"{"score": "nan"}"#).is_err());
    assert!(parse_decision(r#"{"score": "inf"}"#).is_err());
    assert!(parse_decision(r#"{"score": "seventy"}"#).is_err());
    assert!(parse_decision(r#"{"score": true}"#).is_err());
    assert_eq!(parse_decision(r#"{"score": 1e2}"#).unwrap().score, 100);
}

#[test]
fn a_non_string_reason_reads_as_empty() {
    let d = parse_decision(r#"{"score": 10, "reason": 5}"#).unwrap();
    assert_eq!(d.score, 10);
    assert_eq!(d.reason, "");
}

#[test]
fn braces_inside_strings_do_not_end_the_object() {
    let d = parse_decision(r#"noise {"reason": "a } b \" {", "score": 61} trailing }"#).unwrap();
    assert_eq!(d.score, 61);
    assert_eq!(d.reason, "a } b \" {");
}

#[test]
fn the_request_carries_topic_title_and_capped_body() {
    let body = (0..600).map(|i| i.to_string()).collect::<Vec<_>>().join("  ");
    let req = build_request(Some("cheap".into()), "AI news", "T", &body);
    assert_eq!(req.model.as_deref(), Some("cheap"));
    assert_eq!(req.max_tokens, Some(DECIDE_MAX_TOKENS));
    assert!(req.system.unwrap().starts_with("You are a news relevance filter."));
    let expected = format!(
        "Topic relevance criteria:\nAI news\n\nArticle title: T\n\nArticle body (first 500 words):\n{}",
        (0..500).map(|i| i.to_string()).collect::<Vec<_>>().join(" ")
    );
    assert_eq!(req.user, expected);
}

#[test]
fn a_score_just_below_a_half_reads_as_the_half_like_an_f64() {
    let s = parse_decision(r#"{"score": "49.49999999999999999"}"#).unwrap();
    assert_eq!(s.score, 50);
    let s = parse_decision(r#"{"score": "49.4999999999999"}"#).unwrap();
    assert_eq!(s.score, 49);
    let s = parse_decision(r#"{"score": "0.49999999999999999"}"#).unwrap();
    assert_eq!(s.score, 1);
    let s = parse_decision(r#"{"score": "0.4999999999999999"}"#).unwrap();
    assert_eq!(s.score, 0);
}

#[test]
fn a_score_past_the_largest_f64_is_not_numeric() {
    assert!(parse_decision(r#"{"score": "1.7976931348623159e308"}"#).is_err());
    assert_eq!(parse_decision(r#"{"score": "1.7976931348623157e308"}"#).unwrap().score, 100);
    assert_eq!(parse_decision(r#"{"score": "-1.7976931348623157e308"}"#).unwrap().score, 0);
    assert!(parse_decision(r#"{"score": "-1.8e308"}"#).is_err());
}
