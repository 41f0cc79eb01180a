use argus_core::error::CoreError;
use argus_core::judge::{build_request, parse_verdict, JUDGE_MAX_TOKENS};

const BEFORE: &str = "Reuters reported that the chip maker's datacenter revenue set a record \
    this quarter, driven by demand for accelerator hardware.";
const AFTER_MATERIAL: &str = "The chip maker has withdrawn its guidance after regulators \
    opened an antitrust investigation into its accelerator supply agreements.";

#[test]
fn the_prompt_carries_both_summaries_and_the_material_definition() {
    let req = build_request(Some("cheap".into()), BEFORE, AFTER_MATERIAL);
    assert_eq!(req.model.as_deref(), Some("cheap"));
    assert!(req.user.contains(BEFORE));
    assert!(req.user.contains(AFTER_MATERIAL));
    let system = req.system.unwrap();
    assert!(system.contains("rewording"));
    assert!(system.contains("ONLY a JSON object"));
    assert_eq!(req.max_tokens, Some(JUDGE_MAX_TOKENS));
}

#[test]
fn the_user_turn_is_exactly_framed() {
    let req = build_request(None, "a", "b");
    assert_eq!(req.user, "PREVIOUS SUMMARY:\na\n\nUPDATED SUMMARY:\nb\n");
    assert_eq!(req.model, None);
}

#[test]
fn parses_a_clean_verdict() {
    let v = parse_verdict(r#"{"material": true, "reason": "guidance withdrawn"}"#).unwrap();
    assert!(v.material);
    assert_eq!(v.reason, "guidance withdrawn");
}

#[test]
fn parses_a_fenced_verdict_and_the_alternate_key() {
    let v = parse_verdict("```json\n{\"changed\": false, \"reason\": \"reworded\"}\n```").unwrap();
    assert!(!v.material);
}

#[test]
fn accepts_a_stringly_typed_boolean() {
    for (raw, expected) in [
        (r#"{"material": "true"}"#, true),
        (r#"{"material": "YES"}"#, true),
        (r#"{"material": "false"}"#, false),
        (r#"{"material": " no "}"#, false),
        (r#"{"material": "Not Material"}"#, false),
    ] {
        assert_eq!(parse_verdict(raw).unwrap().material, expected, "{raw}");
    }
}

#[test]
fn a_verdict_with_no_material_key_is_a_permanent_parse_error() {
    let err = parse_verdict(r#"{"reason": "hmm"}"#).unwrap_err();
    assert!(!err.is_transient());
    assert!(matches!(err, CoreError::DecisionParse(_)));
}

#[test]
fn an_uninterpretable_answer_is_a_permanent_parse_error() {
    assert!(parse_verdict(r#"{"material": "maybe"}"#).is_err());
    assert!(parse_verdict("I cannot help with that.").is_err());
}

#[test]
fn a_missing_reason_is_tolerated() {
    assert_eq!(parse_verdict(r#"{"material": true}"#).unwrap().reason, "");
    assert_eq!(parse_verdict(r#"{"material": true, "reason": "  padded  "}"#).unwrap().reason, "padded");
}
