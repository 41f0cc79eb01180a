use argus_core::entity::{
    candidate_prefixes, clean_name, levenshtein, match_key, max_edit_distance, normalize_all,
    EntityType, ExtractedEntity, MAX_ENTITY_NAME_LEN, MIN_FUZZY_LEN,
};

fn ex(name: &str, t: EntityType) -> ExtractedEntity {
    ExtractedEntity { name: name.into(), entity_type: t }
}

#[test]
fn match_key_folds_spacing_punctuation_and_case() {
    assert_eq!(match_key("OpenAI"), "openai");
    assert_eq!(match_key("Open A.I."), "openai");
    assert_eq!(match_key("open ai"), "openai");
    assert_eq!(match_key("OPENAI"), "openai");
}

#[test]
fn match_key_drops_leading_article_and_corporate_suffix() {
    assert_eq!(match_key("The Guardian"), "guardian");
    assert_eq!(match_key("Acme Corp"), "acme");
    assert_eq!(match_key("Acme Corporation"), "acme");
    assert_eq!(match_key("Acme Inc."), "acme");
    assert_eq!(match_key("Inc"), "inc");
    assert_eq!(match_key("The"), "the");
}

#[test]
fn match_key_drops_several_suffixes_but_not_the_last_word() {
    assert_eq!(match_key("Acme Co. Ltd"), "acme");
    assert_eq!(match_key("Co Ltd"), "co");
    assert_eq!(match_key("!!!"), "");
}

#[test]
fn clean_name_rejects_junk() {
    assert_eq!(clean_name("  OpenAI  ").as_deref(), Some("OpenAI"));
    assert_eq!(clean_name("\"OpenAI\",").as_deref(), Some("OpenAI"));
    assert_eq!(clean_name("Open   AI").as_deref(), Some("Open AI"));
    assert!(clean_name("").is_none());
    assert!(clean_name("   ").is_none());
    assert!(clean_name("12345").is_none());
    assert!(clean_name(&"x".repeat(MAX_ENTITY_NAME_LEN + 1)).is_none());
    assert!(clean_name(&"x".repeat(MAX_ENTITY_NAME_LEN)).is_some());
}

#[test]
fn entity_type_parse_is_tolerant() {
    assert_eq!(EntityType::parse("Person"), EntityType::Person);
    assert_eq!(EntityType::parse("people"), EntityType::Person);
    assert_eq!(EntityType::parse("ORGANIZATION"), EntityType::Company);
    assert_eq!(EntityType::parse(" companies "), EntityType::Company);
    assert_eq!(EntityType::parse("country"), EntityType::Place);
    assert_eq!(EntityType::parse("protocol"), EntityType::Technology);
    assert_eq!(EntityType::parse("banana"), EntityType::Other);
}

#[test]
fn entity_types_round_trip_through_their_column_values() {
    for t in [
        EntityType::Person,
        EntityType::Company,
        EntityType::Place,
        EntityType::Event,
        EntityType::Technology,
        EntityType::Other,
    ] {
        assert_eq!(EntityType::parse(t.as_str()), t);
    }
}

#[test]
fn normalize_all_dedupes_within_an_article() {
    let extracted = vec![
        ex("OpenAI", EntityType::Company),
        ex("Open A.I.", EntityType::Company),
        ex("  ", EntityType::Company),
        ex("OpenAI", EntityType::Place),
    ];
    let out = normalize_all(&extracted);
    assert_eq!(out.len(), 2);
    assert_eq!(out[0].match_key, "openai");
    assert_eq!(out[0].entity_type, EntityType::Company);
    assert_eq!(out[1].entity_type, EntityType::Place);
}

#[test]
fn levenshtein_known_values() {
    assert_eq!(levenshtein("kitten", "sitting"), 3);
    assert_eq!(levenshtein("", "abc"), 3);
    assert_eq!(levenshtein("abc", ""), 3);
    assert_eq!(levenshtein("abc", "abc"), 0);
}

#[test]
fn levenshtein_is_symmetric_and_counts_characters() {
    assert_eq!(levenshtein("flaw", "lawn"), 2);
    assert_eq!(levenshtein("lawn", "flaw"), 2);
    assert_eq!(levenshtein("über", "uber"), 1);
}

#[test]
fn the_edit_allowance_grows_with_length() {
    assert_eq!(max_edit_distance(MIN_FUZZY_LEN), 2);
    assert_eq!(max_edit_distance(9), 2);
    assert_eq!(max_edit_distance(18), 4);
    assert_eq!(max_edit_distance(30), 6);
}

#[test]
fn candidate_prefixes_are_deduped_and_short() {
    let entities = normalize_all(&[
        ex("OpenAI", EntityType::Company),
        ex("Open A.I.", EntityType::Place),
        ex("Nvidia", EntityType::Company),
        ex("Al", EntityType::Person),
    ]);
    let prefixes = candidate_prefixes(&entities);
    assert_eq!(prefixes, vec!["al".to_string(), "nvid".into(), "open".into()]);
    assert!(prefixes.iter().all(|p| p.chars().count() <= 4));
}
