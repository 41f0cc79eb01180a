use argus_core::embed::{clamp_dimension, hash_slot, recipe_id, semantic_recipe_id, tokenize, MIN_TOKEN_LEN};

#[test]
fn tokenize_drops_short_tokens_and_stopwords() {
    let toks = tokenize("The quick brown fox, and a dog!");
    assert!(!toks.contains(&"the".to_string()));
    assert!(!toks.contains(&"and".to_string()));
    assert!(!toks.iter().any(|t| t.chars().count() < MIN_TOKEN_LEN));
    assert!(toks.contains(&"quick".to_string()));
    assert!(toks.contains(&"brown".to_string()));
}

#[test]
fn tokenize_splits_on_punctuation_and_urls() {
    let toks = tokenize("https://example.test/ai-safety_report");
    assert!(toks.contains(&"example".to_string()));
    assert!(toks.contains(&"safety".to_string()));
    assert!(toks.contains(&"report".to_string()));
}

#[test]
fn tokenize_keeps_order_and_lowercases() {
    assert_eq!(tokenize("Quick QUICK fox Über"), vec!["quick", "quick", "fox", "über"]);
    assert!(tokenize("").is_empty());
}

#[test]
fn recipe_id_embeds_the_dimension() {
    assert_eq!(recipe_id(256), "lex-v1/256");
    assert_ne!(recipe_id(256), recipe_id(512));
}

#[test]
fn semantic_recipes_name_the_model() {
    assert_eq!(semantic_recipe_id("text-embed-3"), "sem-v1/text-embed-3");
}

#[test]
fn dimensions_are_clamped() {
    assert_eq!(clamp_dimension(1), 32);
    assert_eq!(clamp_dimension(100_000), 2048);
    assert_eq!(clamp_dimension(300), 300);
}

#[test]
fn hash_slots_are_stable_and_in_range() {
    let (i, s) = hash_slot("quick", 256);
    assert!(i < 256);
    assert_eq!(hash_slot("quick", 256), (i, s));
    // SHA-256("abc") begins ba 78 16 bf 8f: 0xba7816bf % 1000 = 3124207551 % 1000.
    assert_eq!(hash_slot("abc", 1000), ((0xba78_16bfu64 % 1000) as usize, true));
}
