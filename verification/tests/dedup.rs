use argus_core::dedup::{content_hash, normalize};

#[test]
fn stable_and_hex() {
    let h = content_hash("Title", "Body");
    assert_eq!(h.len(), 64);
    assert!(h.chars().all(|c| c.is_ascii_hexdigit()));
    assert_eq!(h, content_hash("Title", "Body"));
}

#[test]
fn whitespace_and_case_insensitive() {
    assert_eq!(
        content_hash("Hello  World", "The\n\n Body"),
        content_hash("hello world", "the body")
    );
}

#[test]
fn field_boundary_matters() {
    assert_ne!(content_hash("ab", "c"), content_hash("a", "bc"));
}

#[test]
fn different_content_differs() {
    assert_ne!(content_hash("A", "one"), content_hash("A", "two"));
}

#[test]
fn normalize_collapses_and_lowercases() {
    assert_eq!(normalize("  Hello \t\n WORLD  "), "hello world");
    assert_eq!(normalize(""), "");
}

#[test]
fn empty_fields_hash_the_lone_separator() {
    // SHA-256 of the single byte 0x00.
    let expected = "6e340b9cffb37a989ca544e6bb780a2c78901d3fb33738768511a30617afa01d";
    assert_eq!(content_hash("", ""), expected);
    assert_eq!(content_hash("  \t", "\n"), expected);
}
