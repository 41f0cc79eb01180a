use argus_core::text::trim_chars;

#[test]
fn unicode_white_space_is_trimmed_and_other_characters_are_not() {
    let s: Vec<char> = "\u{3000}\u{85}\u{2009} word \u{A0}\u{202F}".chars().collect();
    assert_eq!(trim_chars(&s), vec!['w', 'o', 'r', 'd']);
    let kept: Vec<char> = "\u{200B}word\u{FEFF}".chars().collect();
    assert_eq!(trim_chars(&kept), kept, "zero-width characters are not white space");
}
