use auth_core::header::{credential_token, Credential};

fn token_in(header: &str) -> Option<&str> {
    match credential_token(header) {
        Credential::Token(token) => Some(token),
        _ => None,
    }
}

fn is_empty(header: &str) -> bool {
    matches!(credential_token(header), Credential::Empty)
}

fn is_malformed(header: &str) -> bool {
    matches!(credential_token(header), Credential::Malformed)
}

#[test]
fn the_token_follows_the_word_basic() {
    assert_eq!(token_in("Basic YUB4LmNvbTpwdzE="), Some("YUB4LmNvbTpwdzE="));
}

#[test]
fn white_space_around_the_fields_is_skipped() {
    assert_eq!(token_in("  Basic \t  abc \r\n"), Some("abc"));
    assert_eq!(token_in("Basic\tabc"), Some("abc"));
    assert_eq!(token_in("Basic\u{b}abc\u{c}"), Some("abc"));
}

#[test]
fn a_token_may_hold_any_other_character() {
    assert_eq!(token_in("Basic é:ö"), Some("é:ö"));
}

#[test]
fn a_header_without_a_field_is_empty() {
    assert!(is_empty(""));
    assert!(is_empty(" "));
    assert!(is_empty(" \t\r\n"));
}

#[test]
fn one_field_is_malformed() {
    assert!(is_malformed("Basic"));
    assert!(is_malformed("Basic "));
    assert!(is_malformed("YUB4LmNvbTpwdzE="));
}

#[test]
fn three_fields_are_malformed() {
    assert!(is_malformed("Basic abc def"));
}

#[test]
fn another_scheme_is_malformed() {
    assert!(is_malformed("Bearer abc"));
    assert!(is_malformed("basic abc"));
    assert!(is_malformed("Basics abc"));
    assert!(is_malformed("Basi abc"));
}

#[test]
fn a_no_break_space_parts_nothing() {
    assert!(is_malformed("Basic\u{a0}abc"));
}
