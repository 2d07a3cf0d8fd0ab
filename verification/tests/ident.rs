use queuecast::ident::{generate_hash, identifier_from_hex};

#[test]
fn identifier_is_the_start_of_the_sha256_digest() {
    assert_eq!(generate_hash("abc"), "ba7816bf");
    assert_eq!(generate_hash(""), "e3b0c442");
}

#[test]
fn identifier_is_the_same_on_every_call() {
    let first = generate_hash("Some Show");
    let second = generate_hash("Some Show");
    assert_eq!(first, second);
}

#[test]
fn identifier_has_eight_lower_case_hex_digits() {
    for name in ["a", "My Show", "série télé", "x".repeat(300).as_str()] {
        let id = generate_hash(name);
        assert_eq!(id.chars().count(), 8);
        assert!(id.chars().all(|c| c.is_ascii_digit() || ('a'..='f').contains(&c)));
    }
}

#[test]
fn different_names_give_different_identifiers() {
    assert_ne!(generate_hash("Show A"), generate_hash("Show B"));
}

#[test]
fn identifier_is_not_the_name_itself() {
    assert_ne!(generate_hash("deadbeef"), "deadbeef");
}

#[test]
fn identifier_from_hex_takes_the_first_eight_characters() {
    assert_eq!(identifier_from_hex("0123456789abcdef"), "01234567");
    assert_eq!(identifier_from_hex("abcdefgh"), "abcdefgh");
}
