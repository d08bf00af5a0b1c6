use work::identity::{default_identity, eq_ignore_ascii_case, matches_identity, str_eq, Identity};

fn id(name: Option<&str>, email: Option<&str>) -> Identity {
    Identity { name: name.map(|s| s.to_string()), email: email.map(|s| s.to_string()) }
}

#[test]
fn unconfigured_identity_matches_everything() {
    let unconfigured = id(None, None);
    assert!(matches_identity(&unconfigured, Some("Anyone"), Some("anyone@example.com")));
    assert!(matches_identity(&unconfigured, None, None));
}

#[test]
fn email_match_ignores_ascii_case() {
    let me = id(None, Some("Me@Example.COM"));
    assert!(matches_identity(&me, None, Some("me@example.com")));
    assert!(matches_identity(&me, None, Some("ME@EXAMPLE.COM")));
    assert!(!matches_identity(&me, None, Some("other@example.com")));
}

#[test]
fn name_match_is_case_sensitive() {
    let me = id(Some("Jane Doe"), None);
    assert!(matches_identity(&me, Some("Jane Doe"), None));
    assert!(!matches_identity(&me, Some("jane doe"), None));
    assert!(!matches_identity(&me, Some("JANE DOE"), None));
}

#[test]
fn email_is_consulted_before_name() {
    let me = id(Some("Jane Doe"), Some("jane@example.com"));
    // A matching email suffices even with a different name.
    assert!(matches_identity(&me, Some("Someone Else"), Some("JANE@example.com")));
    // A matching name suffices even with a different email.
    assert!(matches_identity(&me, Some("Jane Doe"), Some("other@example.com")));
    // Neither matching: no match.
    assert!(!matches_identity(&me, Some("Someone Else"), Some("other@example.com")));
}

#[test]
fn partially_configured_identity_does_not_match_everything() {
    let me = id(None, Some("jane@example.com"));
    assert!(!matches_identity(&me, Some("Anyone"), Some("other@example.com")));
    assert!(!matches_identity(&me, None, None));
}

#[test]
fn ascii_case_folding_leaves_other_characters_alone() {
    assert!(eq_ignore_ascii_case("abc", "ABC"));
    assert!(eq_ignore_ascii_case("", ""));
    assert!(!eq_ignore_ascii_case("abc", "abd"));
    assert!(!eq_ignore_ascii_case("abc", "abcd"));
    // Non-ASCII letters are not folded.
    assert!(!eq_ignore_ascii_case("é", "É"));
}

#[test]
fn str_eq_compares_exactly() {
    assert!(str_eq("same", "same"));
    assert!(!str_eq("same", "Same"));
    assert!(!str_eq("same", "samee"));
}

#[test]
fn the_global_configuration_is_read_consistently() {
    let first = default_identity();
    let second = default_identity();
    assert_eq!(first.name, second.name);
    assert_eq!(first.email, second.email);
}
