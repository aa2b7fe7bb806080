use end_planner::text::{DisplayName, DisplayNameValidationError, Key, KeyValidationError};

#[test]
fn key_rejects_blank_text() {
    let err = Key::try_from("   ").expect_err("blank key should fail");
    assert_eq!(err, KeyValidationError::Blank);
}

#[test]
fn key_rejects_leading_or_trailing_spaces() {
    let err = Key::try_from(" A ").expect_err("spaced key should fail");
    assert_eq!(err, KeyValidationError::LeadingOrTrailingSpaces);
}

#[test]
fn key_accepts_non_blank_trimmed_text() {
    let key = Key::try_from("A").expect("valid key");
    assert_eq!(key.as_str(), "A");
}

#[test]
fn display_name_rejects_blank_text() {
    let err = DisplayName::try_from("   ").expect_err("blank display name should fail");
    assert_eq!(err, DisplayNameValidationError::Blank);
}

#[test]
fn display_name_accepts_non_blank_text() {
    let text = DisplayName::try_from(" Name ").expect("valid display name");
    assert_eq!(text.as_str(), " Name ");
}

#[test]
fn key_rejects_empty_and_tab_edges() {
    assert_eq!(Key::try_from("").expect_err("empty"), KeyValidationError::Blank);
    assert_eq!(
        Key::try_from("\tA").expect_err("tab"),
        KeyValidationError::LeadingOrTrailingSpaces
    );
    assert!(Key::try_from("A B").is_ok());
}

#[test]
fn key_error_messages() {
    assert_eq!(KeyValidationError::Blank.message(), "key must not be blank");
    assert_eq!(
        KeyValidationError::LeadingOrTrailingSpaces.message(),
        "Key must not have leading/trailing spaces"
    );
    assert_eq!(DisplayNameValidationError::Blank.message(), "must not be blank");
}

#[test]
fn key_from_owned_string_keeps_text() {
    let key = Key::try_from(String::from("Ore")).expect("valid");
    assert!(key.matches("Ore"));
    assert!(!key.matches("ore"));
    assert_eq!(key.duplicate().into_string(), "Ore");
}
