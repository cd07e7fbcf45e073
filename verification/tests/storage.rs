use oma::storage::{join_model, split_model, validate_attachment_name, validate_session_id, StorageError};

#[test]
fn session_ids_are_path_safe() {
    assert!(validate_session_id("abc-DEF_123").is_ok());
    assert!(validate_session_id(&"a".repeat(128)).is_ok());
    for bad in ["", "../etc", "a/b", "a.b", "a b", "é", "x\\y"] {
        let err = validate_session_id(bad).unwrap_err();
        assert!(matches!(err, StorageError::InvalidId(_)), "{bad}");
    }
    assert!(validate_session_id(&"a".repeat(129)).is_err());
    let err = validate_session_id("../x").unwrap_err();
    assert_eq!(
        err.to_string(),
        "invalid identifier: session_id \"../x\" must be 1..=128 chars of [A-Za-z0-9_-]"
    );
}

#[test]
fn attachment_names_stay_in_their_directory() {
    assert!(validate_attachment_name("photo.final.png").is_ok());
    assert!(validate_attachment_name(".hidden").is_err());
    assert!(validate_attachment_name("..").is_err());
    assert!(validate_attachment_name("a/b.png").is_err());
    assert!(validate_attachment_name("").is_err());
    let err = validate_attachment_name("a\"b").unwrap_err();
    assert_eq!(
        err.to_string(),
        "invalid identifier: attachment name \"a\\\"b\" must be 1..=128 chars of [A-Za-z0-9._-] and not start with '.'"
    );
}

#[test]
fn model_selectors_split_and_join() {
    assert_eq!(split_model("openai/gpt-4o"), ("openai".to_string(), "gpt-4o".to_string()));
    assert_eq!(split_model("a/b/c"), ("a".to_string(), "b/c".to_string()));
    assert_eq!(split_model("local"), (String::new(), "local".to_string()));
    assert_eq!(join_model("openai", "gpt-4o"), "openai/gpt-4o");
    assert_eq!(join_model("", "local"), "local");
    for s in ["openai/gpt-4o", "a/b/c", "local", ""] {
        let (p, m) = split_model(s);
        assert_eq!(join_model(&p, &m), s);
    }
    let (p, m) = split_model("/x");
    assert_eq!(join_model(&p, &m), "x");
}

#[test]
fn storage_error_messages_by_kind() {
    assert_eq!(StorageError::NotFound("s1".to_string()).to_string(), "not found: s1");
    assert_eq!(StorageError::Internal("boom".to_string()).to_string(), "boom");
}
