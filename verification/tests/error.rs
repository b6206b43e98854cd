use umoja::error::{
    code_for, kind_of, DomainError, EXIT_ADAPTER, EXIT_CONTINUE, EXIT_FORBIDDEN, EXIT_NEGATIVE,
    EXIT_UNSUPPORTED, EXIT_USAGE,
};

#[test]
fn every_error_has_a_distinct_exit_code_family() {
    assert_eq!(code_for(&DomainError::invalid("x")), EXIT_USAGE);
    assert_eq!(code_for(&DomainError::not_found("session", "x")), EXIT_USAGE);
    assert_eq!(code_for(&DomainError::forbidden("x")), EXIT_FORBIDDEN);
    assert_eq!(code_for(&DomainError::Unsupported("x".into())), EXIT_UNSUPPORTED);
    assert_eq!(code_for(&DomainError::adapter("x", "y")), EXIT_ADAPTER);
    assert_ne!(EXIT_NEGATIVE, EXIT_CONTINUE);
}

#[test]
fn error_kinds_are_stable_names_for_scripts() {
    assert_eq!(kind_of(&DomainError::invalid("x")), "invalid");
    assert_eq!(kind_of(&DomainError::conflict("session", "x")), "conflict");
    assert!(DomainError::adapter("x", "y").is_transient());
    assert!(!DomainError::invalid("x").is_transient());
}

#[test]
fn messages_read_as_sentences() {
    assert_eq!(DomainError::not_found("session", "ses-1").message(), "session 'ses-1' not found");
    assert_eq!(DomainError::conflict("goal", "g").message(), "goal 'g' already exists");
    assert_eq!(DomainError::invalid("bad input").message(), "bad input");
    assert!(matches!(
        DomainError::parse("registry", "eof"),
        DomainError::Parse { .. }
    ));
}
