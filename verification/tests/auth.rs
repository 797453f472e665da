use adaptalk::auth::{
    is_authentication_rejection, map_transport_error, sanitize_transport_error,
    validate_credentials, AuthError,
};

#[test]
fn auth_transport_errors_redact_the_credential() {
    let error = map_transport_error(
        "request failed for Bearer super-secret-token",
        "super-secret-token",
    );
    let AuthError::Transport(message) = error else {
        panic!("expected transport error");
    };
    assert!(!message.contains("super-secret-token"));
    assert!(message.contains("[redacted credential]"));
}

#[test]
fn auth_authentication_errors_are_classified_consistently() {
    assert!(matches!(
        map_transport_error("server returned status code: 401", "secret"),
        AuthError::AuthenticationRejected
    ));
    assert!(matches!(
        map_transport_error("Auth required", "secret"),
        AuthError::AuthenticationRejected
    ));
    assert!(matches!(
        map_transport_error("server returned status code: 403", ""),
        AuthError::AuthenticationRejected
    ));
}

#[test]
fn preflight_recognizes_headerless_authentication_rejections() {
    assert!(is_authentication_rejection(401));
    assert!(is_authentication_rejection(403));
    assert!(!is_authentication_rejection(405));
}

#[test]
fn auth_insufficient_scope_is_a_rejection_in_any_case() {
    assert_eq!(
        map_transport_error("INSUFFICIENT Scope for this resource", "t"),
        AuthError::AuthenticationRejected
    );
}

#[test]
fn preflight_answers_decide() {
    assert_eq!(
        validate_credentials("t", Ok(401)),
        Err(AuthError::AuthenticationRejected)
    );
    assert_eq!(
        validate_credentials("t", Ok(403)),
        Err(AuthError::AuthenticationRejected)
    );
    assert_eq!(validate_credentials("t", Ok(200)), Ok(()));
    assert_eq!(validate_credentials("t", Ok(500)), Ok(()));
    assert_eq!(
        validate_credentials("tok", Err("dns failure for tok".to_owned())),
        Err(AuthError::Transport("dns failure for [redacted credential]".to_owned()))
    );
    assert_eq!(
        validate_credentials("tok", Err("Auth required".to_owned())),
        Err(AuthError::AuthenticationRejected)
    );
}

#[test]
fn an_empty_credential_changes_no_text() {
    assert_eq!(sanitize_transport_error("a b", ""), "a b");
    assert_eq!(
        sanitize_transport_error("aa a", "a"),
        "[redacted credential][redacted credential] [redacted credential]"
    );
}

#[test]
fn auth_messages_tell_the_user_what_to_do() {
    assert_eq!(
        AuthError::AuthenticationRejected.message(),
        "Adapt authentication was rejected by the server; refresh bearer_token in ~/.adapt/config.toml and retry"
    );
    assert_eq!(
        AuthError::Transport("offline".to_owned()).message(),
        "Adapt endpoint or transport failed: offline"
    );
}
