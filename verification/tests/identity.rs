use ctxone_hub::identity::{
    identity_required, is_valid_namespace, percent_decode, resolve_namespace, resolve_session,
    sessions_decode, AgentId, IdentityError, NamespaceId, SessionId, DEFAULT_NAMESPACE,
};
use ctxone_hub::memory::DEFAULT_SESSION_ID;

#[test]
fn resolve_session_reads_header_else_default() {
    assert_eq!(resolve_session(None, Some("abc123"), false).unwrap(), "abc123");
    assert_eq!(resolve_session(None, None, false).unwrap(), DEFAULT_SESSION_ID);
}

#[test]
fn invalid_namespace_is_rejected_regardless_of_policy() {
    for on in [false, true] {
        assert!(
            matches!(
                resolve_namespace(Some("namespace=not%20a%20valid%20ns"), None, on),
                Err(IdentityError::InvalidNamespace(_))
            ),
            "invalid namespace must not fall back to default (policy on={on})"
        );
    }
}

#[test]
fn missing_identity_defaults_when_policy_off() {
    assert_eq!(resolve_namespace(None, None, false).unwrap(), DEFAULT_NAMESPACE);
    assert_eq!(resolve_session(None, None, false).unwrap(), DEFAULT_SESSION_ID);
}

#[test]
fn missing_identity_is_rejected_when_policy_on() {
    assert!(matches!(resolve_namespace(None, None, true), Err(IdentityError::MissingNamespace)));
    assert!(matches!(resolve_session(None, None, true), Err(IdentityError::MissingSession)));
}

#[test]
fn explicit_default_namespace_is_allowed_under_policy() {
    let q = Some("namespace=default");
    assert_eq!(resolve_namespace(q, None, true).unwrap(), DEFAULT_NAMESPACE);
    assert_eq!(resolve_session(q, Some("codex:default"), true).unwrap(), "codex:default");
}

#[test]
fn session_query_satisfies_policy_for_header_less_clients() {
    let q = Some("namespace=default&session=default:codex:abc123");
    assert_eq!(resolve_session(q, None, true).unwrap(), "default:codex:abc123");
    assert_eq!(resolve_namespace(q, None, true).unwrap(), DEFAULT_NAMESPACE);
}

#[test]
fn session_query_is_percent_decoded() {
    let q = Some("namespace=ctxone&session=ctxone%3Acodex%3Aabc123");
    assert!(sessions_decode(q));
    assert_eq!(resolve_session(q, None, true).unwrap(), "ctxone:codex:abc123");
}

#[test]
fn session_query_beats_header() {
    assert_eq!(
        resolve_session(Some("session=from-query"), Some("from-header"), true).unwrap(),
        "from-query"
    );
}

#[test]
fn namespace_header_satisfies_policy() {
    assert_eq!(resolve_namespace(None, Some("sessiondrift"), true).unwrap(), "sessiondrift");
}

#[test]
fn identity_errors_name_the_remedy() {
    for e in [
        IdentityError::InvalidNamespace("bad ns".into()),
        IdentityError::MissingNamespace,
        IdentityError::MissingSession,
    ] {
        assert!(e.message().contains("ctx init"), "remedy missing: {}", e.message());
    }
}

#[test]
fn identity_policy_flag_values() {
    for v in ["1", "true", "TRUE", "yes", "on", "  on  "] {
        assert!(identity_required(Some(v)), "{v}");
    }
    for v in ["0", "false", "off", "", "True"] {
        assert!(!identity_required(Some(v)), "{v}");
    }
    assert!(!identity_required(None));
}

#[test]
fn namespace_names() {
    assert!(is_valid_namespace("ctxone"));
    assert!(is_valid_namespace("my_ns-2"));
    assert!(!is_valid_namespace(""));
    assert!(!is_valid_namespace("not a valid ns"));
}

#[test]
fn percent_decoding() {
    assert_eq!(percent_decode("a%3Ab"), "a:b");
    assert_eq!(percent_decode("100%"), "100%");
    assert_eq!(percent_decode("%zz"), "%zz");
}

#[test]
fn rest_identity_headers() {
    assert_eq!(SessionId::from_header(Some("  s1 ")).0, "s1");
    assert_eq!(SessionId::from_header(Some("   ")).0, "default");
    assert_eq!(AgentId::from_header(None).0, "ctxone");
    assert_eq!(NamespaceId::from_request(None, None).0, "default");
}

#[test]
fn percent_decoding_needs_two_hex_digits() {
    assert_eq!(percent_decode("%+1"), "%+1");
    assert_eq!(percent_decode("a%2fb%2F"), "a/b/");
}
