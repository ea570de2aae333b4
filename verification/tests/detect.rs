use a_two_a_agent_card_skill_governor::detect::{classify_surface, path_no_query, Variant};
use a_two_a_agent_card_skill_governor::governor::Surface;

#[test]
fn well_known_get_is_public() {
    let c = classify_surface("GET", "/.well-known/agent-card.json", false, None).unwrap();
    assert!(matches!(c, (Surface::Public, Variant::PublicGet)));
}

#[test]
fn legacy_rpc_ext_card_is_extended() {
    let c = classify_surface(
        "POST",
        "/",
        false,
        Some("agent/getAuthenticatedExtendedCard"),
    )
    .unwrap();
    assert!(matches!(c, (Surface::Extended, Variant::Legacy)));
}

#[test]
fn v1_rpc_ext_card_is_extended() {
    let c = classify_surface("POST", "/", true, Some("GetExtendedAgentCard")).unwrap();
    assert!(matches!(c, (Surface::Extended, Variant::V1JsonRpc)));
}

#[test]
fn v1_httpjson_ext_card_is_extended() {
    let c = classify_surface("GET", "/extendedAgentCard", true, None).unwrap();
    assert!(matches!(c, (Surface::Extended, Variant::V1HttpJson)));
}

#[test]
fn unrelated_request_is_skip() {
    assert!(classify_surface("POST", "/", false, Some("message/send")).is_none());
    assert!(classify_surface("GET", "/health", false, None).is_none());
}

#[test]
fn v1_method_without_v1_signal_degrades_to_legacy() {
    let c = classify_surface("POST", "/", false, Some("GetExtendedAgentCard")).unwrap();
    assert!(matches!(c, (Surface::Extended, Variant::Legacy)));
}

#[test]
fn httpjson_path_without_v1_signal_is_skip() {
    assert!(classify_surface("GET", "/extendedAgentCard", false, None).is_none());
}

#[test]
fn query_string_is_ignored_when_matching_paths() {
    let c = classify_surface("GET", "/a2a/.well-known/agent-card.json?x=1", false, None).unwrap();
    assert!(matches!(c, (Surface::Public, Variant::PublicGet)));
    let c = classify_surface("GET", "/extendedAgentCard?A2A-Version=1.0", true, None).unwrap();
    assert!(matches!(c, (Surface::Extended, Variant::V1HttpJson)));
    // The suffix must end the path, not the query.
    assert!(classify_surface("GET", "/other?p=/.well-known/agent-card.json", false, None).is_none());
}

#[test]
fn post_to_well_known_is_not_public() {
    assert!(classify_surface("POST", "/.well-known/agent-card.json", false, None).is_none());
    // Method names are case-sensitive.
    assert!(classify_surface("get", "/.well-known/agent-card.json", false, None).is_none());
}

#[test]
fn path_no_query_strips_from_first_question_mark() {
    assert_eq!(path_no_query("/a/b?x=1?y=2"), "/a/b");
    assert_eq!(path_no_query("/a/b"), "/a/b");
    assert_eq!(path_no_query("?only"), "");
    assert_eq!(path_no_query("/é/ü?q"), "/é/ü");
}
