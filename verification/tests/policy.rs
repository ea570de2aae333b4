use a_two_a_agent_card_skill_governor::a2a::JsonValue;
use a_two_a_agent_card_skill_governor::detect::Variant;
use a_two_a_agent_card_skill_governor::generated::config::Config;
use a_two_a_agent_card_skill_governor::governor::Surface;
use a_two_a_agent_card_skill_governor::policy::{
    a2a_version_is_v1, card_context, read_identity, scope_claim_key, should_read_jsonrpc_method,
    split_scopes, AuthData,
};

fn obj(entries: Vec<(&str, JsonValue)>) -> JsonValue {
    JsonValue::Object(entries.into_iter().map(|(k, v)| (k.to_string(), v)).collect())
}

fn text(s: &str) -> JsonValue {
    JsonValue::Str(s.to_string())
}

#[test]
fn scopes_split_on_white_space_and_commas() {
    assert_eq!(split_scopes("a b c"), vec!["a", "b", "c"]);
    assert_eq!(split_scopes("a,b,c"), vec!["a", "b", "c"]);
    assert_eq!(split_scopes(" a,\tb\n\r,c , "), vec!["a", "b", "c"]);
    assert!(split_scopes("").is_empty());
    assert!(split_scopes(" ,\t").is_empty());
    assert_eq!(split_scopes("read:é"), vec!["read:é"]);
}

#[test]
fn version_signal_from_header_is_trimmed() {
    assert!(a2a_version_is_v1(Some("1.0"), "/"));
    assert!(a2a_version_is_v1(Some("  1.0\t"), "/"));
    assert!(a2a_version_is_v1(Some("\u{3000}1.0\u{a0}"), "/"));
    assert!(!a2a_version_is_v1(Some("1.1"), "/"));
    assert!(!a2a_version_is_v1(Some("1 .0"), "/"));
    assert!(!a2a_version_is_v1(None, "/"));
}

#[test]
fn version_signal_from_query_parameter() {
    assert!(a2a_version_is_v1(None, "/x?A2A-Version=1.0"));
    assert!(a2a_version_is_v1(None, "/x?a2a-version=1.0"));
    assert!(a2a_version_is_v1(None, "/x?foo=bar&A2A-VERSION=1.0&z"));
    assert!(!a2a_version_is_v1(None, "/x?A2A-Version=1.00"));
    assert!(!a2a_version_is_v1(None, "/x?A2A-Version"));
    assert!(!a2a_version_is_v1(None, "/x?A2A_Version=1.0"));
    assert!(!a2a_version_is_v1(None, "/A2A-Version=1.0"));
    // The value is compared exactly; only the key ignores case.
    assert!(!a2a_version_is_v1(None, "/x?a2a-version= 1.0"));
    // Everything after the first `?` is the query.
    assert!(a2a_version_is_v1(None, "/x?y=1?&a2a-version=1.0"));
    assert!(a2a_version_is_v1(Some("2"), "/x?a2a-version=1.0"));
}

#[test]
fn jsonrpc_body_is_read_only_for_json_posts() {
    assert!(should_read_jsonrpc_method("POST", Some("application/json")));
    assert!(should_read_jsonrpc_method("POST", Some("application/json-rpc; charset=utf-8")));
    assert!(!should_read_jsonrpc_method("POST", Some("text/plain")));
    assert!(!should_read_jsonrpc_method("POST", None));
    assert!(!should_read_jsonrpc_method("GET", Some("application/json")));
    assert!(!should_read_jsonrpc_method("POST", Some("application/JSON")));
}

fn auth(props: JsonValue) -> AuthData {
    AuthData {
        client_id: Some("cid".to_string()),
        client_name: Some("cname".to_string()),
        properties: props,
    }
}

#[test]
fn identity_reads_client_scopes_and_tier() {
    let a = auth(obj(vec![("scope", text("read write,admin")), ("sla_tier", text("gold"))]));
    let id = read_identity(Some(&a), "scope");
    assert_eq!(id.client_id.as_deref(), Some("cid"));
    assert_eq!(id.client_name.as_deref(), Some("cname"));
    assert_eq!(id.scopes, vec!["read", "write", "admin"]);
    assert_eq!(id.tier.as_deref(), Some("gold"));
}

#[test]
fn identity_scopes_from_array_and_custom_key() {
    let a = auth(obj(vec![
        ("scp", JsonValue::Array(vec![text("a b"), JsonValue::Bool(true), text("c")])),
        ("tier", JsonValue::Number("3".to_string())),
        ("slaTier", text("silver")),
    ]));
    let id = read_identity(Some(&a), "scp");
    assert_eq!(id.scopes, vec!["a", "b", "c"]);
    // `tier` holds no string, so the next spelling is tried.
    assert_eq!(id.tier.as_deref(), Some("silver"));
    let none = read_identity(Some(&a), "scope");
    assert!(none.scopes.is_empty());
}

#[test]
fn identity_degrades_without_data() {
    let id = read_identity(None, "scope");
    assert!(id.client_id.is_none() && id.client_name.is_none() && id.tier.is_none());
    assert!(id.scopes.is_empty());
    let odd = auth(text("not an object"));
    let id = read_identity(Some(&odd), "scope");
    assert!(id.scopes.is_empty() && id.tier.is_none());
    assert_eq!(id.client_id.as_deref(), Some("cid"));
}

#[test]
fn card_context_reads_identity_only_on_extended() {
    let a = auth(obj(vec![("scope", text("partner"))]));
    let ctx = card_context("GET", "/.well-known/agent-card.json", None, None, Some(&a), "scope")
        .unwrap();
    assert!(ctx.surface == Surface::Public && ctx.variant == Variant::PublicGet);
    assert!(ctx.identity.client_id.is_none() && ctx.identity.scopes.is_empty());

    let ctx = card_context("POST", "/", Some("1.0"), Some("GetExtendedAgentCard"), Some(&a), "scope")
        .unwrap();
    assert!(ctx.surface == Surface::Extended && ctx.variant == Variant::V1JsonRpc);
    assert_eq!(ctx.identity.scopes, vec!["partner"]);

    let ctx = card_context("GET", "/extendedAgentCard?a2a-version=1.0", None, None, Some(&a), "scope")
        .unwrap();
    assert!(ctx.variant == Variant::V1HttpJson);
    assert_eq!(ctx.identity.client_id.as_deref(), Some("cid"));

    assert!(card_context("POST", "/", None, Some("message/send"), Some(&a), "scope").is_none());
}

#[test]
fn scope_claim_key_defaults_to_scope() {
    assert_eq!(scope_claim_key(&Config::default()), "scope");
    let c = Config { scope_claim_key: Some("scp".to_string()), ..Default::default() };
    assert_eq!(scope_claim_key(&c), "scp");
}

#[test]
fn tier_prefers_sla_tier_policy_keys_and_skips_empty_values() {
    let a = auth(obj(vec![("sla-tier-name", text("gold"))]));
    assert_eq!(read_identity(Some(&a), "scope").tier.as_deref(), Some("gold"));
    let b = auth(obj(vec![
        ("tier", text("basic")),
        ("sla-tier-id", text("t-42")),
        ("sla-tier-name", text("")),
    ]));
    // An empty name is skipped; the id comes before the older spellings.
    assert_eq!(read_identity(Some(&b), "scope").tier.as_deref(), Some("t-42"));
    let c = auth(obj(vec![("sla-tier-name", text("")), ("tier", text(""))]));
    assert!(read_identity(Some(&c), "scope").tier.is_none());
}
