use a_two_a_agent_card_skill_governor::a2a::{JsonValue, Skill};
use a_two_a_agent_card_skill_governor::card::{
    copy_json, decode_skill, decode_skills, encode_skill, encode_skills, fail_closed_body,
    transform_card_body, CardOutcome,
};
use a_two_a_agent_card_skill_governor::detect::Variant;
use a_two_a_agent_card_skill_governor::generated::config::{Config, VisibilityRule};
use a_two_a_agent_card_skill_governor::governor::{GovernorRules, Identity, Surface, Warning};
use a_two_a_agent_card_skill_governor::policy::CardContext;

fn obj(entries: Vec<(&str, JsonValue)>) -> JsonValue {
    JsonValue::Object(entries.into_iter().map(|(k, v)| (k.to_string(), v)).collect())
}

fn text(s: &str) -> JsonValue {
    JsonValue::Str(s.to_string())
}

fn texts(items: &[&str]) -> JsonValue {
    JsonValue::Array(items.iter().map(|s| text(s)).collect())
}

fn same(a: &JsonValue, b: &JsonValue) -> bool {
    match (a, b) {
        (JsonValue::Null, JsonValue::Null) => true,
        (JsonValue::Bool(x), JsonValue::Bool(y)) => x == y,
        (JsonValue::Number(x), JsonValue::Number(y)) => x == y,
        (JsonValue::Str(x), JsonValue::Str(y)) => x == y,
        (JsonValue::Array(x), JsonValue::Array(y)) => {
            x.len() == y.len() && x.iter().zip(y.iter()).all(|(p, q)| same(p, q))
        }
        (JsonValue::Object(x), JsonValue::Object(y)) => {
            x.len() == y.len()
                && x.iter().zip(y.iter()).all(|(p, q)| p.0 == q.0 && same(&p.1, &q.1))
        }
        _ => false,
    }
}

fn skill_obj(id: &str) -> JsonValue {
    obj(vec![("id", text(id)), ("name", text(id))])
}

fn rules_denying(id: &str) -> GovernorRules {
    let c = Config {
        scope_claim_key: None,
        default_allow: Some(true),
        visibility: Some(vec![VisibilityRule {
            effect: "deny".into(),
            audience_type: Some("any".into()),
            audience_value: None,
            skill_id: Some(id.into()),
            skill_id_pattern: None,
        }]),
        skills: None,
    };
    let mut w = Vec::new();
    let g = GovernorRules::compile(&c, &mut w);
    assert!(w.is_empty());
    g
}

fn ctx(surface: Surface, variant: Variant) -> CardContext {
    CardContext { surface, variant, identity: Identity::default() }
}

fn skill_ids(card: &JsonValue) -> Vec<String> {
    match card.get("skills") {
        Some(JsonValue::Array(items)) => items
            .iter()
            .map(|s| s.get("id").and_then(|v| v.as_str()).unwrap_or("").to_string())
            .collect(),
        _ => panic!("no skills array"),
    }
}

#[test]
fn skill_roundtrips_unknown_fields() {
    let raw = obj(vec![
        ("id", text("s1")),
        ("name", text("X")),
        ("securityRequirements", texts(&["oauth"])),
    ]);
    let s: Skill = decode_skill(&raw).unwrap();
    let back = encode_skill(s);
    assert!(same(back.get("securityRequirements").unwrap(), &texts(&["oauth"])));
    assert!(back.get("description").is_none()); // omitted, not null
}

#[test]
fn skill_decodes_typed_fields_and_keeps_the_rest_in_order() {
    let raw = obj(vec![
        ("z", JsonValue::Number("1".into())),
        ("id", text("s1")),
        ("description", JsonValue::Null),
        ("tags", texts(&["a", "b"])),
        ("inputModes", texts(&[])),
        ("a", JsonValue::Bool(false)),
    ]);
    let s = decode_skill(&raw).unwrap();
    assert_eq!(s.id, "s1");
    assert_eq!(s.name, None);
    assert_eq!(s.description, None);
    assert_eq!(s.tags, Some(vec!["a".to_string(), "b".to_string()]));
    assert_eq!(s.examples, None);
    assert_eq!(s.input_modes, Some(vec![]));
    assert_eq!(s.output_modes, None);
    let extra_keys: Vec<&str> = s.extra.iter().map(|(k, _)| k.as_str()).collect();
    assert_eq!(extra_keys, vec!["z", "a"]);
    let back = encode_skill(s);
    let expected = obj(vec![
        ("id", text("s1")),
        ("tags", texts(&["a", "b"])),
        ("inputModes", texts(&[])),
        ("z", JsonValue::Number("1".into())),
        ("a", JsonValue::Bool(false)),
    ]);
    assert!(same(&back, &expected));
}

#[test]
fn malformed_skills_do_not_decode() {
    assert!(decode_skill(&obj(vec![("id", JsonValue::Number("7".into()))])).is_none());
    assert!(decode_skill(&obj(vec![("name", text("no id"))])).is_none());
    assert!(decode_skill(&obj(vec![("id", text("a")), ("name", JsonValue::Bool(true))])).is_none());
    assert!(decode_skill(&obj(vec![
        ("id", text("a")),
        ("tags", JsonValue::Array(vec![text("ok"), JsonValue::Null])),
    ]))
    .is_none());
    assert!(decode_skill(&obj(vec![("id", text("a")), ("examples", text("x"))])).is_none());
    assert!(decode_skill(&text("a")).is_none());
    assert!(decode_skills(&vec![skill_obj("a"), JsonValue::Null]).is_none());
    let ok = decode_skills(&vec![skill_obj("a"), skill_obj("b")]).unwrap();
    assert_eq!(ok.iter().map(|s| s.id.as_str()).collect::<Vec<_>>(), vec!["a", "b"]);
}

#[test]
fn encode_skills_keeps_order() {
    let skills = decode_skills(&vec![skill_obj("b"), skill_obj("a")]).unwrap();
    let out = encode_skills(skills);
    assert_eq!(out.len(), 2);
    assert!(same(&out[0], &skill_obj("b")));
    assert!(same(&out[1], &skill_obj("a")));
}

#[test]
fn copy_json_is_deep() {
    let v = obj(vec![
        ("a", JsonValue::Array(vec![JsonValue::Null, obj(vec![("b", text("c"))])])),
        ("n", JsonValue::Number("-2.5".into())),
    ]);
    assert!(same(&copy_json(&v), &v));
}

#[test]
fn non_cards_pass_through() {
    let rules = rules_denying("a");
    let mut w: Vec<Warning> = Vec::new();
    let public = ctx(Surface::Public, Variant::PublicGet);
    let ext = ctx(Surface::Extended, Variant::V1JsonRpc);
    assert!(matches!(transform_card_body(None, &public, &rules, &mut w), CardOutcome::PassThrough));
    let health = obj(vec![("status", text("ok"))]);
    assert!(matches!(
        transform_card_body(Some(&health), &public, &rules, &mut w),
        CardOutcome::PassThrough
    ));
    let rpc_error = obj(vec![
        ("jsonrpc", text("2.0")),
        ("error", obj(vec![("code", JsonValue::Number("-32601".into()))])),
        ("result", obj(vec![("skills", JsonValue::Array(vec![skill_obj("a")]))])),
    ]);
    assert!(matches!(
        transform_card_body(Some(&rpc_error), &ext, &rules, &mut w),
        CardOutcome::PassThrough
    ));
    let bare_card_on_rpc = obj(vec![("skills", JsonValue::Array(vec![skill_obj("a")]))]);
    assert!(matches!(
        transform_card_body(Some(&bare_card_on_rpc), &ext, &rules, &mut w),
        CardOutcome::PassThrough
    ));
    assert!(w.is_empty());
}

#[test]
fn public_card_is_governed_in_place() {
    let rules = rules_denying("a");
    let mut w: Vec<Warning> = Vec::new();
    let card = obj(vec![
        ("name", text("Agent")),
        ("skills", JsonValue::Array(vec![skill_obj("a"), skill_obj("b")])),
        ("version", text("1")),
    ]);
    match transform_card_body(Some(&card), &ctx(Surface::Public, Variant::PublicGet), &rules, &mut w) {
        CardOutcome::Governed(out) => {
            assert_eq!(skill_ids(&out), vec!["b"]);
            let expected = obj(vec![
                ("name", text("Agent")),
                ("skills", JsonValue::Array(vec![skill_obj("b")])),
                ("version", text("1")),
            ]);
            assert!(same(&out, &expected));
        }
        other => panic!("unexpected outcome {:?}", other),
    }
}

#[test]
fn jsonrpc_card_is_governed_inside_result() {
    let rules = rules_denying("b");
    let mut w: Vec<Warning> = Vec::new();
    let doc = obj(vec![
        ("jsonrpc", text("2.0")),
        ("id", JsonValue::Number("7".into())),
        ("result", obj(vec![("skills", JsonValue::Array(vec![skill_obj("a"), skill_obj("b")]))])),
    ]);
    for variant in [Variant::Legacy, Variant::V1JsonRpc] {
        match transform_card_body(Some(&doc), &ctx(Surface::Extended, variant), &rules, &mut w) {
            CardOutcome::Governed(out) => {
                assert!(same(out.get("id").unwrap(), &JsonValue::Number("7".into())));
                assert!(same(out.get("jsonrpc").unwrap(), &text("2.0")));
                assert_eq!(skill_ids(out.get("result").unwrap()), vec!["a"]);
            }
            other => panic!("unexpected outcome {:?}", other),
        }
    }
}

#[test]
fn httpjson_card_is_governed_bare() {
    let rules = rules_denying("a");
    let mut w: Vec<Warning> = Vec::new();
    let card = obj(vec![("skills", JsonValue::Array(vec![skill_obj("a")]))]);
    match transform_card_body(Some(&card), &ctx(Surface::Extended, Variant::V1HttpJson), &rules, &mut w) {
        CardOutcome::Governed(out) => assert!(skill_ids(&out).is_empty()),
        other => panic!("unexpected outcome {:?}", other),
    }
}

#[test]
fn undecodable_skill_fails_closed() {
    let rules = rules_denying("a");
    let mut w: Vec<Warning> = Vec::new();
    let card = obj(vec![(
        "skills",
        JsonValue::Array(vec![skill_obj("b"), obj(vec![("id", JsonValue::Number("3".into()))])]),
    )]);
    assert!(matches!(
        transform_card_body(Some(&card), &ctx(Surface::Public, Variant::PublicGet), &rules, &mut w),
        CardOutcome::FailClosed
    ));
}

#[test]
fn fail_closed_bodies_per_binding() {
    for variant in [Variant::Legacy, Variant::V1JsonRpc] {
        let b = fail_closed_body(variant);
        let expected = obj(vec![
            ("jsonrpc", text("2.0")),
            ("id", JsonValue::Null),
            (
                "error",
                obj(vec![
                    ("code", JsonValue::Number("-32603".into())),
                    ("message", text("agent card could not be governed")),
                ]),
            ),
        ]);
        assert!(same(&b, &expected));
    }
    let http = fail_closed_body(Variant::V1HttpJson);
    let expected_http = obj(vec![(
        "error",
        obj(vec![
            ("code", JsonValue::Number("500".into())),
            ("status", text("INTERNAL")),
            ("message", text("agent card could not be governed")),
            (
                "details",
                JsonValue::Array(vec![obj(vec![
                    ("@type", text("type.googleapis.com/google.rpc.ErrorInfo")),
                    ("reason", text("SKILL_GOVERNANCE_FAILED")),
                    ("domain", text("a2a-agent-card-skill-governor")),
                ])]),
            ),
        ]),
    )]);
    assert!(same(&http, &expected_http));
    let public = fail_closed_body(Variant::PublicGet);
    assert!(same(&public, &obj(vec![("error", text("agent card could not be governed"))])));
}

fn deny_all_rules() -> GovernorRules {
    let c = Config {
        scope_claim_key: None,
        default_allow: Some(false),
        visibility: Some(vec![]),
        skills: Some(vec![]),
    };
    let mut w = Vec::new();
    GovernorRules::compile(&c, &mut w)
}

#[test]
fn public_card_body_skills_removed() {
    let body = obj(vec![("name", text("A")), ("skills", JsonValue::Array(vec![skill_obj("a")]))]);
    let mut w: Vec<Warning> = Vec::new();
    let ctx = ctx(Surface::Public, Variant::PublicGet);
    match transform_card_body(Some(&body), &ctx, &deny_all_rules(), &mut w) {
        CardOutcome::Governed(v) => {
            assert!(skill_ids(&v).is_empty());
            assert!(same(v.get("name").unwrap(), &text("A"))); // untouched
        }
        other => panic!("unexpected outcome {:?}", other),
    }
}

#[test]
fn jsonrpc_error_passes_through() {
    let body = obj(vec![
        ("jsonrpc", text("2.0")),
        ("id", JsonValue::Number("1".into())),
        (
            "error",
            obj(vec![("code", JsonValue::Number("-32601".into())), ("message", text("x"))]),
        ),
    ]);
    let mut w: Vec<Warning> = Vec::new();
    let ctx = ctx(Surface::Extended, Variant::V1JsonRpc);
    let r = transform_card_body(Some(&body), &ctx, &deny_all_rules(), &mut w);
    assert!(matches!(r, CardOutcome::PassThrough));
}

#[test]
fn non_card_passes_through() {
    let body = obj(vec![
        ("jsonrpc", text("2.0")),
        ("id", JsonValue::Number("1".into())),
        ("result", obj(vec![("foo", text("bar"))])),
    ]);
    let mut w: Vec<Warning> = Vec::new();
    let ctx = ctx(Surface::Extended, Variant::V1JsonRpc);
    let r = transform_card_body(Some(&body), &ctx, &deny_all_rules(), &mut w);
    assert!(matches!(r, CardOutcome::PassThrough));
}

#[test]
fn jsonrpc_result_card_governed_and_rewrapped() {
    let body = obj(vec![
        ("jsonrpc", text("2.0")),
        ("id", JsonValue::Number("7".into())),
        (
            "result",
            obj(vec![
                ("name", text("A")),
                ("skills", JsonValue::Array(vec![obj(vec![("id", text("a"))])])),
            ]),
        ),
    ]);
    let mut w: Vec<Warning> = Vec::new();
    let ctx = ctx(Surface::Extended, Variant::V1JsonRpc);
    match transform_card_body(Some(&body), &ctx, &deny_all_rules(), &mut w) {
        CardOutcome::Governed(v) => {
            assert!(same(v.get("id").unwrap(), &JsonValue::Number("7".into()))); // envelope preserved
            assert!(skill_ids(v.get("result").unwrap()).is_empty());
        }
        other => panic!("unexpected outcome {:?}", other),
    }
}

#[test]
fn empty_ruleset_leaves_the_card_untouched() {
    let c = Config { scope_claim_key: None, default_allow: None, visibility: None, skills: None };
    let mut w: Vec<Warning> = Vec::new();
    let rules = GovernorRules::compile(&c, &mut w);
    let skills = vec![
        obj(vec![("id", text("search")), ("name", text("Search")), ("tags", texts(&["a", "b"]))]),
        skill_obj("secret"),
        obj(vec![("id", text("report")), ("x-extra", JsonValue::Bool(true))]),
    ];
    let card = obj(vec![("name", text("Agent")), ("skills", JsonValue::Array(skills))]);
    assert!(rules.is_inert());
    assert!(matches!(
        transform_card_body(Some(&card), &ctx(Surface::Public, Variant::PublicGet), &rules, &mut w),
        CardOutcome::PassThrough
    ));
    // Even a card that could not be shaped is left alone: the policy is inert.
    let broken = obj(vec![("skills", JsonValue::Array(vec![obj(vec![("id", JsonValue::Null)])]))]);
    assert!(matches!(
        transform_card_body(Some(&broken), &ctx(Surface::Extended, Variant::V1HttpJson), &rules, &mut w),
        CardOutcome::PassThrough
    ));
    assert!(w.is_empty());
    assert!(!rules_denying("a").is_inert());
}
