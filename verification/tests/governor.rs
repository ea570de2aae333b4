use a_two_a_agent_card_skill_governor::a2a::{JsonValue, Skill};
use a_two_a_agent_card_skill_governor::generated::config::{
    Config, SkillPayload, SkillRule, VisibilityRule,
};
use a_two_a_agent_card_skill_governor::governor::{
    glob_match, GovernorRules, Identity, Surface, Warning,
};

fn skill(id: &str) -> Skill {
    Skill {
        id: id.into(),
        name: Some(id.into()),
        description: None,
        tags: None,
        examples: None,
        input_modes: None,
        output_modes: None,
        extra: Vec::new(),
    }
}

fn cfg(vis: Vec<VisibilityRule>, sk: Vec<SkillRule>, default_allow: bool) -> Config {
    Config {
        scope_claim_key: None,
        default_allow: Some(default_allow),
        visibility: Some(vis),
        skills: Some(sk),
    }
}

fn vis(effect: &str, at: &str, av: Option<&str>, sid: Option<&str>) -> VisibilityRule {
    VisibilityRule {
        effect: effect.into(),
        audience_type: Some(at.into()),
        audience_value: av.map(Into::into),
        skill_id: sid.map(Into::into),
        skill_id_pattern: None,
    }
}

fn payload(id: &str, name: Option<&str>, description: Option<&str>) -> SkillPayload {
    SkillPayload {
        id: id.into(),
        name: name.map(Into::into),
        description: description.map(Into::into),
        tags: None,
        examples: None,
        input_modes: None,
        output_modes: None,
    }
}

fn upsert(at: Option<&str>, av: Option<&str>, skill: SkillPayload) -> SkillRule {
    SkillRule {
        audience_type: at.map(Into::into),
        audience_value: av.map(Into::into),
        skill,
    }
}

fn anon() -> Identity {
    Identity::default()
}

fn ids(out: &[Skill]) -> Vec<String> {
    out.iter().map(|s| s.id.clone()).collect()
}

#[test]
fn empty_ruleset_is_full_passthrough() {
    let c = Config {
        scope_claim_key: None,
        default_allow: Some(true),
        visibility: Some(vec![]),
        skills: Some(vec![]),
    };
    let mut w = Vec::new();
    let g = GovernorRules::compile(&c, &mut w);
    let out = g.govern(vec![skill("a"), skill("b")], Surface::Public, &anon(), &mut w);
    assert_eq!(out.len(), 2);
}

#[test]
fn deny_removes_skill_first_match_wins() {
    let c = cfg(
        vec![
            vis("deny", "any", None, Some("a")),
            vis("allow", "any", None, Some("a")),
        ],
        vec![],
        true,
    );
    let mut w = Vec::new();
    let g = GovernorRules::compile(&c, &mut w);
    let out = g.govern(vec![skill("a"), skill("b")], Surface::Extended, &anon(), &mut w);
    assert_eq!(ids(&out), vec!["b"]);
}

#[test]
fn default_deny_hides_unmatched() {
    let c = cfg(vec![vis("allow", "any", None, Some("a"))], vec![], false);
    let mut w = Vec::new();
    let g = GovernorRules::compile(&c, &mut w);
    let out = g.govern(vec![skill("a"), skill("b")], Surface::Extended, &anon(), &mut w);
    assert_eq!(ids(&out), vec!["a"]);
}

#[test]
fn identity_rule_noops_on_public_surface() {
    // deny client=acme on a: must NOT apply on the public (unauthenticated) card
    let c = cfg(vec![vis("deny", "client", Some("acme"), Some("a"))], vec![], true);
    let mut w = Vec::new();
    let g = GovernorRules::compile(&c, &mut w);
    let out = g.govern(vec![skill("a")], Surface::Public, &anon(), &mut w);
    assert_eq!(out.len(), 1); // survived: identity rule ignored on public
}

#[test]
fn scope_rule_matches_on_extended() {
    let c = cfg(vec![vis("deny", "scope", Some("admin"), Some("a"))], vec![], true);
    let id = Identity {
        scopes: vec!["admin".into()],
        ..Default::default()
    };
    let mut w = Vec::new();
    let g = GovernorRules::compile(&c, &mut w);
    let out = g.govern(vec![skill("a")], Surface::Extended, &id, &mut w);
    assert!(out.is_empty());
}

#[test]
fn upsert_rewrites_existing_wholesale_arrays() {
    let sr = SkillRule {
        audience_type: Some("any".into()),
        audience_value: None,
        skill: SkillPayload {
            id: "a".into(),
            name: Some("New".into()),
            description: None,
            tags: Some(vec!["x".into()]),
            examples: None,
            input_modes: None,
            output_modes: None,
        },
    };
    let c = cfg(vec![], vec![sr], true);
    let mut base = skill("a");
    base.tags = Some(vec!["old1".into(), "old2".into()]);
    let mut w = Vec::new();
    let g = GovernorRules::compile(&c, &mut w);
    let out = g.govern(vec![base], Surface::Extended, &anon(), &mut w);
    assert_eq!(out[0].name.as_deref(), Some("New"));
    assert_eq!(out[0].tags, Some(vec!["x".into()])); // replaced wholesale, not merged
}

#[test]
fn upsert_injects_new_skill_appended() {
    let sr = SkillRule {
        audience_type: Some("any".into()),
        audience_value: None,
        skill: SkillPayload {
            id: "new".into(),
            name: Some("N".into()),
            description: Some("D".into()),
            tags: None,
            examples: None,
            input_modes: None,
            output_modes: None,
        },
    };
    let c = cfg(vec![], vec![sr], true);
    let mut w = Vec::new();
    let g = GovernorRules::compile(&c, &mut w);
    let out = g.govern(vec![skill("a")], Surface::Extended, &anon(), &mut w);
    assert_eq!(ids(&out), vec!["a", "new"]);
}

#[test]
fn inject_missing_name_or_description_warns_and_skips() {
    let sr = SkillRule {
        audience_type: Some("any".into()),
        audience_value: None,
        skill: SkillPayload {
            id: "bad".into(),
            name: None,
            description: None,
            tags: None,
            examples: None,
            input_modes: None,
            output_modes: None,
        },
    };
    let c = cfg(vec![], vec![sr], true);
    let mut warnings: Vec<Warning> = Vec::new();
    let g = GovernorRules::compile(&c, &mut warnings);
    let out = g.govern(vec![skill("a")], Surface::Extended, &anon(), &mut warnings);
    assert_eq!(out.len(), 1); // "bad" not injected
    assert!(warnings
        .iter()
        .map(|w| w.message())
        .any(|m| m.contains("bad") && m.contains("name")));
}

#[test]
fn glob_pattern_denies_matching_skills() {
    let mut r = vis("deny", "any", None, None);
    r.skill_id_pattern = Some("admin.*".into());
    let c = cfg(vec![r], vec![], true);
    let mut w = Vec::new();
    let g = GovernorRules::compile(&c, &mut w);
    let out = g.govern(
        vec![skill("admin.reset"), skill("user.read")],
        Surface::Extended,
        &anon(),
        &mut w,
    );
    assert_eq!(ids(&out), vec!["user.read"]);
}

// ---------------------------------------------------------------------------
// Further cases
// ---------------------------------------------------------------------------

#[test]
fn absent_config_is_passthrough_without_warnings() {
    let c = Config::default();
    let mut w = Vec::new();
    let g = GovernorRules::compile(&c, &mut w);
    let mut extra_skill = skill("c");
    extra_skill.extra = vec![("securityRequirements".to_string(), JsonValue::Array(vec![]))];
    let out = g.govern(
        vec![skill("a"), skill("b"), extra_skill],
        Surface::Extended,
        &anon(),
        &mut w,
    );
    assert_eq!(ids(&out), vec!["a", "b", "c"]);
    assert_eq!(out[2].extra.len(), 1);
    assert_eq!(out[2].extra[0].0, "securityRequirements");
    assert!(w.is_empty());
}

#[test]
fn public_card_result_does_not_depend_on_identity() {
    let c = cfg(
        vec![
            vis("deny", "client", Some("acme"), Some("a")),
            vis("deny", "tier", Some("gold"), Some("b")),
            vis("deny", "any", None, Some("c")),
        ],
        vec![upsert(Some("scope"), Some("partner"), payload("p", Some("P"), Some("D")))],
        true,
    );
    let mut w = Vec::new();
    let g = GovernorRules::compile(&c, &mut w);
    let acme = Identity {
        client_id: Some("acme".into()),
        client_name: None,
        tier: Some("gold".into()),
        scopes: vec!["partner".into()],
    };
    let a = g.govern(vec![skill("a"), skill("b"), skill("c")], Surface::Public, &acme, &mut w);
    let b = g.govern(vec![skill("a"), skill("b"), skill("c")], Surface::Public, &anon(), &mut w);
    assert_eq!(ids(&a), vec!["a", "b"]);
    assert_eq!(ids(&a), ids(&b));
    // The same rules bind on the extended card.
    let e = g.govern(vec![skill("a"), skill("b"), skill("c")], Surface::Extended, &acme, &mut w);
    assert_eq!(ids(&e), vec!["p"]);
}

#[test]
fn client_audience_matches_id_or_name() {
    let c = cfg(vec![vis("deny", "client", Some("acme"), Some("a"))], vec![], true);
    let mut w = Vec::new();
    let g = GovernorRules::compile(&c, &mut w);
    let by_name = Identity {
        client_id: Some("123".into()),
        client_name: Some("acme".into()),
        tier: None,
        scopes: vec![],
    };
    assert!(g.govern(vec![skill("a")], Surface::Extended, &by_name, &mut w).is_empty());
    let other = Identity {
        client_id: Some("zzz".into()),
        client_name: None,
        tier: None,
        scopes: vec![],
    };
    assert_eq!(g.govern(vec![skill("a")], Surface::Extended, &other, &mut w).len(), 1);
}

#[test]
fn tier_audience_matches_tier() {
    let c = cfg(vec![vis("deny", "tier", Some("basic"), Some("billing.refund"))], vec![], true);
    let mut w = Vec::new();
    let g = GovernorRules::compile(&c, &mut w);
    let basic = Identity { tier: Some("basic".into()), ..Default::default() };
    let gold = Identity { tier: Some("gold".into()), ..Default::default() };
    assert!(g.govern(vec![skill("billing.refund")], Surface::Extended, &basic, &mut w).is_empty());
    assert_eq!(g.govern(vec![skill("billing.refund")], Surface::Extended, &gold, &mut w).len(), 1);
}

#[test]
fn misconfigured_rules_are_dropped_with_one_warning_each() {
    let mut pat = vis("deny", "any", None, None);
    pat.skill_id_pattern = Some("".into()); // empty pattern: global rule
    let c = Config {
        scope_claim_key: None,
        default_allow: None,
        visibility: Some(vec![
            vis("block", "any", None, Some("a")),
            vis("deny", "client", None, Some("a")),
            vis("deny", "scope", Some(""), Some("a")),
            vis("deny", "team", Some("x"), Some("a")),
            vis("allow", "any", None, Some("keep")),
            pat,
        ]),
        skills: Some(vec![
            upsert(None, None, payload("", Some("N"), Some("D"))),
            upsert(Some("tier"), None, payload("t", Some("N"), Some("D"))),
        ]),
    };
    let mut w = Vec::new();
    let g = GovernorRules::compile(&c, &mut w);
    let msgs: Vec<String> = w.iter().map(|x| x.message()).collect();
    assert_eq!(
        msgs,
        vec![
            "unknown visibility effect 'block' \u{2014} dropped".to_string(),
            "rule with audienceType 'client' missing audienceValue \u{2014} dropped".to_string(),
            "rule with audienceType 'scope' missing audienceValue \u{2014} dropped".to_string(),
            "unknown audienceType 'team' \u{2014} dropped".to_string(),
            "skill upsert with empty id \u{2014} dropped".to_string(),
            "rule with audienceType 'tier' missing audienceValue \u{2014} dropped".to_string(),
        ]
    );
    assert!(matches!(&w[0], Warning::UnknownEffect(e) if e == "block"));
    assert!(matches!(w[4], Warning::EmptyUpsertId));
    // Only the allow-keep rule and the global deny survive.
    let mut w2 = Vec::new();
    let out = g.govern(vec![skill("keep"), skill("a"), skill("b")], Surface::Extended, &anon(), &mut w2);
    assert_eq!(ids(&out), vec!["keep"]);
    assert!(w2.is_empty());
}

#[test]
fn deny_then_reinject_warns_and_injects() {
    let c = cfg(
        vec![vis("deny", "any", None, Some("a"))],
        vec![upsert(None, None, payload("a", Some("Governed"), Some("Governed A")))],
        true,
    );
    let mut w = Vec::new();
    let g = GovernorRules::compile(&c, &mut w);
    let out = g.govern(vec![skill("a"), skill("b")], Surface::Extended, &anon(), &mut w);
    assert_eq!(ids(&out), vec!["b", "a"]);
    assert_eq!(out[1].name.as_deref(), Some("Governed"));
    assert!(out[1].extra.is_empty());
    assert_eq!(w.len(), 1);
    assert_eq!(w[0].message(), "skill 'a' was denied then re-injected");
}

#[test]
fn upserts_layer_in_declaration_order() {
    let mut second = payload("a", None, Some("second"));
    second.examples = Some(vec!["e1".into()]);
    let c = cfg(
        vec![],
        vec![
            upsert(None, None, payload("a", Some("first"), Some("first"))),
            upsert(None, None, second),
            upsert(Some("scope"), Some("x"), payload("a", Some("never"), None)),
        ],
        true,
    );
    let mut w = Vec::new();
    let g = GovernorRules::compile(&c, &mut w);
    let mut base = skill("a");
    base.tags = Some(vec!["t".into()]);
    base.extra = vec![("k".to_string(), JsonValue::Null)];
    let out = g.govern(vec![base], Surface::Extended, &anon(), &mut w);
    assert_eq!(out.len(), 1);
    assert_eq!(out[0].name.as_deref(), Some("first"));
    assert_eq!(out[0].description.as_deref(), Some("second"));
    assert_eq!(out[0].tags, Some(vec!["t".to_string()]));
    assert_eq!(out[0].examples, Some(vec!["e1".to_string()]));
    assert_eq!(out[0].extra.len(), 1);
}

#[test]
fn injected_skill_wins_over_later_collision_and_rewrite_hits_first_duplicate() {
    let c = cfg(
        vec![],
        vec![
            upsert(None, None, payload("n", Some("N1"), Some("D1"))),
            upsert(None, None, payload("n", Some("N2"), None)),
        ],
        true,
    );
    let mut w = Vec::new();
    let g = GovernorRules::compile(&c, &mut w);
    let out = g.govern(vec![skill("d"), skill("d")], Surface::Extended, &anon(), &mut w);
    assert_eq!(ids(&out), vec!["d", "d", "n"]);
    assert_eq!(out[2].name.as_deref(), Some("N2"));
    assert_eq!(out[2].description.as_deref(), Some("D1"));
}

#[test]
fn glob_matching_on_characters() {
    assert!(glob_match("*", ""));
    assert!(glob_match("*", "anything"));
    assert!(glob_match("admin.*", "admin."));
    assert!(glob_match("a?c", "abc"));
    assert!(!glob_match("a?c", "ac"));
    assert!(glob_match("*.read", "user.read"));
    assert!(!glob_match("*.read", "user.write"));
    assert!(glob_match("exact", "exact"));
    assert!(!glob_match("exact", "exactly"));
    // `?` matches one character, whatever its UTF-8 length.
    assert!(glob_match("?", "é"));
    assert!(glob_match("a?c", "aéc"));
    assert!(!glob_match("??", "é"));
    assert!(glob_match("*é", "café"));
    assert!(glob_match("a*b*c", "a-x-b-y-c"));
}
