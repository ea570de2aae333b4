use a_two_a_agent_card_skill_governor::a2a::{is_agent_card, JsonValue};

fn obj(entries: Vec<(&str, JsonValue)>) -> JsonValue {
    JsonValue::Object(entries.into_iter().map(|(k, v)| (k.to_string(), v)).collect())
}

fn text(s: &str) -> JsonValue {
    JsonValue::Str(s.to_string())
}

#[test]
fn detects_agent_card_by_skills_array() {
    let card = obj(vec![("name", text("Agent")), ("skills", JsonValue::Array(vec![]))]);
    assert!(is_agent_card(&card));
    let not_card = obj(vec![("jsonrpc", text("2.0")), ("result", JsonValue::Number("1".to_string()))]);
    assert!(!is_agent_card(&not_card));
    let skills_not_array = obj(vec![("skills", text("nope"))]);
    assert!(!is_agent_card(&skills_not_array));
}

#[test]
fn non_objects_are_not_cards() {
    assert!(!is_agent_card(&JsonValue::Array(vec![obj(vec![("skills", JsonValue::Array(vec![]))])])));
    assert!(!is_agent_card(&JsonValue::Null));
    assert!(!is_agent_card(&text("skills")));
    assert!(!is_agent_card(&obj(vec![])));
}

#[test]
fn json_member_lookup_and_accessors() {
    let v = obj(vec![("a", text("x")), ("b", JsonValue::Bool(true))]);
    assert!(matches!(v.get("a"), Some(JsonValue::Str(s)) if s == "x"));
    assert!(v.get("c").is_none());
    assert_eq!(v.get("a").unwrap().as_str(), Some("x"));
    assert_eq!(v.get("b").unwrap().as_str(), None);
    assert!(!v.is_array());
    assert!(text("q").get("a").is_none());
}
