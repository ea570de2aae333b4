//! Properties of the response side, proved over the specifications that the
//! decoding, encoding and card-shaping contracts use.
use vstd::prelude::*;

use crate::a2a::{json_member, looks_like_agent_card, member_of, JsonView, SkillView, SKILLS_FIELD};
use crate::card::{
    card_outcome, decoded_skill, decoded_skills, decoded_text, decoded_texts, encoded_skill,
    in_jsonrpc_envelope, is_skill_field, located_card, opt_member, opt_text_json, opt_texts_json,
    replaced_member, texts_json, texts_of, unknown_members, with_member, CardOutcomeView,
    ERROR_FIELD, RESULT_FIELD, SKILL_DESCRIPTION, SKILL_EXAMPLES, SKILL_ID, SKILL_INPUT_MODES,
    SKILL_NAME, SKILL_OUTPUT_MODES, SKILL_TAGS,
};
use crate::detect::Variant;
use crate::generated::config::{ConfigView, SkillRuleView, VisibilityRuleView};
use crate::laws::lemma_empty_ruleset_is_passthrough;
use crate::governor::{
    audience_admits, compiled_rules, compiled_upserts, compiled_visibility, find_by_id, rules_inert, gated, governed, injected, lemma_find_by_id, rewritten,
    upsert_step, upserted, GovernorRulesView, IdentityView,
    Surface, UpsertView, WarningView,
};

verus! {

// ---------------------------------------------------------------------------
// Member lookup and unknown members over concatenated member lists
// ---------------------------------------------------------------------------

/// Looking a key up in `a + b` finds it in `a` first, else in `b`.
proof fn lemma_member_of_concat(a: Seq<(Seq<char>, JsonView)>, b: Seq<(Seq<char>, JsonView)>, k: Seq<char>)
    ensures
        member_of(a + b, k) == (if member_of(a, k) is Some {
            member_of(a, k)
        } else {
            member_of(b, k)
        }),
    decreases a.len(),
{
    if a.len() == 0 {
        assert(a + b =~= b);
    } else {
        assert((a + b)[0] == a[0]);
        if a[0].0 != k {
            assert((a + b).drop_first() =~= a.drop_first() + b);
            lemma_member_of_concat(a.drop_first(), b, k);
        }
    }
}

/// `lemma_member_of_concat` for every pair of member lists.
proof fn lemma_member_of_concat_all()
    ensures
        forall|a: Seq<(Seq<char>, JsonView)>, b: Seq<(Seq<char>, JsonView)>, k: Seq<char>|
            #[trigger] member_of(a + b, k) == (if member_of(a, k) is Some {
                member_of(a, k)
            } else {
                member_of(b, k)
            }),
{
    assert forall|a: Seq<(Seq<char>, JsonView)>, b: Seq<(Seq<char>, JsonView)>, k: Seq<char>|
        #[trigger] member_of(a + b, k) == (if member_of(a, k) is Some {
            member_of(a, k)
        } else {
            member_of(b, k)
        }) by {
        lemma_member_of_concat(a, b, k);
    }
}

/// A key that no member carries is not found.
proof fn lemma_member_of_absent(es: Seq<(Seq<char>, JsonView)>, k: Seq<char>)
    requires
        forall|j: int| 0 <= j < es.len() ==> es[j].0 != k,
    ensures
        member_of(es, k) is None,
    decreases es.len(),
{
    if es.len() > 0 {
        assert forall|j: int| 0 <= j < es.len() - 1 implies es.drop_first()[j].0 != k by {
            assert(es.drop_first()[j] == es[j + 1]);
        }
        lemma_member_of_absent(es.drop_first(), k);
    }
}

/// The unknown members of `a + b` are those of `a`, then those of `b`.
proof fn lemma_unknown_members_concat(a: Seq<(Seq<char>, JsonView)>, b: Seq<(Seq<char>, JsonView)>)
    ensures
        unknown_members(a + b) == unknown_members(a) + unknown_members(b),
    decreases b.len(),
{
    if b.len() == 0 {
        assert(a + b =~= a);
        assert(unknown_members(a) + unknown_members(b) =~= unknown_members(a));
    } else {
        assert((a + b).drop_last() =~= a + b.drop_last());
        assert((a + b).last() == b.last());
        lemma_unknown_members_concat(a, b.drop_last());
        if is_skill_field(b.last().0) {
        } else {
            assert(unknown_members(a) + unknown_members(b.drop_last()).push(b.last()) =~= (
            unknown_members(a) + unknown_members(b.drop_last())).push(b.last()));
        }
    }
}

/// `lemma_unknown_members_concat` for every pair of member lists.
proof fn lemma_unknown_members_concat_all()
    ensures
        forall|a: Seq<(Seq<char>, JsonView)>, b: Seq<(Seq<char>, JsonView)>|
            #[trigger] unknown_members(a + b) == unknown_members(a) + unknown_members(b),
{
    assert forall|a: Seq<(Seq<char>, JsonView)>, b: Seq<(Seq<char>, JsonView)>|
        #[trigger] unknown_members(a + b) == unknown_members(a) + unknown_members(b) by {
        lemma_unknown_members_concat(a, b);
    }
}

/// Members none of which is a typed skill field are all unknown members.
proof fn lemma_unknown_members_of_untyped(es: Seq<(Seq<char>, JsonView)>)
    requires
        forall|j: int| 0 <= j < es.len() ==> !is_skill_field(#[trigger] es[j].0),
    ensures
        unknown_members(es) == es,
    decreases es.len(),
{
    if es.len() > 0 {
        lemma_unknown_members_of_untyped(es.drop_last());
        assert(es.drop_last().push(es.last()) =~= es);
    }
}

/// The unknown members of a skill object carry no typed skill field.
pub proof fn lemma_unknown_members_are_untyped(es: Seq<(Seq<char>, JsonView)>)
    ensures
        forall|j: int|
            0 <= j < unknown_members(es).len() ==> !is_skill_field(#[trigger] unknown_members(es)[j].0),
    decreases es.len(),
{
    if es.len() > 0 {
        lemma_unknown_members_are_untyped(es.drop_last());
        let rest = unknown_members(es.drop_last());
        if !is_skill_field(es.last().0) {
            assert forall|j: int| 0 <= j < rest.push(es.last()).len() implies !is_skill_field(
                #[trigger] rest.push(es.last())[j].0,
            ) by {
                if j < rest.len() {
                    assert(rest.push(es.last())[j] == rest[j]);
                }
            }
        }
    }
}

/// The member list of a single optional typed field holds no unknown member.
proof fn lemma_unknown_members_opt(k: Seq<char>, v: Option<JsonView>)
    requires
        is_skill_field(k),
    ensures
        unknown_members(opt_member(k, v)) == Seq::<(Seq<char>, JsonView)>::empty(),
{
    match v {
        Some(x) => {
            let m = seq![(k, x)];
            assert(m.drop_last() =~= Seq::<(Seq<char>, JsonView)>::empty());
            assert(m.last() == (k, x));
            assert(unknown_members(m.drop_last()) == Seq::<(Seq<char>, JsonView)>::empty());
        },
        None => {},
    }
}

/// Looking a key up in the member list of a single optional field.
proof fn lemma_member_of_opt(k: Seq<char>, v: Option<JsonView>, key: Seq<char>)
    ensures
        member_of(opt_member(k, v), key) == (if k == key {
            v
        } else {
            None
        }),
{
    match v {
        Some(x) => {
            let m = seq![(k, x)];
            assert(m[0] == (k, x));
            assert(m.drop_first() =~= Seq::<(Seq<char>, JsonView)>::empty());
            assert(member_of(m.drop_first(), key) is None);
        },
        None => {},
    }
}

/// A list of texts written as a JSON array of strings reads back as itself.
proof fn lemma_texts_of_texts_json(t: Seq<Seq<char>>)
    ensures
        texts_of(texts_json(t)->Array_0) == Some(t),
    decreases t.len(),
{
    let items = t.map_values(|x: Seq<char>| JsonView::Str(x));
    if t.len() > 0 {
        lemma_texts_of_texts_json(t.drop_last());
        assert(items.drop_last() =~= t.drop_last().map_values(|x: Seq<char>| JsonView::Str(x)));
        assert(t.drop_last().push(t.last()) =~= t);
    } else {
        assert(t =~= Seq::<Seq<char>>::empty());
    }
}

/// The typed member names are distinct texts, and each is a skill field.
proof fn lemma_skill_field_names()
    ensures
        is_skill_field(SKILL_ID@),
        is_skill_field(SKILL_NAME@),
        is_skill_field(SKILL_DESCRIPTION@),
        is_skill_field(SKILL_TAGS@),
        is_skill_field(SKILL_EXAMPLES@),
        is_skill_field(SKILL_INPUT_MODES@),
        is_skill_field(SKILL_OUTPUT_MODES@),
        SKILL_ID@ != SKILL_NAME@,
        SKILL_ID@ != SKILL_DESCRIPTION@,
        SKILL_ID@ != SKILL_TAGS@,
        SKILL_ID@ != SKILL_EXAMPLES@,
        SKILL_ID@ != SKILL_INPUT_MODES@,
        SKILL_ID@ != SKILL_OUTPUT_MODES@,
        SKILL_NAME@ != SKILL_DESCRIPTION@,
        SKILL_NAME@ != SKILL_TAGS@,
        SKILL_NAME@ != SKILL_EXAMPLES@,
        SKILL_NAME@ != SKILL_INPUT_MODES@,
        SKILL_NAME@ != SKILL_OUTPUT_MODES@,
        SKILL_DESCRIPTION@ != SKILL_TAGS@,
        SKILL_DESCRIPTION@ != SKILL_EXAMPLES@,
        SKILL_DESCRIPTION@ != SKILL_INPUT_MODES@,
        SKILL_DESCRIPTION@ != SKILL_OUTPUT_MODES@,
        SKILL_TAGS@ != SKILL_EXAMPLES@,
        SKILL_TAGS@ != SKILL_INPUT_MODES@,
        SKILL_TAGS@ != SKILL_OUTPUT_MODES@,
        SKILL_EXAMPLES@ != SKILL_INPUT_MODES@,
        SKILL_EXAMPLES@ != SKILL_OUTPUT_MODES@,
        SKILL_INPUT_MODES@ != SKILL_OUTPUT_MODES@,
{
    reveal_strlit("id");
    reveal_strlit("name");
    reveal_strlit("description");
    reveal_strlit("tags");
    reveal_strlit("examples");
    reveal_strlit("inputModes");
    reveal_strlit("outputModes");
    assert(SKILL_ID@.len() == 2);
    assert(SKILL_EXAMPLES@.len() == 8);
    assert(SKILL_INPUT_MODES@.len() == 10);
    assert(SKILL_NAME@[0] != SKILL_TAGS@[0]);
    assert(SKILL_DESCRIPTION@[0] != SKILL_OUTPUT_MODES@[0]);
}

// ---------------------------------------------------------------------------
// A skill survives encoding and decoding
// ---------------------------------------------------------------------------

/// Whether none of a skill's other members is named like a typed field, as
/// holds of every skill that decoding yields.
pub open spec fn extra_is_untyped(s: SkillView) -> bool {
    forall|j: int| 0 <= j < s.extra.len() ==> !is_skill_field(#[trigger] s.extra[j].0)
}

/// A skill written as a JSON object reads back as the same skill, its other
/// members included, in order; fields it lacks are omitted, not written as
/// `null`. (A skill that carries, among its other members, one named like a
/// typed field is left out: decoding never yields such a skill.)
pub proof fn lemma_skill_round_trips(s: SkillView)
    requires
        extra_is_untyped(s),
    ensures
        decoded_skill(encoded_skill(s)) == Some(s),
{
    lemma_skill_field_names();
    lemma_member_of_concat_all();
    lemma_unknown_members_concat_all();
    let m_id = seq![(SKILL_ID@, JsonView::Str(s.id))];
    let m_name = opt_member(SKILL_NAME@, opt_text_json(s.name));
    let m_desc = opt_member(SKILL_DESCRIPTION@, opt_text_json(s.description));
    let m_tags = opt_member(SKILL_TAGS@, opt_texts_json(s.tags));
    let m_ex = opt_member(SKILL_EXAMPLES@, opt_texts_json(s.examples));
    let m_in = opt_member(SKILL_INPUT_MODES@, opt_texts_json(s.input_modes));
    let m_out = opt_member(SKILL_OUTPUT_MODES@, opt_texts_json(s.output_modes));
    let es = m_id + m_name + m_desc + m_tags + m_ex + m_in + m_out + s.extra;
    assert(encoded_skill(s) == JsonView::Object(es));
    // each typed key is absent from the other members
    lemma_member_of_absent(s.extra, SKILL_ID@);
    lemma_member_of_absent(s.extra, SKILL_NAME@);
    lemma_member_of_absent(s.extra, SKILL_DESCRIPTION@);
    lemma_member_of_absent(s.extra, SKILL_TAGS@);
    lemma_member_of_absent(s.extra, SKILL_EXAMPLES@);
    lemma_member_of_absent(s.extra, SKILL_INPUT_MODES@);
    lemma_member_of_absent(s.extra, SKILL_OUTPUT_MODES@);
    // the single-field lists
    assert(m_id[0].0 == SKILL_ID@);
    assert(member_of(m_id, SKILL_ID@) == Some(JsonView::Str(s.id)));
    assert(m_id.drop_first() =~= Seq::<(Seq<char>, JsonView)>::empty());
    lemma_member_of_opt(SKILL_NAME@, opt_text_json(s.name), SKILL_ID@);
    lemma_member_of_opt(SKILL_DESCRIPTION@, opt_text_json(s.description), SKILL_ID@);
    lemma_member_of_opt(SKILL_TAGS@, opt_texts_json(s.tags), SKILL_ID@);
    lemma_member_of_opt(SKILL_EXAMPLES@, opt_texts_json(s.examples), SKILL_ID@);
    lemma_member_of_opt(SKILL_INPUT_MODES@, opt_texts_json(s.input_modes), SKILL_ID@);
    lemma_member_of_opt(SKILL_OUTPUT_MODES@, opt_texts_json(s.output_modes), SKILL_ID@);
    assert(member_of(es, SKILL_ID@) == Some(JsonView::Str(s.id)));
    lemma_name_field(s, m_id, m_name, m_desc, m_tags, m_ex, m_in, m_out);
    lemma_texts_fields(s, m_id, m_name, m_desc, m_tags, m_ex, m_in, m_out);
    // unknown members
    assert(unknown_members(m_id) == Seq::<(Seq<char>, JsonView)>::empty()) by {
        assert(m_id.drop_last() =~= Seq::<(Seq<char>, JsonView)>::empty());
        assert(m_id.last() == (SKILL_ID@, JsonView::Str(s.id)));
        assert(unknown_members(m_id.drop_last()) == Seq::<(Seq<char>, JsonView)>::empty());
    }
    lemma_unknown_members_opt(SKILL_NAME@, opt_text_json(s.name));
    lemma_unknown_members_opt(SKILL_DESCRIPTION@, opt_text_json(s.description));
    lemma_unknown_members_opt(SKILL_TAGS@, opt_texts_json(s.tags));
    lemma_unknown_members_opt(SKILL_EXAMPLES@, opt_texts_json(s.examples));
    lemma_unknown_members_opt(SKILL_INPUT_MODES@, opt_texts_json(s.input_modes));
    lemma_unknown_members_opt(SKILL_OUTPUT_MODES@, opt_texts_json(s.output_modes));
    lemma_unknown_members_of_untyped(s.extra);
    let e = Seq::<(Seq<char>, JsonView)>::empty();
    assert(unknown_members(es) =~= e + e + e + e + e + e + e + s.extra);
    assert(e + e + e + e + e + e + e + s.extra =~= s.extra);
}

/// The `name` and `description` members of an encoded skill decode to its own.
proof fn lemma_name_field(
    s: SkillView,
    m_id: Seq<(Seq<char>, JsonView)>,
    m_name: Seq<(Seq<char>, JsonView)>,
    m_desc: Seq<(Seq<char>, JsonView)>,
    m_tags: Seq<(Seq<char>, JsonView)>,
    m_ex: Seq<(Seq<char>, JsonView)>,
    m_in: Seq<(Seq<char>, JsonView)>,
    m_out: Seq<(Seq<char>, JsonView)>,
)
    requires
        extra_is_untyped(s),
        m_id == seq![(SKILL_ID@, JsonView::Str(s.id))],
        m_name == opt_member(SKILL_NAME@, opt_text_json(s.name)),
        m_desc == opt_member(SKILL_DESCRIPTION@, opt_text_json(s.description)),
        m_tags == opt_member(SKILL_TAGS@, opt_texts_json(s.tags)),
        m_ex == opt_member(SKILL_EXAMPLES@, opt_texts_json(s.examples)),
        m_in == opt_member(SKILL_INPUT_MODES@, opt_texts_json(s.input_modes)),
        m_out == opt_member(SKILL_OUTPUT_MODES@, opt_texts_json(s.output_modes)),
    ensures
        decoded_text(member_of(m_id + m_name + m_desc + m_tags + m_ex + m_in + m_out + s.extra, SKILL_NAME@))
            == Some(s.name),
        decoded_text(
            member_of(m_id + m_name + m_desc + m_tags + m_ex + m_in + m_out + s.extra, SKILL_DESCRIPTION@),
        ) == Some(s.description),
{
    lemma_skill_field_names();
    lemma_member_of_concat_all();
    lemma_member_of_absent(s.extra, SKILL_NAME@);
    lemma_member_of_absent(s.extra, SKILL_DESCRIPTION@);
    assert(m_id.drop_first() =~= Seq::<(Seq<char>, JsonView)>::empty());
    assert(member_of(m_id, SKILL_NAME@) is None);
    assert(member_of(m_id, SKILL_DESCRIPTION@) is None);
    lemma_member_of_opt(SKILL_NAME@, opt_text_json(s.name), SKILL_NAME@);
    lemma_member_of_opt(SKILL_NAME@, opt_text_json(s.name), SKILL_DESCRIPTION@);
    lemma_member_of_opt(SKILL_DESCRIPTION@, opt_text_json(s.description), SKILL_NAME@);
    lemma_member_of_opt(SKILL_DESCRIPTION@, opt_text_json(s.description), SKILL_DESCRIPTION@);
    lemma_member_of_opt(SKILL_TAGS@, opt_texts_json(s.tags), SKILL_NAME@);
    lemma_member_of_opt(SKILL_TAGS@, opt_texts_json(s.tags), SKILL_DESCRIPTION@);
    lemma_member_of_opt(SKILL_EXAMPLES@, opt_texts_json(s.examples), SKILL_NAME@);
    lemma_member_of_opt(SKILL_EXAMPLES@, opt_texts_json(s.examples), SKILL_DESCRIPTION@);
    lemma_member_of_opt(SKILL_INPUT_MODES@, opt_texts_json(s.input_modes), SKILL_NAME@);
    lemma_member_of_opt(SKILL_INPUT_MODES@, opt_texts_json(s.input_modes), SKILL_DESCRIPTION@);
    lemma_member_of_opt(SKILL_OUTPUT_MODES@, opt_texts_json(s.output_modes), SKILL_NAME@);
    lemma_member_of_opt(SKILL_OUTPUT_MODES@, opt_texts_json(s.output_modes), SKILL_DESCRIPTION@);
}

/// The list-of-texts members of an encoded skill decode to its own.
proof fn lemma_texts_fields(
    s: SkillView,
    m_id: Seq<(Seq<char>, JsonView)>,
    m_name: Seq<(Seq<char>, JsonView)>,
    m_desc: Seq<(Seq<char>, JsonView)>,
    m_tags: Seq<(Seq<char>, JsonView)>,
    m_ex: Seq<(Seq<char>, JsonView)>,
    m_in: Seq<(Seq<char>, JsonView)>,
    m_out: Seq<(Seq<char>, JsonView)>,
)
    requires
        extra_is_untyped(s),
        m_id == seq![(SKILL_ID@, JsonView::Str(s.id))],
        m_name == opt_member(SKILL_NAME@, opt_text_json(s.name)),
        m_desc == opt_member(SKILL_DESCRIPTION@, opt_text_json(s.description)),
        m_tags == opt_member(SKILL_TAGS@, opt_texts_json(s.tags)),
        m_ex == opt_member(SKILL_EXAMPLES@, opt_texts_json(s.examples)),
        m_in == opt_member(SKILL_INPUT_MODES@, opt_texts_json(s.input_modes)),
        m_out == opt_member(SKILL_OUTPUT_MODES@, opt_texts_json(s.output_modes)),
    ensures
        decoded_texts(member_of(m_id + m_name + m_desc + m_tags + m_ex + m_in + m_out + s.extra, SKILL_TAGS@))
            == Some(s.tags),
        decoded_texts(
            member_of(m_id + m_name + m_desc + m_tags + m_ex + m_in + m_out + s.extra, SKILL_EXAMPLES@),
        ) == Some(s.examples),
        decoded_texts(
            member_of(m_id + m_name + m_desc + m_tags + m_ex + m_in + m_out + s.extra, SKILL_INPUT_MODES@),
        ) == Some(s.input_modes),
        decoded_texts(
            member_of(m_id + m_name + m_desc + m_tags + m_ex + m_in + m_out + s.extra, SKILL_OUTPUT_MODES@),
        ) == Some(s.output_modes),
{
    lemma_texts_field(s, m_id, m_name, m_desc, m_tags, m_ex, m_in, m_out, SKILL_TAGS@, s.tags);
    lemma_texts_field(s, m_id, m_name, m_desc, m_tags, m_ex, m_in, m_out, SKILL_EXAMPLES@, s.examples);
    lemma_texts_field(s, m_id, m_name, m_desc, m_tags, m_ex, m_in, m_out, SKILL_INPUT_MODES@, s.input_modes);
    lemma_texts_field(s, m_id, m_name, m_desc, m_tags, m_ex, m_in, m_out, SKILL_OUTPUT_MODES@, s.output_modes);
}

/// One list-of-texts member of an encoded skill decodes to its own.
proof fn lemma_texts_field(
    s: SkillView,
    m_id: Seq<(Seq<char>, JsonView)>,
    m_name: Seq<(Seq<char>, JsonView)>,
    m_desc: Seq<(Seq<char>, JsonView)>,
    m_tags: Seq<(Seq<char>, JsonView)>,
    m_ex: Seq<(Seq<char>, JsonView)>,
    m_in: Seq<(Seq<char>, JsonView)>,
    m_out: Seq<(Seq<char>, JsonView)>,
    key: Seq<char>,
    value: Option<Seq<Seq<char>>>,
)
    requires
        extra_is_untyped(s),
        m_id == seq![(SKILL_ID@, JsonView::Str(s.id))],
        m_name == opt_member(SKILL_NAME@, opt_text_json(s.name)),
        m_desc == opt_member(SKILL_DESCRIPTION@, opt_text_json(s.description)),
        m_tags == opt_member(SKILL_TAGS@, opt_texts_json(s.tags)),
        m_ex == opt_member(SKILL_EXAMPLES@, opt_texts_json(s.examples)),
        m_in == opt_member(SKILL_INPUT_MODES@, opt_texts_json(s.input_modes)),
        m_out == opt_member(SKILL_OUTPUT_MODES@, opt_texts_json(s.output_modes)),
        (key == SKILL_TAGS@ && value == s.tags) || (key == SKILL_EXAMPLES@ && value == s.examples) || (
        key == SKILL_INPUT_MODES@ && value == s.input_modes) || (key == SKILL_OUTPUT_MODES@ && value
            == s.output_modes),
    ensures
        decoded_texts(member_of(m_id + m_name + m_desc + m_tags + m_ex + m_in + m_out + s.extra, key))
            == Some(value),
{
    lemma_skill_field_names();
    lemma_member_of_concat_all();
    lemma_member_of_absent(s.extra, key);
    assert(m_id.drop_first() =~= Seq::<(Seq<char>, JsonView)>::empty());
    assert(member_of(m_id, key) is None);
    lemma_member_of_opt(SKILL_NAME@, opt_text_json(s.name), key);
    lemma_member_of_opt(SKILL_DESCRIPTION@, opt_text_json(s.description), key);
    lemma_member_of_opt(SKILL_TAGS@, opt_texts_json(s.tags), key);
    lemma_member_of_opt(SKILL_EXAMPLES@, opt_texts_json(s.examples), key);
    lemma_member_of_opt(SKILL_INPUT_MODES@, opt_texts_json(s.input_modes), key);
    lemma_member_of_opt(SKILL_OUTPUT_MODES@, opt_texts_json(s.output_modes), key);
    assert(member_of(m_id + m_name + m_desc + m_tags + m_ex + m_in + m_out + s.extra, key)
        == opt_texts_json(value));
    match value {
        Some(t) => {
            lemma_texts_of_texts_json(t);
        },
        None => {},
    }
}

// ---------------------------------------------------------------------------
// Replacing one member of an object
// ---------------------------------------------------------------------------

/// After replacing the member `key`, looking `key` up finds the new value
/// (when the member was there), and every other key finds what it found.
proof fn lemma_member_of_replaced(
    es: Seq<(Seq<char>, JsonView)>,
    key: Seq<char>,
    value: JsonView,
    k: Seq<char>,
)
    ensures
        member_of(replaced_member(es, key, value), k) == (if k == key {
            if member_of(es, key) is Some {
                Some(value)
            } else {
                None
            }
        } else {
            member_of(es, k)
        }),
    decreases es.len(),
{
    if es.len() > 0 {
        let r = replaced_member(es, key, value);
        if es[0].0 == key {
            assert(r[0] == (key, value));
            assert(r.drop_first() =~= es.drop_first());
        } else {
            let tail = replaced_member(es.drop_first(), key, value);
            assert(r == seq![es[0]] + tail);
            assert(r[0] == es[0]);
            assert(r.drop_first() =~= tail);
            lemma_member_of_replaced(es.drop_first(), key, value, k);
        }
    }
}

/// The skills that a card lists, when its `skills` member is an array whose
/// every item describes a skill.
pub open spec fn card_skills(card: JsonView) -> Option<Seq<SkillView>> {
    match json_member(card, SKILLS_FIELD@) {
        Some(JsonView::Array(items)) => decoded_skills(items),
        _ => None,
    }
}

/// The card that a governed response document carries.
pub open spec fn governed_card_of(
    doc: JsonView,
    surface: Surface,
    variant: Variant,
    id: IdentityView,
    rules: GovernorRulesView,
) -> JsonView {
    located_card(card_outcome(Some(doc), surface, variant, id, rules).0->Governed_0, variant)->Some_0
}

/// When a card is governed, only its `skills` member changes, and it becomes
/// the governed skills, encoded in order; on the JSON-RPC bindings only the
/// `result` member of the response changes (its `jsonrpc`, `id` and any other
/// member stay), and the governed card is found where the card was.
pub proof fn lemma_governed_card_changes_only_its_skills(
    doc: JsonView,
    surface: Surface,
    variant: Variant,
    id: IdentityView,
    rules: GovernorRulesView,
)
    requires
        card_outcome(Some(doc), surface, variant, id, rules).0 is Governed,
    ensures
        located_card(card_outcome(Some(doc), surface, variant, id, rules).0->Governed_0, variant) is Some,
        forall|k: Seq<char>|
            k != SKILLS_FIELD@ ==> json_member(governed_card_of(doc, surface, variant, id, rules), k)
                == json_member(located_card(doc, variant)->Some_0, k),
        json_member(governed_card_of(doc, surface, variant, id, rules), SKILLS_FIELD@) == Some(
            JsonView::Array(
                governed(
                    rules,
                    card_skills(located_card(doc, variant)->Some_0)->Some_0,
                    surface,
                    id,
                ).0.map_values(|s: SkillView| encoded_skill(s)),
            ),
        ),
        in_jsonrpc_envelope(variant) ==> forall|k: Seq<char>|
            k != RESULT_FIELD@ ==> json_member(
                card_outcome(Some(doc), surface, variant, id, rules).0->Governed_0,
                k,
            ) == json_member(doc, k),
{
    reveal_strlit("error");
    reveal_strlit("result");
    assert(ERROR_FIELD@.len() != RESULT_FIELD@.len());
    let card = located_card(doc, variant)->Some_0;
    let es = card->Object_0;
    let items = json_member(card, SKILLS_FIELD@)->Some_0->Array_0;
    let skills = decoded_skills(items)->Some_0;
    let arr = JsonView::Array(governed(rules, skills, surface, id).0.map_values(|s: SkillView| encoded_skill(s)));
    let new_card = with_member(card, SKILLS_FIELD@, arr);
    assert(new_card == JsonView::Object(replaced_member(es, SKILLS_FIELD@, arr)));
    assert forall|k: Seq<char>| #[trigger] json_member(new_card, k) == (if k == SKILLS_FIELD@ {
        Some(arr)
    } else {
        json_member(card, k)
    }) by {
        lemma_member_of_replaced(es, SKILLS_FIELD@, arr, k);
    }
    let out = card_outcome(Some(doc), surface, variant, id, rules).0->Governed_0;
    if in_jsonrpc_envelope(variant) {
        let des = doc->Object_0;
        assert(out == JsonView::Object(replaced_member(des, RESULT_FIELD@, new_card)));
        assert forall|k: Seq<char>| #[trigger] json_member(out, k) == (if k == RESULT_FIELD@ {
            Some(new_card)
        } else {
            json_member(doc, k)
        }) by {
            lemma_member_of_replaced(des, RESULT_FIELD@, new_card, k);
        }
        assert(json_member(out, ERROR_FIELD@) is None);
        assert(located_card(out, variant) == Some(new_card));
    } else {
        assert(located_card(out, variant) == Some(new_card));
    }
}

// ---------------------------------------------------------------------------
// A governed card lists exactly the governed skills
// ---------------------------------------------------------------------------

/// Whether no skill of `ss` carries, among its other members, one named like
/// a typed field.
pub open spec fn all_extra_untyped(ss: Seq<SkillView>) -> bool {
    forall|i: int| 0 <= i < ss.len() ==> extra_is_untyped(#[trigger] ss[i])
}

/// Decoded skills carry no other member named like a typed field.
proof fn lemma_decoded_skills_untyped(items: Seq<JsonView>)
    ensures
        decoded_skills(items) matches Some(ss) ==> all_extra_untyped(ss),
    decreases items.len(),
{
    if items.len() > 0 {
        lemma_decoded_skills_untyped(items.drop_last());
        match (decoded_skills(items.drop_last()), decoded_skill(items.last())) {
            (Some(ss), Some(sk)) => {
                lemma_unknown_members_are_untyped(items.last()->Object_0);
                assert forall|i: int| 0 <= i < ss.push(sk).len() implies extra_is_untyped(
                    #[trigger] ss.push(sk)[i],
                ) by {
                    if i < ss.len() {
                        assert(ss.push(sk)[i] == ss[i]);
                    }
                }
            },
            _ => {},
        }
    }
}

/// The visibility gate keeps skills as they are, so it keeps this property.
proof fn lemma_gated_untyped(rules: GovernorRulesView, skills: Seq<SkillView>, surface: Surface, id: IdentityView)
    requires
        all_extra_untyped(skills),
    ensures
        all_extra_untyped(gated(rules, skills, surface, id)),
    decreases skills.len(),
{
    if skills.len() > 0 {
        assert(all_extra_untyped(skills.drop_last())) by {
            assert forall|i: int| 0 <= i < skills.drop_last().len() implies extra_is_untyped(
                #[trigger] skills.drop_last()[i],
            ) by {
                assert(skills.drop_last()[i] == skills[i]);
            }
        }
        lemma_gated_untyped(rules, skills.drop_last(), surface, id);
        let rest = gated(rules, skills.drop_last(), surface, id);
        assert(extra_is_untyped(skills[skills.len() - 1]));
        assert forall|i: int| 0 <= i < rest.push(skills.last()).len() implies extra_is_untyped(
            #[trigger] rest.push(skills.last())[i],
        ) by {
            if i < rest.len() {
                assert(rest.push(skills.last())[i] == rest[i]);
            }
        }
    }
}

/// Rewrites keep a skill's other members and injections bring none, so the
/// upsert entries keep this property.
proof fn lemma_upserted_untyped(
    start: (Seq<SkillView>, Seq<WarningView>),
    ups: Seq<UpsertView>,
    surface: Surface,
    id: IdentityView,
    denied: Seq<Seq<char>>,
)
    requires
        all_extra_untyped(start.0),
    ensures
        all_extra_untyped(upserted(start, ups, surface, id, denied).0),
    decreases ups.len(),
{
    if ups.len() > 0 {
        lemma_upserted_untyped(start, ups.drop_last(), surface, id, denied);
        let prev = upserted(start, ups.drop_last(), surface, id, denied);
        let cur = prev.0;
        let u = ups.last();
        let next = upsert_step(prev, u, surface, id, denied).0;
        if audience_admits(u.audience, surface, id) {
            lemma_find_by_id(cur, u.skill.id);
            match find_by_id(cur, u.skill.id) {
                Some(k) => {
                    assert(next == cur.update(k, rewritten(cur[k], u.skill)));
                    assert forall|i: int| 0 <= i < next.len() implies extra_is_untyped(
                        #[trigger] next[i],
                    ) by {
                        if i != k {
                            assert(next[i] == cur[i]);
                        } else {
                            assert(extra_is_untyped(cur[k]));
                        }
                    }
                },
                None => {
                    if u.skill.name is Some && u.skill.description is Some {
                        assert(next == cur.push(injected(u.skill)));
                        assert forall|i: int| 0 <= i < next.len() implies extra_is_untyped(
                            #[trigger] next[i],
                        ) by {
                            if i < cur.len() {
                                assert(next[i] == cur[i]);
                            }
                        }
                    }
                },
            }
        }
    }
}

/// Encoded skills decode back to themselves, in order.
proof fn lemma_decoded_skills_of_encoded(ss: Seq<SkillView>)
    requires
        all_extra_untyped(ss),
    ensures
        decoded_skills(ss.map_values(|s: SkillView| encoded_skill(s))) == Some(ss),
    decreases ss.len(),
{
    let items = ss.map_values(|s: SkillView| encoded_skill(s));
    if ss.len() > 0 {
        assert(items.drop_last() =~= ss.drop_last().map_values(|s: SkillView| encoded_skill(s)));
        assert(all_extra_untyped(ss.drop_last())) by {
            assert forall|i: int| 0 <= i < ss.drop_last().len() implies extra_is_untyped(
                #[trigger] ss.drop_last()[i],
            ) by {
                assert(ss.drop_last()[i] == ss[i]);
            }
        }
        lemma_decoded_skills_of_encoded(ss.drop_last());
        assert(extra_is_untyped(ss[ss.len() - 1]));
        lemma_skill_round_trips(ss.last());
        assert(items.last() == encoded_skill(ss.last()));
        assert(ss.drop_last().push(ss.last()) =~= ss);
    } else {
        assert(ss =~= Seq::<SkillView>::empty());
    }
}

/// A governed card lists exactly the governed skills: its `skills` array
/// decodes to what governing the card's own skills yields, so no skill that
/// the rules remove reaches the caller, and every injected or rewritten skill
/// does.
pub proof fn lemma_governed_card_lists_exactly_the_governed_skills(
    doc: JsonView,
    surface: Surface,
    variant: Variant,
    id: IdentityView,
    rules: GovernorRulesView,
)
    requires
        card_outcome(Some(doc), surface, variant, id, rules).0 is Governed,
    ensures
        card_skills(located_card(doc, variant)->Some_0) is Some,
        card_skills(governed_card_of(doc, surface, variant, id, rules)) == Some(
            governed(rules, card_skills(located_card(doc, variant)->Some_0)->Some_0, surface, id).0,
        ),
{
    lemma_governed_card_changes_only_its_skills(doc, surface, variant, id, rules);
    let card = located_card(doc, variant)->Some_0;
    let items = json_member(card, SKILLS_FIELD@)->Some_0->Array_0;
    let skills = decoded_skills(items)->Some_0;
    lemma_decoded_skills_untyped(items);
    lemma_gated_untyped(rules, skills, surface, id);
    lemma_upserted_untyped(
        (gated(rules, skills, surface, id), Seq::empty()),
        rules.upserts,
        surface,
        id,
        crate::governor::denied_ids(rules, skills, surface, id),
    );
    lemma_decoded_skills_of_encoded(governed(rules, skills, surface, id).0);
}

// ---------------------------------------------------------------------------
// Which responses are governed
// ---------------------------------------------------------------------------

/// A response passes through untouched exactly when the rules change nothing,
/// or it is not JSON, carries no card where its binding puts one (a JSON-RPC
/// error among them), or that card has no `skills` array; a confirmed card
/// under rules that do something fails closed exactly when an item of its
/// `skills` array does not describe a skill, so an ungoverned skill list
/// never passes; and only a governed card brings warnings.
pub proof fn lemma_which_responses_are_governed(
    doc: Option<JsonView>,
    surface: Surface,
    variant: Variant,
    id: IdentityView,
    rules: GovernorRulesView,
)
    ensures
        card_outcome(doc, surface, variant, id, rules).0 is PassThrough <==> (rules_inert(rules)
            || doc is None || located_card(doc->Some_0, variant) is None || !looks_like_agent_card(
            located_card(doc->Some_0, variant)->Some_0,
        )),
        card_outcome(doc, surface, variant, id, rules).0 is FailClosed <==> (!rules_inert(rules)
            && doc is Some && located_card(doc->Some_0, variant) is Some && looks_like_agent_card(
            located_card(doc->Some_0, variant)->Some_0,
        ) && card_skills(located_card(doc->Some_0, variant)->Some_0) is None),
        doc matches Some(d) && in_jsonrpc_envelope(variant) && json_member(d, ERROR_FIELD@) is Some
            ==> card_outcome(doc, surface, variant, id, rules).0 is PassThrough,
        !(card_outcome(doc, surface, variant, id, rules).0 is Governed) ==> card_outcome(
            doc,
            surface,
            variant,
            id,
            rules,
        ).1 == Seq::<WarningView>::empty(),
{
}

// ---------------------------------------------------------------------------
// An empty ruleset leaves every response as it is
// ---------------------------------------------------------------------------

/// With no visibility rule, no upsert entry and a default posture that is not
/// `false`, the policy is inert: every response body passes through
/// untouched, byte for byte, and no warning is met.
pub proof fn lemma_empty_ruleset_leaves_responses_untouched(
    config: ConfigView,
    doc: Option<JsonView>,
    surface: Surface,
    variant: Variant,
    id: IdentityView,
)
    requires
        config.visibility is None || config.visibility == Some(Seq::<VisibilityRuleView>::empty()),
        config.skills is None || config.skills == Some(Seq::<SkillRuleView>::empty()),
        config.default_allow != Some(false),
    ensures
        compiled_rules(config).1 == Seq::<WarningView>::empty(),
        card_outcome(doc, surface, variant, id, compiled_rules(config).0) == (
            CardOutcomeView::PassThrough,
            Seq::<WarningView>::empty(),
        ),
{
    lemma_empty_ruleset_is_passthrough(config, Seq::empty(), surface, id);
    assert(compiled_visibility(Seq::<VisibilityRuleView>::empty()).0.len() == 0);
    assert(compiled_upserts(Seq::<SkillRuleView>::empty()).0.len() == 0);
    assert(rules_inert(compiled_rules(config).0));
}

} // verus!
