//! The response side: locating the Agent Card in a response document,
//! decoding and re-encoding its skills, governing them, and the fail-closed
//! bodies that replace a card that cannot be shaped.
use vstd::prelude::*;

use crate::a2a::{
    views, is_agent_card, items_view, json_member, lemma_json_view_children, looks_like_agent_card,
    member_of, members_view, JsonValue, JsonView, Skill, SkillView, SKILLS_FIELD,
};
use crate::detect::Variant;
use crate::governor::{
    governed, rules_inert, GovernorRules, GovernorRulesView, IdentityView, Surface, Warning, WarningView,
};
use crate::policy::CardContext;
use crate::text::str_equals;
use vstd::string::*;

verus! {

/// Member names of a skill object.
pub const SKILL_ID: &'static str = "id";

pub const SKILL_NAME: &'static str = "name";

pub const SKILL_DESCRIPTION: &'static str = "description";

pub const SKILL_TAGS: &'static str = "tags";

pub const SKILL_EXAMPLES: &'static str = "examples";

pub const SKILL_INPUT_MODES: &'static str = "inputModes";

pub const SKILL_OUTPUT_MODES: &'static str = "outputModes";

/// A copy of a JSON value, member by member and item by item.
pub fn copy_json(v: &JsonValue) -> (r: JsonValue)
    ensures
        r@ == v@,
    decreases v,
{
    proof {
        lemma_json_view_children(*v);
    }
    match v {
        JsonValue::Null => JsonValue::Null,
        JsonValue::Bool(b) => JsonValue::Bool(*b),
        JsonValue::Number(n) => JsonValue::Number(n.clone()),
        JsonValue::Str(s) => JsonValue::Str(s.clone()),
        JsonValue::Array(items) => {
            let mut out: Vec<JsonValue> = Vec::new();
            let mut i: usize = 0;
            while i < items.len()
                invariant
                    0 <= i <= items@.len(),
                    *v == JsonValue::Array(*items),
                    out@.len() == i,
                    forall|k: int| 0 <= k < i ==> out@[k]@ == items@[k]@,
                decreases items@.len() - i,
            {
                proof {
                    assert(decreases_to!(*v => (*v)->Array_0));
                    assert(decreases_to!(items => items@));
                    assert(decreases_to!(items@ => items@[i as int]));
                }
                let c = copy_json(&items[i]);
                out.push(c);
                i = i + 1;
            }
            let r = JsonValue::Array(out);
            proof {
                lemma_json_view_children(r);
                assert(items_view(out@) =~= items_view(items@));
            }
            r
        },
        JsonValue::Object(entries) => {
            let mut out: Vec<(String, JsonValue)> = Vec::new();
            let mut i: usize = 0;
            while i < entries.len()
                invariant
                    0 <= i <= entries@.len(),
                    *v == JsonValue::Object(*entries),
                    out@.len() == i,
                    forall|k: int|
                        0 <= k < i ==> out@[k].0@ == entries@[k].0@ && out@[k].1@ == entries@[k].1@,
                decreases entries@.len() - i,
            {
                proof {
                    assert(decreases_to!(*v => (*v)->Object_0));
                    assert(decreases_to!(entries => entries@));
                    assert(decreases_to!(entries@ => entries@[i as int]));
                    assert(decreases_to!(entries@[i as int] => entries@[i as int].1));
                }
                let c = copy_json(&entries[i].1);
                out.push((entries[i].0.clone(), c));
                i = i + 1;
            }
            let r = JsonValue::Object(out);
            proof {
                lemma_json_view_children(r);
                assert(members_view(out@) =~= members_view(entries@));
            }
            r
        },
    }
}

/// Whether `k` names a typed member of a skill object.
pub open spec fn is_skill_field(k: Seq<char>) -> bool {
    ||| k == SKILL_ID@
    ||| k == SKILL_NAME@
    ||| k == SKILL_DESCRIPTION@
    ||| k == SKILL_TAGS@
    ||| k == SKILL_EXAMPLES@
    ||| k == SKILL_INPUT_MODES@
    ||| k == SKILL_OUTPUT_MODES@
}

fn skill_field(k: &str) -> (r: bool)
    ensures
        r == is_skill_field(k@),
{
    str_equals(k, SKILL_ID) || str_equals(k, SKILL_NAME) || str_equals(k, SKILL_DESCRIPTION)
        || str_equals(k, SKILL_TAGS) || str_equals(k, SKILL_EXAMPLES) || str_equals(
        k,
        SKILL_INPUT_MODES,
    ) || str_equals(k, SKILL_OUTPUT_MODES)
}

/// An optional text member: absent or `null` reads as none, a string as its
/// text; any other value does not decode (the outer `None`).
pub open spec fn decoded_text(m: Option<JsonView>) -> Option<Option<Seq<char>>> {
    match m {
        None => Some(None),
        Some(JsonView::Null) => Some(None),
        Some(JsonView::Str(s)) => Some(Some(s)),
        _ => None,
    }
}

/// The texts of an array whose items are all strings.
pub open spec fn texts_of(items: Seq<JsonView>) -> Option<Seq<Seq<char>>>
    decreases items.len(),
{
    if items.len() == 0 {
        Some(Seq::empty())
    } else {
        match (texts_of(items.drop_last()), items.last()) {
            (Some(t), JsonView::Str(s)) => Some(t.push(s)),
            _ => None,
        }
    }
}

/// An optional list-of-texts member: absent or `null` reads as none, an
/// array of strings as its texts; any other value does not decode.
pub open spec fn decoded_texts(m: Option<JsonView>) -> Option<Option<Seq<Seq<char>>>> {
    match m {
        None => Some(None),
        Some(JsonView::Null) => Some(None),
        Some(JsonView::Array(items)) => match texts_of(items) {
            Some(t) => Some(Some(t)),
            None => None,
        },
        _ => None,
    }
}

/// The members of a skill object that are not typed skill fields, in order.
pub open spec fn unknown_members(es: Seq<(Seq<char>, JsonView)>) -> Seq<(Seq<char>, JsonView)>
    decreases es.len(),
{
    if es.len() == 0 {
        Seq::empty()
    } else {
        let rest = unknown_members(es.drop_last());
        if is_skill_field(es.last().0) {
            rest
        } else {
            rest.push(es.last())
        }
    }
}

/// The skill that a JSON value describes: an object with a string `id`,
/// optional text `name` and `description`, optional lists of texts `tags`,
/// `examples`, `inputModes` and `outputModes`, and any other members kept
/// aside; `None` when it is not such an object.
pub open spec fn decoded_skill(v: JsonView) -> Option<SkillView> {
    match v {
        JsonView::Object(es) => match member_of(es, SKILL_ID@) {
            Some(JsonView::Str(id)) => {
                let name = decoded_text(member_of(es, SKILL_NAME@));
                let description = decoded_text(member_of(es, SKILL_DESCRIPTION@));
                let tags = decoded_texts(member_of(es, SKILL_TAGS@));
                let examples = decoded_texts(member_of(es, SKILL_EXAMPLES@));
                let input_modes = decoded_texts(member_of(es, SKILL_INPUT_MODES@));
                let output_modes = decoded_texts(member_of(es, SKILL_OUTPUT_MODES@));
                if name is Some && description is Some && tags is Some && examples is Some
                    && input_modes is Some && output_modes is Some {
                    Some(
                        SkillView {
                            id,
                            name: name.unwrap(),
                            description: description.unwrap(),
                            tags: tags.unwrap(),
                            examples: examples.unwrap(),
                            input_modes: input_modes.unwrap(),
                            output_modes: output_modes.unwrap(),
                            extra: unknown_members(es),
                        },
                    )
                } else {
                    None
                }
            },
            _ => None,
        },
        _ => None,
    }
}

/// The view of an optional reference to a JSON value.
pub open spec fn opt_json_view(m: Option<&JsonValue>) -> Option<JsonView> {
    match m {
        Some(v) => Some(v@),
        None => None,
    }
}

fn decode_text(m: Option<&JsonValue>) -> (r: Option<Option<String>>)
    ensures
        r.deep_view() == decoded_text(opt_json_view(m)),
{
    match m {
        None => Some(None),
        Some(v) => match v {
            JsonValue::Null => Some(None),
            JsonValue::Str(s) => Some(Some(s.clone())),
            _ => None,
        },
    }
}

fn decode_texts(m: Option<&JsonValue>) -> (r: Option<Option<Vec<String>>>)
    ensures
        r.deep_view() == decoded_texts(opt_json_view(m)),
{
    match m {
        None => Some(None),
        Some(v) => {
            proof {
                lemma_json_view_children(*v);
            }
            match v {
                JsonValue::Null => Some(None),
                JsonValue::Array(items) => {
                    let ghost iv = items_view(items@);
                    let mut out: Vec<String> = Vec::new();
                    let mut i: usize = 0;
                    assert(iv.take(0) =~= Seq::<JsonView>::empty());
                    while i < items.len()
                        invariant
                            0 <= i <= items@.len(),
                            iv == items_view(items@),
                            opt_json_view(m) == Some(JsonView::Array(iv)),
                            texts_of(iv.take(i as int)) == Some(out.deep_view()),
                        decreases items@.len() - i,
                    {
                        assert(iv.take(i + 1).drop_last() =~= iv.take(i as int));
                        assert(iv.take(i + 1).last() == items@[i as int]@);
                        proof {
                            lemma_json_view_children(items@[i as int]);
                        }
                        match &items[i] {
                            JsonValue::Str(s) => {
                                let ghost before = out.deep_view();
                                out.push(s.clone());
                                assert(out.deep_view() =~= before.push(s@));
                            },
                            _ => {
                                proof {
                                    lemma_texts_of_fails_after(iv, i as int);
                                }
                                return None;
                            },
                        }
                        i = i + 1;
                    }
                    assert(iv.take(items@.len() as int) =~= iv);
                    Some(Some(out))
                },
                _ => None,
            }
        },
    }
}

/// Once a prefix of the items holds a non-string, no longer prefix decodes.
proof fn lemma_texts_of_fails_after(items: Seq<JsonView>, i: int)
    requires
        0 <= i < items.len(),
        !(items[i] is Str),
    ensures
        texts_of(items) is None,
    decreases items.len(),
{
    if i < items.len() - 1 {
        assert(items.drop_last()[i] == items[i]);
        lemma_texts_of_fails_after(items.drop_last(), i);
    }
}

fn unknown_members_of(entries: &Vec<(String, JsonValue)>) -> (r: Vec<(String, JsonValue)>)
    ensures
        members_view(r@) == unknown_members(members_view(entries@)),
{
    let ghost es = members_view(entries@);
    let mut out: Vec<(String, JsonValue)> = Vec::new();
    let mut i: usize = 0;
    assert(es.take(0) =~= Seq::<(Seq<char>, JsonView)>::empty());
    assert(members_view(out@) =~= Seq::<(Seq<char>, JsonView)>::empty());
    while i < entries.len()
        invariant
            0 <= i <= entries@.len(),
            es == members_view(entries@),
            members_view(out@) == unknown_members(es.take(i as int)),
        decreases entries@.len() - i,
    {
        assert(es.take(i + 1).drop_last() =~= es.take(i as int));
        assert(es.take(i + 1).last() == es[i as int]);
        if !skill_field(entries[i].0.as_str()) {
            let ghost before = members_view(out@);
            let v = copy_json(&entries[i].1);
            out.push((entries[i].0.clone(), v));
            assert(members_view(out@) =~= before.push(es[i as int]));
        }
        i = i + 1;
    }
    assert(es.take(entries@.len() as int) =~= es);
    out
}

/// Decode one skill object; `None` when it does not describe a skill.
pub fn decode_skill(v: &JsonValue) -> (r: Option<Skill>)
    ensures
        match r {
            Some(s) => decoded_skill(v@) == Some(s@),
            None => decoded_skill(v@) is None,
        },
{
    proof {
        lemma_json_view_children(*v);
    }
    let entries = match v {
        JsonValue::Object(entries) => entries,
        _ => {
            return None;
        },
    };
    let id = match v.get(SKILL_ID) {
        Some(JsonValue::Str(s)) => s.clone(),
        _ => {
            return None;
        },
    };
    let name = decode_text(v.get(SKILL_NAME));
    let description = decode_text(v.get(SKILL_DESCRIPTION));
    let tags = decode_texts(v.get(SKILL_TAGS));
    let examples = decode_texts(v.get(SKILL_EXAMPLES));
    let input_modes = decode_texts(v.get(SKILL_INPUT_MODES));
    let output_modes = decode_texts(v.get(SKILL_OUTPUT_MODES));
    match (name, description, tags, examples, input_modes, output_modes) {
        (Some(name), Some(description), Some(tags), Some(examples), Some(input_modes), Some(
            output_modes,
        )) => {
            let extra = unknown_members_of(entries);
            Some(
                Skill {
                    id,
                    name,
                    description,
                    tags,
                    examples,
                    input_modes,
                    output_modes,
                    extra,
                },
            )
        },
        _ => None,
    }
}

/// A member `key: v` when `v` is present, else nothing.
pub open spec fn opt_member(key: Seq<char>, v: Option<JsonView>) -> Seq<(Seq<char>, JsonView)> {
    match v {
        Some(x) => seq![(key, x)],
        None => Seq::empty(),
    }
}

/// A list of texts as a JSON array of strings.
pub open spec fn texts_json(t: Seq<Seq<char>>) -> JsonView {
    JsonView::Array(t.map_values(|x: Seq<char>| JsonView::Str(x)))
}

/// An optional text as an optional JSON string.
pub open spec fn opt_text_json(t: Option<Seq<char>>) -> Option<JsonView> {
    match t {
        Some(x) => Some(JsonView::Str(x)),
        None => None,
    }
}

/// An optional list of texts as an optional JSON array.
pub open spec fn opt_texts_json(t: Option<Seq<Seq<char>>>) -> Option<JsonView> {
    match t {
        Some(x) => Some(texts_json(x)),
        None => None,
    }
}

/// A skill as a JSON object: `id`, then each typed field that is present, in
/// a fixed order, then the other members it carries.
pub open spec fn encoded_skill(s: SkillView) -> JsonView {
    JsonView::Object(
        seq![(SKILL_ID@, JsonView::Str(s.id))] + opt_member(SKILL_NAME@, opt_text_json(s.name))
            + opt_member(SKILL_DESCRIPTION@, opt_text_json(s.description)) + opt_member(
            SKILL_TAGS@,
            opt_texts_json(s.tags),
        ) + opt_member(SKILL_EXAMPLES@, opt_texts_json(s.examples)) + opt_member(
            SKILL_INPUT_MODES@,
            opt_texts_json(s.input_modes),
        ) + opt_member(SKILL_OUTPUT_MODES@, opt_texts_json(s.output_modes)) + s.extra,
    )
}

/// A JSON object made of `entries`.
fn object_of(entries: Vec<(String, JsonValue)>) -> (r: JsonValue)
    ensures
        r@ == JsonView::Object(members_view(entries@)),
{
    let r = JsonValue::Object(entries);
    proof {
        lemma_json_view_children(r);
    }
    r
}

/// A JSON array made of `items`.
fn array_of(items: Vec<JsonValue>) -> (r: JsonValue)
    ensures
        r@ == JsonView::Array(items_view(items@)),
{
    let r = JsonValue::Array(items);
    proof {
        lemma_json_view_children(r);
    }
    r
}

fn texts_to_json(t: Vec<String>) -> (r: JsonValue)
    ensures
        r@ == texts_json(t.deep_view()),
{
    let mut out: Vec<JsonValue> = Vec::new();
    let mut i: usize = 0;
    while i < t.len()
        invariant
            0 <= i <= t@.len(),
            out@.len() == i,
            forall|k: int| 0 <= k < i ==> out@[k]@ == JsonView::Str(t@[k]@),
        decreases t@.len() - i,
    {
        out.push(JsonValue::Str(t[i].clone()));
        i = i + 1;
    }
    let r = array_of(out);
    assert(items_view(out@) =~= t.deep_view().map_values(|x: Seq<char>| JsonView::Str(x)));
    r
}

/// Appends the member `key` to `out` when `v` is present.
fn push_opt_text(out: &mut Vec<(String, JsonValue)>, key: &str, v: Option<String>)
    ensures
        members_view(final(out)@) == members_view(old(out)@) + opt_member(
            key@,
            opt_text_json(v.deep_view()),
        ),
{
    let ghost before = members_view(out@);
    match v {
        Some(x) => {
            let ghost xv = x@;
            out.push((String::from_str(key), JsonValue::Str(x)));
            assert(members_view(out@) =~= before + seq![(key@, JsonView::Str(xv))]);
        },
        None => {
            assert(members_view(out@) =~= before + Seq::empty());
        },
    }
}

/// Appends the member `key` to `out` when `v` is present.
fn push_opt_texts(out: &mut Vec<(String, JsonValue)>, key: &str, v: Option<Vec<String>>)
    ensures
        members_view(final(out)@) == members_view(old(out)@) + opt_member(
            key@,
            opt_texts_json(v.deep_view()),
        ),
{
    let ghost before = members_view(out@);
    match v {
        Some(x) => {
            let ghost xv = x.deep_view();
            let j = texts_to_json(x);
            let ghost jv = j@;
            out.push((String::from_str(key), j));
            assert(members_view(out@) =~= before + seq![(key@, texts_json(xv))]);
        },
        None => {
            assert(members_view(out@) =~= before + Seq::empty());
        },
    }
}

/// A skill as a JSON object.
pub fn encode_skill(s: Skill) -> (r: JsonValue)
    ensures
        r@ == encoded_skill(s@),
{
    let ghost sv = s@;
    let Skill { id, name, description, tags, examples, input_modes, output_modes, extra } = s;
    let mut out: Vec<(String, JsonValue)> = Vec::new();
    let ghost idv = id@;
    out.push((String::from_str(SKILL_ID), JsonValue::Str(id)));
    assert(members_view(out@) =~= seq![(SKILL_ID@, JsonView::Str(idv))]);
    push_opt_text(&mut out, SKILL_NAME, name);
    push_opt_text(&mut out, SKILL_DESCRIPTION, description);
    push_opt_texts(&mut out, SKILL_TAGS, tags);
    push_opt_texts(&mut out, SKILL_EXAMPLES, examples);
    push_opt_texts(&mut out, SKILL_INPUT_MODES, input_modes);
    push_opt_texts(&mut out, SKILL_OUTPUT_MODES, output_modes);
    let ghost before = members_view(out@);
    let mut extra = extra;
    let ghost ev = members_view(extra@);
    out.append(&mut extra);
    assert(members_view(out@) =~= before + ev);
    object_of(out)
}

/// The skills that an array of skill objects describes, in order; `None`
/// when one of them does not describe a skill.
pub open spec fn decoded_skills(items: Seq<JsonView>) -> Option<Seq<SkillView>>
    decreases items.len(),
{
    if items.len() == 0 {
        Some(Seq::empty())
    } else {
        match (decoded_skills(items.drop_last()), decoded_skill(items.last())) {
            (Some(ss), Some(s)) => Some(ss.push(s)),
            _ => None,
        }
    }
}

/// Once a prefix of the items holds a non-skill, no longer prefix decodes.
proof fn lemma_decoded_skills_fails_after(items: Seq<JsonView>, i: int)
    requires
        0 <= i < items.len(),
        decoded_skill(items[i]) is None,
    ensures
        decoded_skills(items) is None,
    decreases items.len(),
{
    if i < items.len() - 1 {
        assert(items.drop_last()[i] == items[i]);
        lemma_decoded_skills_fails_after(items.drop_last(), i);
    }
}

/// Decode every skill object of a card; `None` when one does not decode.
pub fn decode_skills(items: &Vec<JsonValue>) -> (r: Option<Vec<Skill>>)
    ensures
        match r {
            Some(ss) => decoded_skills(items_view(items@)) == Some(views(ss@)),
            None => decoded_skills(items_view(items@)) is None,
        },
{
    let ghost iv = items_view(items@);
    let mut out: Vec<Skill> = Vec::new();
    let mut i: usize = 0;
    assert(iv.take(0) =~= Seq::<JsonView>::empty());
    assert(views(out@) =~= Seq::<SkillView>::empty());
    while i < items.len()
        invariant
            0 <= i <= items@.len(),
            iv == items_view(items@),
            decoded_skills(iv.take(i as int)) == Some(views(out@)),
        decreases items@.len() - i,
    {
        assert(iv.take(i + 1).drop_last() =~= iv.take(i as int));
        assert(iv.take(i + 1).last() == items@[i as int]@);
        match decode_skill(&items[i]) {
            Some(sk) => {
                let ghost before = views(out@);
                let ghost skv = sk@;
                out.push(sk);
                assert(views(out@) =~= before.push(skv));
            },
            None => {
                proof {
                    lemma_decoded_skills_fails_after(iv, i as int);
                }
                return None;
            },
        }
        i = i + 1;
    }
    assert(iv.take(items@.len() as int) =~= iv);
    Some(out)
}

/// Encode every skill as a JSON object, in order.
pub fn encode_skills(skills: Vec<Skill>) -> (r: Vec<JsonValue>)
    ensures
        items_view(r@) == views(skills@).map_values(|s: SkillView| encoded_skill(s)),
{
    let ghost input = views(skills@);
    let mut out: Vec<JsonValue> = Vec::new();
    for s in it: skills.into_iter()
        invariant
            it.seq() == skills@,
            input == views(skills@),
            out@.len() == it.index(),
            forall|k: int| 0 <= k < it.index() ==> out@[k]@ == encoded_skill(input[k]),
    {
        let ghost k = it.index() as int;
        assert(input[k] == s@);
        out.push(encode_skill(s));
    }
    assert(items_view(out@) =~= input.map_values(|s: SkillView| encoded_skill(s)));
    out
}

/// `es` with the value of its first member named `key` replaced by `value`.
pub open spec fn replaced_member(
    es: Seq<(Seq<char>, JsonView)>,
    key: Seq<char>,
    value: JsonView,
) -> Seq<(Seq<char>, JsonView)>
    decreases es.len(),
{
    if es.len() == 0 {
        es
    } else if es[0].0 == key {
        es.update(0, (key, value))
    } else {
        seq![es[0]] + replaced_member(es.drop_first(), key, value)
    }
}

/// `v` with the value of its member `key` replaced by `value`, when `v` is an object.
pub open spec fn with_member(v: JsonView, key: Seq<char>, value: JsonView) -> JsonView {
    match v {
        JsonView::Object(es) => JsonView::Object(replaced_member(es, key, value)),
        _ => v,
    }
}

/// `replaced_member` replaces the member at the first index with the key.
proof fn lemma_replaced_member(es: Seq<(Seq<char>, JsonView)>, key: Seq<char>, value: JsonView, k: int)
    requires
        0 <= k < es.len(),
        es[k].0 == key,
        forall|j: int| 0 <= j < k ==> es[j].0 != key,
    ensures
        replaced_member(es, key, value) == es.update(k, (key, value)),
    decreases es.len(),
{
    if k > 0 {
        let tail = es.drop_first();
        assert forall|j: int| 0 <= j < k - 1 implies tail[j].0 != key by {
            assert(tail[j] == es[j + 1]);
        }
        lemma_replaced_member(tail, key, value, k - 1);
        assert(seq![es[0]] + tail.update(k - 1, (key, value)) =~= es.update(k, (key, value)));
    }
}

/// `replaced_member` leaves members without the key as they are.
proof fn lemma_replaced_member_absent(es: Seq<(Seq<char>, JsonView)>, key: Seq<char>, value: JsonView)
    requires
        forall|j: int| 0 <= j < es.len() ==> es[j].0 != key,
    ensures
        replaced_member(es, key, value) == es,
    decreases es.len(),
{
    if es.len() > 0 {
        let tail = es.drop_first();
        assert forall|j: int| 0 <= j < tail.len() implies tail[j].0 != key by {
            assert(tail[j] == es[j + 1]);
        }
        lemma_replaced_member_absent(tail, key, value);
        assert(seq![es[0]] + tail =~= es);
    }
}

/// A copy of `v` whose member `key` holds `value`, when `v` is an object.
fn with_member_of(v: &JsonValue, key: &str, value: JsonValue) -> (r: JsonValue)
    ensures
        r@ == with_member(v@, key@, value@),
{
    proof {
        lemma_json_view_children(*v);
    }
    match v {
        JsonValue::Object(entries) => {
            let ghost es = members_view(entries@);
            let ghost vv = value@;
            let mut slot = Some(value);
            let mut out: Vec<(String, JsonValue)> = Vec::new();
            let mut i: usize = 0;
            let mut found = false;
            while i < entries.len()
                invariant
                    0 <= i <= entries@.len(),
                    es == members_view(entries@),
                    out@.len() == i,
                    found <==> exists|j: int| 0 <= j < i && es[j].0 == key@,
                    !found ==> slot is Some,
                    !found ==> (forall|j: int| 0 <= j < i ==> es[j].0 != key@),
                    !found ==> (forall|j: int| 0 <= j < i ==> (#[trigger] members_view(out@)[j]) == es[j]),
                    found ==> exists|k: int|
                        0 <= k < i && es[k].0 == key@ && (forall|j: int| 0 <= j < k ==> es[j].0 != key@)
                            && (forall|j: int|
                            0 <= j < i ==> (#[trigger] members_view(out@)[j]) == es.update(
                                k,
                                (key@, vv),
                            )[j]),
                    match slot {
                        Some(x) => x@ == vv,
                        None => true,
                    },
                decreases entries@.len() - i,
            {
                let ghost before = members_view(out@);
                let ghost was_found = found;
                let is_key = str_equals(entries[i].0.as_str(), key);
                assert(es[i as int] == (entries@[i as int].0@, entries@[i as int].1@));
                if !found && is_key {
                    let taken = slot.take();
                    match taken {
                        Some(x) => {
                            out.push((entries[i].0.clone(), x));
                        },
                        None => {
                            out.push((entries[i].0.clone(), copy_json(&entries[i].1)));
                        },
                    }
                    found = true;
                    proof {
                        assert(es[i as int].0 == key@);
                        assert forall|j: int| 0 <= j < i + 1 implies (#[trigger] members_view(out@)[j])
                            == es.update(i as int, (key@, vv))[j] by {
                            if j < i {
                                assert(members_view(out@)[j] == before[j]);
                            }
                        }
                        assert(forall|j: int| 0 <= j < i ==> es[j].0 != key@);
                        assert(exists|j: int| 0 <= j < i + 1 && es[j].0 == key@);
                    }
                } else {
                    let c = copy_json(&entries[i].1);
                    out.push((entries[i].0.clone(), c));
                    proof {
                        if found {
                            assert(exists|j: int| 0 <= j < i && es[j].0 == key@);
                            let j0 = choose|j: int| 0 <= j < i && es[j].0 == key@;
                            assert(0 <= j0 < i + 1 && es[j0].0 == key@);
                            let k = choose|k: int|
                                0 <= k < i && es[k].0 == key@ && (forall|j: int|
                                    0 <= j < k ==> es[j].0 != key@) && (forall|j: int|
                                    0 <= j < i ==> (#[trigger] before[j]) == es.update(k, (key@, vv))[j]);
                            assert forall|j: int| 0 <= j < i + 1 implies (#[trigger] members_view(
                                out@,
                            )[j]) == es.update(k, (key@, vv))[j] by {
                                if j < i {
                                    assert(members_view(out@)[j] == before[j]);
                                }
                            }
                            assert(0 <= k < i + 1 && es[k].0 == key@);
                        } else {
                            assert(es[i as int].0 != key@);
                            assert forall|j: int| 0 <= j < i + 1 implies (#[trigger] members_view(
                                out@,
                            )[j]) == es[j] by {
                                if j < i {
                                    assert(members_view(out@)[j] == before[j]);
                                }
                            }
                            assert forall|j: int| 0 <= j < i + 1 implies es[j].0 != key@ by {}
                        }
                    }
                }
                i = i + 1;
            }
            proof {
                if found {
                    let k = choose|k: int|
                        0 <= k < entries@.len() && es[k].0 == key@ && (forall|j: int|
                            0 <= j < k ==> es[j].0 != key@) && (forall|j: int|
                            0 <= j < entries@.len() ==> (#[trigger] members_view(out@)[j])
                                == es.update(k, (key@, vv))[j]);
                    lemma_replaced_member(es, key@, vv, k);
                    assert(members_view(out@) =~= es.update(k, (key@, vv)));
                } else {
                    lemma_replaced_member_absent(es, key@, vv);
                    assert(members_view(out@) =~= es);
                }
            }
            object_of(out)
        },
        _ => copy_json(v),
    }
}

/// Member of a JSON-RPC response that holds the card.
pub const RESULT_FIELD: &'static str = "result";

/// Member of a JSON-RPC response that holds an error.
pub const ERROR_FIELD: &'static str = "error";

/// Whether a binding wraps the card in a JSON-RPC response.
pub open spec fn in_jsonrpc_envelope(variant: Variant) -> bool {
    variant == Variant::Legacy || variant == Variant::V1JsonRpc
}

/// Where the card sits in a response document: the JSON-RPC `result` (none
/// when the response carries an `error`), or the document itself.
pub open spec fn located_card(doc: JsonView, variant: Variant) -> Option<JsonView> {
    if in_jsonrpc_envelope(variant) {
        if json_member(doc, ERROR_FIELD@) is Some {
            None
        } else {
            json_member(doc, RESULT_FIELD@)
        }
    } else {
        Some(doc)
    }
}

/// What becomes of a response body.
#[derive(Debug)]
pub enum CardOutcome {
    /// Not a card (not JSON, no `skills[]` array, or a JSON-RPC error): left untouched.
    PassThrough,
    /// A governed card: the body becomes this document.
    Governed(JsonValue),
    /// A card that cannot be shaped: the body becomes the fail-closed body.
    FailClosed,
}

/// The mathematical model of a [`CardOutcome`].
pub enum CardOutcomeView {
    PassThrough,
    Governed(JsonView),
    FailClosed,
}

impl View for CardOutcome {
    type V = CardOutcomeView;

    open spec fn view(&self) -> CardOutcomeView {
        match self {
            CardOutcome::PassThrough => CardOutcomeView::PassThrough,
            CardOutcome::Governed(v) => CardOutcomeView::Governed(v@),
            CardOutcome::FailClosed => CardOutcomeView::FailClosed,
        }
    }
}

/// The outcome for a response body (`None` when it is not JSON) and the
/// warnings met: rules that change nothing leave every response untouched;
/// otherwise a confirmed card has its skills decoded (failing closed when one
/// does not decode), governed, and written back in place.
pub open spec fn card_outcome(
    doc: Option<JsonView>,
    surface: Surface,
    variant: Variant,
    id: IdentityView,
    rules: GovernorRulesView,
) -> (CardOutcomeView, Seq<WarningView>) {
    if rules_inert(rules) {
        (CardOutcomeView::PassThrough, Seq::empty())
    } else {
    match doc {
        None => (CardOutcomeView::PassThrough, Seq::empty()),
        Some(d) => match located_card(d, variant) {
            None => (CardOutcomeView::PassThrough, Seq::empty()),
            Some(card) => if !looks_like_agent_card(card) {
                (CardOutcomeView::PassThrough, Seq::empty())
            } else {
                let items = json_member(card, SKILLS_FIELD@)->Some_0->Array_0;
                match decoded_skills(items) {
                    None => (CardOutcomeView::FailClosed, Seq::empty()),
                    Some(skills) => {
                        let (out, warned) = governed(rules, skills, surface, id);
                        let new_card = with_member(
                            card,
                            SKILLS_FIELD@,
                            JsonView::Array(out.map_values(|s: SkillView| encoded_skill(s))),
                        );
                        (
                            CardOutcomeView::Governed(
                                if in_jsonrpc_envelope(variant) {
                                    with_member(d, RESULT_FIELD@, new_card)
                                } else {
                                    new_card
                                },
                            ),
                            warned,
                        )
                    },
                }
            },
        },
    }
    }
}

/// Shape the card in a response body (`doc` is `None` when the body is not
/// JSON); rules that change nothing leave every body untouched. Warnings met
/// while governing are appended to `warn`.
pub fn transform_card_body(
    doc: Option<&JsonValue>,
    ctx: &CardContext,
    rules: &GovernorRules,
    warn: &mut Vec<Warning>,
) -> (r: CardOutcome)
    ensures
        r@ == card_outcome(opt_json_view(doc), ctx.surface, ctx.variant, ctx.identity@, rules@).0,
        views(final(warn)@) == views(old(warn)@) + card_outcome(
            opt_json_view(doc),
            ctx.surface,
            ctx.variant,
            ctx.identity@,
            rules@,
        ).1,
{
    let ghost outcome = card_outcome(
        opt_json_view(doc),
        ctx.surface,
        ctx.variant,
        ctx.identity@,
        rules@,
    );
    assert(views(old(warn)@) + Seq::empty() =~= views(old(warn)@));
    if rules.is_inert() {
        return CardOutcome::PassThrough;
    }
    let doc = match doc {
        None => {
            return CardOutcome::PassThrough;
        },
        Some(d) => d,
    };
    let envelope = ctx.variant == Variant::Legacy || ctx.variant == Variant::V1JsonRpc;
    let card: &JsonValue = if envelope {
        if doc.get(ERROR_FIELD).is_some() {
            return CardOutcome::PassThrough;
        }
        match doc.get(RESULT_FIELD) {
            Some(c) => c,
            None => {
                return CardOutcome::PassThrough;
            },
        }
    } else {
        doc
    };
    assert(located_card(doc@, ctx.variant) == Some(card@));
    if !is_agent_card(card) {
        return CardOutcome::PassThrough;
    }
    let items = match card.get(SKILLS_FIELD) {
        Some(JsonValue::Array(items)) => items,
        _ => {
            return CardOutcome::PassThrough;
        },
    };
    proof {
        lemma_json_view_children(JsonValue::Array(*items));
    }
    let skills = match decode_skills(items) {
        Some(ss) => ss,
        None => {
            return CardOutcome::FailClosed;
        },
    };
    let governed_skills = rules.govern(skills, ctx.surface, &ctx.identity, warn);
    let encoded = encode_skills(governed_skills);
    let new_card = with_member_of(card, SKILLS_FIELD, array_of(encoded));
    if envelope {
        CardOutcome::Governed(with_member_of(doc, RESULT_FIELD, new_card))
    } else {
        CardOutcome::Governed(new_card)
    }
}

/// Text of every fail-closed body.
pub const FAIL_CLOSED_MESSAGE: &'static str = "agent card could not be governed";

/// The JSON-RPC internal-error code.
pub const JSONRPC_INTERNAL_ERROR: &'static str = "-32603";

/// The `google.rpc.Status` code of an internal error, as a payload field.
pub const STATUS_INTERNAL_CODE: &'static str = "500";

/// The body that replaces a card that cannot be shaped: a JSON-RPC error
/// (`-32603`) on the JSON-RPC bindings, a `google.rpc.Status`-shaped error
/// (code `500`, an `ErrorInfo` detail) on the HTTP+JSON binding, and a plain
/// `{"error": ...}` on the public card.
pub open spec fn fail_closed_json(variant: Variant) -> JsonView {
    if in_jsonrpc_envelope(variant) {
        JsonView::Object(
            seq![
                ("jsonrpc"@, JsonView::Str("2.0"@)),
                ("id"@, JsonView::Null),
                (
                    ERROR_FIELD@,
                    JsonView::Object(
                        seq![
                            ("code"@, JsonView::Number(JSONRPC_INTERNAL_ERROR@)),
                            ("message"@, JsonView::Str(FAIL_CLOSED_MESSAGE@)),
                        ],
                    ),
                ),
            ],
        )
    } else if variant == Variant::V1HttpJson {
        JsonView::Object(
            seq![
                (
                    ERROR_FIELD@,
                    JsonView::Object(
                        seq![
                            ("code"@, JsonView::Number(STATUS_INTERNAL_CODE@)),
                            ("status"@, JsonView::Str("INTERNAL"@)),
                            ("message"@, JsonView::Str(FAIL_CLOSED_MESSAGE@)),
                            (
                                "details"@,
                                JsonView::Array(
                                    seq![
                                        JsonView::Object(
                                            seq![
                                                (
                                                    "@type"@,
                                                    JsonView::Str(
                                                        "type.googleapis.com/google.rpc.ErrorInfo"@,
                                                    ),
                                                ),
                                                ("reason"@, JsonView::Str("SKILL_GOVERNANCE_FAILED"@)),
                                                ("domain"@, JsonView::Str("a2a-agent-card-skill-governor"@)),
                                            ],
                                        ),
                                    ],
                                ),
                            ),
                        ],
                    ),
                ),
            ],
        )
    } else {
        JsonView::Object(seq![(ERROR_FIELD@, JsonView::Str(FAIL_CLOSED_MESSAGE@))])
    }
}

fn text_member(key: &str, text: &str) -> (r: (String, JsonValue))
    ensures
        r.0@ == key@,
        r.1@ == JsonView::Str(text@),
{
    (String::from_str(key), JsonValue::Str(String::from_str(text)))
}

/// The fail-closed body of a binding.
pub fn fail_closed_body(variant: Variant) -> (r: JsonValue)
    ensures
        r@ == fail_closed_json(variant),
{
    if variant == Variant::Legacy || variant == Variant::V1JsonRpc {
        let mut err: Vec<(String, JsonValue)> = Vec::new();
        err.push((String::from_str("code"), JsonValue::Number(String::from_str(JSONRPC_INTERNAL_ERROR))));
        err.push(text_member("message", FAIL_CLOSED_MESSAGE));
        let ghost ev = members_view(err@);
        let err_obj = object_of(err);
        let mut top: Vec<(String, JsonValue)> = Vec::new();
        top.push(text_member("jsonrpc", "2.0"));
        top.push((String::from_str("id"), JsonValue::Null));
        top.push((String::from_str(ERROR_FIELD), err_obj));
        proof {
            lemma_json_view_children(JsonValue::Null);
        }
        let r = object_of(top);
        assert(members_view(top@) =~= seq![
            ("jsonrpc"@, JsonView::Str("2.0"@)),
            ("id"@, JsonView::Null),
            (ERROR_FIELD@, JsonView::Object(ev)),
        ]);
        assert(ev =~= seq![
            ("code"@, JsonView::Number(JSONRPC_INTERNAL_ERROR@)),
            ("message"@, JsonView::Str(FAIL_CLOSED_MESSAGE@)),
        ]);
        r
    } else if variant == Variant::V1HttpJson {
        let mut info: Vec<(String, JsonValue)> = Vec::new();
        info.push(text_member("@type", "type.googleapis.com/google.rpc.ErrorInfo"));
        info.push(text_member("reason", "SKILL_GOVERNANCE_FAILED"));
        info.push(text_member("domain", "a2a-agent-card-skill-governor"));
        let ghost iv = members_view(info@);
        let info_obj = object_of(info);
        let mut details: Vec<JsonValue> = Vec::new();
        details.push(info_obj);
        let ghost dv = items_view(details@);
        let details_arr = array_of(details);
        let mut err: Vec<(String, JsonValue)> = Vec::new();
        err.push((String::from_str("code"), JsonValue::Number(String::from_str(STATUS_INTERNAL_CODE))));
        err.push(text_member("status", "INTERNAL"));
        err.push(text_member("message", FAIL_CLOSED_MESSAGE));
        err.push((String::from_str("details"), details_arr));
        let ghost ev = members_view(err@);
        let err_obj = object_of(err);
        let mut top: Vec<(String, JsonValue)> = Vec::new();
        top.push((String::from_str(ERROR_FIELD), err_obj));
        let r = object_of(top);
        assert(iv =~= seq![
            ("@type"@, JsonView::Str("type.googleapis.com/google.rpc.ErrorInfo"@)),
            ("reason"@, JsonView::Str("SKILL_GOVERNANCE_FAILED"@)),
            ("domain"@, JsonView::Str("a2a-agent-card-skill-governor"@)),
        ]);
        assert(dv =~= seq![JsonView::Object(iv)]);
        assert(ev =~= seq![
            ("code"@, JsonView::Number(STATUS_INTERNAL_CODE@)),
            ("status"@, JsonView::Str("INTERNAL"@)),
            ("message"@, JsonView::Str(FAIL_CLOSED_MESSAGE@)),
            ("details"@, JsonView::Array(dv)),
        ]);
        assert(members_view(top@) =~= seq![(ERROR_FIELD@, JsonView::Object(ev))]);
        r
    } else {
        let mut top: Vec<(String, JsonValue)> = Vec::new();
        top.push(text_member(ERROR_FIELD, FAIL_CLOSED_MESSAGE));
        let r = object_of(top);
        assert(members_view(top@) =~= seq![(ERROR_FIELD@, JsonView::Str(FAIL_CLOSED_MESSAGE@))]);
        r
    }
}

} // verus!
