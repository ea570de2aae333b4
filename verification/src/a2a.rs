//! A2A Agent Card data model and card detection.
use vstd::prelude::*;

use crate::text::str_equals;

verus! {

/// Legacy JSON-RPC method that fetches the authenticated extended card.
pub const EXT_CARD_LEGACY: &'static str = "agent/getAuthenticatedExtendedCard";

/// V1 JSON-RPC method that fetches the authenticated extended card.
pub const EXT_CARD_V1: &'static str = "GetExtendedAgentCard";

/// Path of the unauthenticated public card.
pub const WELL_KNOWN_PATH: &'static str = "/.well-known/agent-card.json";

/// Path of the extended card over the V1 HTTP+JSON binding.
pub const EXT_CARD_HTTPJSON_PATH: &'static str = "/extendedAgentCard";

/// Name of the card field that lists the skills.
pub const SKILLS_FIELD: &'static str = "skills";

/// A JSON document as the governor sees it. Numbers keep their textual form,
/// so a document passes through unchanged; object members keep their order,
/// and a member is found by the first entry with its key.
#[derive(Debug)]
pub enum JsonValue {
    Null,
    Bool(bool),
    Number(String),
    Str(String),
    Array(Vec<JsonValue>),
    Object(Vec<(String, JsonValue)>),
}

/// The mathematical model of a [`JsonValue`].
pub enum JsonView {
    Null,
    Bool(bool),
    Number(Seq<char>),
    Str(Seq<char>),
    Array(Seq<JsonView>),
    Object(Seq<(Seq<char>, JsonView)>),
}

/// The view of a JSON value, member by member and item by item.
pub open spec fn json_view(v: JsonValue) -> JsonView
    decreases v,
{
    match v {
        JsonValue::Null => JsonView::Null,
        JsonValue::Bool(b) => JsonView::Bool(b),
        JsonValue::Number(n) => JsonView::Number(n@),
        JsonValue::Str(s) => JsonView::Str(s@),
        JsonValue::Array(items) => JsonView::Array(
            Seq::new(
                items@.len(),
                |i: int|
                    if 0 <= i < items@.len() {
                        proof {
                            assert(decreases_to!(items => items@));
                            assert(decreases_to!(items@ => items@[i]));
                        }
                        json_view(items@[i])
                    } else {
                        JsonView::Null
                    },
            ),
        ),
        JsonValue::Object(entries) => JsonView::Object(
            Seq::new(
                entries@.len(),
                |i: int|
                    if 0 <= i < entries@.len() {
                        proof {
                            assert(decreases_to!(entries => entries@));
                            assert(decreases_to!(entries@ => entries@[i]));
                            assert(decreases_to!(entries@[i] => entries@[i].1));
                        }
                        (entries@[i].0@, json_view(entries@[i].1))
                    } else {
                        (Seq::empty(), JsonView::Null)
                    },
            ),
        ),
    }
}

impl View for JsonValue {
    type V = JsonView;

    open spec fn view(&self) -> JsonView {
        json_view(*self)
    }
}

/// The views of the members of an object, in order.
pub open spec fn members_view(entries: Seq<(String, JsonValue)>) -> Seq<(Seq<char>, JsonView)> {
    entries.map_values(|e: (String, JsonValue)| (e.0@, e.1@))
}

/// The views of the items of an array, in order.
pub open spec fn items_view(items: Seq<JsonValue>) -> Seq<JsonView> {
    items.map_values(|v: JsonValue| v@)
}

/// An object's view lists its members' views; an array's view its items'.
pub proof fn lemma_json_view_children(v: JsonValue)
    ensures
        v matches JsonValue::Object(entries) ==> v@ == JsonView::Object(members_view(entries@)),
        v matches JsonValue::Array(items) ==> v@ == JsonView::Array(items_view(items@)),
{
    match v {
        JsonValue::Object(entries) => {
            assert(json_view(v)->Object_0 =~= members_view(entries@));
        },
        JsonValue::Array(items) => {
            assert(json_view(v)->Array_0 =~= items_view(items@));
        },
        _ => {},
    }
}

/// The value of the first member named `key` among `entries`.
pub open spec fn member_of(entries: Seq<(Seq<char>, JsonView)>, key: Seq<char>) -> Option<JsonView>
    decreases entries.len(),
{
    if entries.len() == 0 {
        None
    } else if entries[0].0 == key {
        Some(entries[0].1)
    } else {
        member_of(entries.drop_first(), key)
    }
}

/// The member `key` of `v` when `v` is an object holding it.
pub open spec fn json_member(v: JsonView, key: Seq<char>) -> Option<JsonView> {
    match v {
        JsonView::Object(entries) => member_of(entries, key),
        _ => None,
    }
}

/// An AgentCard is a JSON object whose `skills` member is an array.
pub open spec fn looks_like_agent_card(v: JsonView) -> bool {
    match json_member(v, SKILLS_FIELD@) {
        Some(JsonView::Array(_)) => true,
        _ => false,
    }
}

impl JsonValue {
    /// The member `key` of this value, when it is an object that holds one.
    pub fn get(&self, key: &str) -> (r: Option<&JsonValue>)
        ensures
            match r {
                Some(v) => json_member(self@, key@) == Some(v@),
                None => json_member(self@, key@) is None,
            },
    {
        proof {
            lemma_json_view_children(*self);
        }
        match self {
            JsonValue::Object(entries) => {
                let ghost es = members_view(entries@);
                let mut i: usize = 0;
                assert(es.skip(0) =~= es);
                while i < entries.len()
                    invariant
                        0 <= i <= entries@.len(),
                        es == members_view(entries@),
                        json_member(self@, key@) == member_of(es, key@),
                        member_of(es, key@) == member_of(es.skip(i as int), key@),
                    decreases entries@.len() - i,
                {
                    assert(es.skip(i as int).drop_first() =~= es.skip(i + 1));
                    assert(es.skip(i as int)[0] == es[i as int]);
                    if str_equals(entries[i].0.as_str(), key) {
                        return Some(&entries[i].1);
                    }
                    i = i + 1;
                }
                None
            },
            _ => None,
        }
    }

    /// Whether this value is an array.
    pub fn is_array(&self) -> (r: bool)
        ensures
            r == (self@ is Array),
    {
        match self {
            JsonValue::Array(_) => true,
            _ => false,
        }
    }

    /// The text of this value, when it is a string.
    pub fn as_str(&self) -> (r: Option<&str>)
        ensures
            match r {
                Some(s) => self@ == JsonView::Str(s@),
                None => !(self@ is Str),
            },
    {
        match self {
            JsonValue::Str(s) => Some(s.as_str()),
            _ => None,
        }
    }
}

/// True when `v` looks like an AgentCard: a JSON object whose `skills` field
/// is an array.
pub fn is_agent_card(v: &JsonValue) -> (r: bool)
    ensures
        r == looks_like_agent_card(v@),
{
    match v.get(SKILLS_FIELD) {
        Some(s) => s.is_array(),
        None => false,
    }
}

/// One A2A Agent Card skill. Governed fields are typed; every other field of
/// the skill object is kept in `extra`, in order, so the rest of the card is
/// preserved verbatim.
#[derive(Debug)]
pub struct Skill {
    pub id: String,
    pub name: Option<String>,
    pub description: Option<String>,
    pub tags: Option<Vec<String>>,
    pub examples: Option<Vec<String>>,
    pub input_modes: Option<Vec<String>>,
    pub output_modes: Option<Vec<String>>,
    pub extra: Vec<(String, JsonValue)>,
}

/// The mathematical model of a [`Skill`].
pub struct SkillView {
    pub id: Seq<char>,
    pub name: Option<Seq<char>>,
    pub description: Option<Seq<char>>,
    pub tags: Option<Seq<Seq<char>>>,
    pub examples: Option<Seq<Seq<char>>>,
    pub input_modes: Option<Seq<Seq<char>>>,
    pub output_modes: Option<Seq<Seq<char>>>,
    pub extra: Seq<(Seq<char>, JsonView)>,
}

impl View for Skill {
    type V = SkillView;

    open spec fn view(&self) -> SkillView {
        SkillView {
            id: self.id@,
            name: self.name.deep_view(),
            description: self.description.deep_view(),
            tags: self.tags.deep_view(),
            examples: self.examples.deep_view(),
            input_modes: self.input_modes.deep_view(),
            output_modes: self.output_modes.deep_view(),
            extra: members_view(self.extra@),
        }
    }
}

/// The views of a sequence of values.
pub open spec fn views<T: View>(s: Seq<T>) -> Seq<T::V> {
    s.map_values(|x: T| x@)
}

} // verus!
