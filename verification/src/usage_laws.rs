//! What the operations are for, stated over their inputs and results: what
//! one upsert entry does to a skill list, how a rule without an audience type
//! binds, which paths name the extended card, what the version header
//! signals, and how a scope claim splits.
use vstd::prelude::*;

use crate::a2a::SkillView;
use crate::detect::{path_without_query, surface_of_request, Variant, GET_METHOD};
use crate::a2a::EXT_CARD_HTTPJSON_PATH;
use crate::a2a::WELL_KNOWN_PATH;
use crate::generated::config::{ConfigView, VisibilityRuleView};
use crate::governor::{
    audience_admits, compiled_rules, compiled_visibility, compiled_visibility_rule, find_by_id,
    gated, governed, lemma_find_by_id, upsert_step, upserted, visible, AudienceView,
    GovernorRulesView, IdentityView, Surface, TargetView, UpsertView, WarningView, AUDIENCE_ANY,
    EFFECT_ALLOW, EFFECT_DENY,
};
use crate::laws::lemma_gate_keeps_exactly_allowed;
use crate::policy::{A2A_VERSION_V1, is_scope_separator, scope_tokens, scopes_in, version_signalled};
use crate::text::{ends_with_bytes, trim_white_space};
use vstd::string::*;

verus! {

// ---------------------------------------------------------------------------
// One upsert entry
// ---------------------------------------------------------------------------

/// What one upsert entry does to the current skills and warnings:
/// - when its audience does not bind, nothing changes;
/// - when a skill has its id, the first such skill is rewritten: each field
///   the payload provides replaces the skill's own (arrays wholesale), every
///   other field, the id and the skill's other members stay, and no other
///   skill changes;
/// - else, with a name and a description, a skill is appended carrying
///   exactly the payload's id, name, description, tags, examples, input and
///   output modes, and no other member (a warning when that id was denied);
/// - else nothing is appended and an inject warning is added.
pub proof fn lemma_one_upsert_entry(
    state: (Seq<SkillView>, Seq<WarningView>),
    u: UpsertView,
    surface: Surface,
    id: IdentityView,
    denied: Seq<Seq<char>>,
)
    ensures
        ({
            let cur = state.0;
            let warned = state.1;
            let next = upsert_step(state, u, surface, id, denied);
            let p = u.skill;
            &&& !audience_admits(u.audience, surface, id) ==> next == state
            &&& forall|k: int|
                #![trigger cur[k]]
                audience_admits(u.audience, surface, id) && 0 <= k < cur.len() && cur[k].id == p.id
                    && (forall|j: int| 0 <= j < k ==> cur[j].id != p.id) ==> {
                    &&& next.1 == warned
                    &&& next.0.len() == cur.len()
                    &&& forall|i: int| 0 <= i < cur.len() && i != k ==> next.0[i] == cur[i]
                    &&& next.0[k].id == cur[k].id
                    &&& next.0[k].name == (if p.name is Some { p.name } else { cur[k].name })
                    &&& next.0[k].description == (if p.description is Some {
                        p.description
                    } else {
                        cur[k].description
                    })
                    &&& next.0[k].tags == (if p.tags is Some { p.tags } else { cur[k].tags })
                    &&& next.0[k].examples == (if p.examples is Some {
                        p.examples
                    } else {
                        cur[k].examples
                    })
                    &&& next.0[k].input_modes == (if p.input_modes is Some {
                        p.input_modes
                    } else {
                        cur[k].input_modes
                    })
                    &&& next.0[k].output_modes == (if p.output_modes is Some {
                        p.output_modes
                    } else {
                        cur[k].output_modes
                    })
                    &&& next.0[k].extra == cur[k].extra
                }
            &&& (audience_admits(u.audience, surface, id) && (forall|i: int|
                0 <= i < cur.len() ==> cur[i].id != p.id) && p.name is Some && p.description is Some)
                ==> {
                &&& next.0.len() == cur.len() + 1
                &&& forall|i: int| 0 <= i < cur.len() ==> next.0[i] == cur[i]
                &&& next.0[cur.len() as int].id == p.id
                &&& next.0[cur.len() as int].name == p.name
                &&& next.0[cur.len() as int].description == p.description
                &&& next.0[cur.len() as int].tags == p.tags
                &&& next.0[cur.len() as int].examples == p.examples
                &&& next.0[cur.len() as int].input_modes == p.input_modes
                &&& next.0[cur.len() as int].output_modes == p.output_modes
                &&& next.0[cur.len() as int].extra == Seq::<(Seq<char>, crate::a2a::JsonView)>::empty()
                &&& next.1 == (if denied.contains(p.id) {
                    warned.push(WarningView::DeniedThenReinjected(p.id))
                } else {
                    warned
                })
            }
            &&& (audience_admits(u.audience, surface, id) && (forall|i: int|
                0 <= i < cur.len() ==> cur[i].id != p.id) && !(p.name is Some && p.description is Some))
                ==> next == (cur, warned.push(WarningView::InjectMissingNameOrDescription(p.id)))
        }),
{
    let cur = state.0;
    lemma_find_by_id(cur, u.skill.id);
    assert forall|k: int|
        #![trigger cur[k]]
        audience_admits(u.audience, surface, id) && 0 <= k < cur.len() && cur[k].id == u.skill.id
            && (forall|j: int| 0 <= j < k ==> cur[j].id != u.skill.id) implies find_by_id(
        cur,
        u.skill.id,
    ) == Some(k) by {
        match find_by_id(cur, u.skill.id) {
            Some(k2) => {
                if k2 < k {
                    assert(cur[k2].id != u.skill.id);
                } else if k < k2 {
                    assert(cur[k].id != u.skill.id);
                }
            },
            None => {
                assert(cur[k].id != u.skill.id);
            },
        }
    }
}

/// With a single upsert entry whose audience binds, that carries a name and
/// a description, and whose id no surviving skill has, the governed skills
/// are the survivors of the visibility gate followed by a skill carrying
/// exactly the entry's payload: its id, name, description, tags, examples,
/// input and output modes.
pub proof fn lemma_single_inject_carries_its_payload(
    rules: GovernorRulesView,
    skills: Seq<SkillView>,
    surface: Surface,
    id: IdentityView,
)
    requires
        rules.upserts.len() == 1,
        audience_admits(rules.upserts[0].audience, surface, id),
        rules.upserts[0].skill.name is Some,
        rules.upserts[0].skill.description is Some,
        forall|i: int|
            0 <= i < gated(rules, skills, surface, id).len() ==> (#[trigger] gated(
                rules,
                skills,
                surface,
                id,
            )[i]).id != rules.upserts[0].skill.id,
    ensures
        ({
            let out = governed(rules, skills, surface, id).0;
            let g = gated(rules, skills, surface, id);
            let p = rules.upserts[0].skill;
            &&& out.len() == g.len() + 1
            &&& forall|i: int| 0 <= i < g.len() ==> out[i] == g[i]
            &&& out[g.len() as int].id == p.id
            &&& out[g.len() as int].name == p.name
            &&& out[g.len() as int].description == p.description
            &&& out[g.len() as int].tags == p.tags
            &&& out[g.len() as int].examples == p.examples
            &&& out[g.len() as int].input_modes == p.input_modes
            &&& out[g.len() as int].output_modes == p.output_modes
        }),
{
    let g = gated(rules, skills, surface, id);
    let start = (g, Seq::<WarningView>::empty());
    let denied = crate::governor::denied_ids(rules, skills, surface, id);
    assert(rules.upserts.drop_last().len() == 0);
    assert(upserted(start, rules.upserts.drop_last(), surface, id, denied) == start);
    assert(rules.upserts.last() == rules.upserts[0]);
    lemma_one_upsert_entry(start, rules.upserts[0], surface, id, denied);
}

// ---------------------------------------------------------------------------
// A rule without an audience type binds everyone
// ---------------------------------------------------------------------------

/// A visibility rule whose effect is `allow` or `deny` and that names no
/// audience type is kept, with the `any` audience and no warning, exactly as
/// if it named `any`; its audience value plays no part.
pub proof fn lemma_absent_audience_type_means_any(r: VisibilityRuleView)
    requires
        r.effect == EFFECT_ALLOW@ || r.effect == EFFECT_DENY@,
        r.audience_type is None,
    ensures
        compiled_visibility_rule(r).0 is Some,
        compiled_visibility_rule(r).0->Some_0.audience == AudienceView::Any,
        compiled_visibility_rule(r).0->Some_0.effect_allow == (r.effect == EFFECT_ALLOW@),
        compiled_visibility_rule(r).1 == Seq::<WarningView>::empty(),
        compiled_visibility_rule(r) == compiled_visibility_rule(
            VisibilityRuleView { audience_type: Some(AUDIENCE_ANY@), ..r },
        ),
        forall|v: Option<Seq<char>>|
            compiled_visibility_rule(r) == #[trigger] compiled_visibility_rule(
                (VisibilityRuleView { audience_value: v, ..r }),
            ),
{
}

/// A configuration whose only visibility rule is `deny` for a skill id, with
/// no audience type, and that has no upsert entry, hides that skill from
/// every caller on every surface, and compiles without warnings.
pub proof fn lemma_deny_without_audience_type_hides_from_everyone(
    config: ConfigView,
    sid: Seq<char>,
    skills: Seq<SkillView>,
    surface: Surface,
    id: IdentityView,
)
    requires
        config.visibility matches Some(v) && v.len() == 1 && v[0].effect == EFFECT_DENY@
            && v[0].audience_type is None && v[0].skill_id == Some(sid),
        sid.len() > 0,
        config.skills is None,
    ensures
        compiled_rules(config).1 == Seq::<WarningView>::empty(),
        forall|k: int|
            0 <= k < governed(compiled_rules(config).0, skills, surface, id).0.len() ==> (
            #[trigger] governed(compiled_rules(config).0, skills, surface, id).0[k]).id != sid,
{
    let v = config.visibility->Some_0;
    let rules = compiled_rules(config).0;
    lemma_absent_audience_type_means_any(v[0]);
    assert(v.drop_last().len() == 0);
    assert(v.last() == v[0]);
    assert(compiled_visibility(v.drop_last()) == (
        Seq::<crate::governor::VisView>::empty(),
        Seq::<WarningView>::empty(),
    ));
    let vis = compiled_visibility_rule(v[0]).0->Some_0;
    assert(vis.target == TargetView::Exact(sid));
    assert(compiled_visibility(v).0 =~= seq![vis]);
    assert(compiled_visibility(v).1 =~= Seq::<WarningView>::empty());
    assert(rules.visibility == seq![vis]);
    assert(rules.upserts.len() == 0);
    assert(!visible(rules, surface, id, sid)) by {
        reveal_strlit("deny");
        reveal_strlit("allow");
        assert(EFFECT_DENY@.len() != EFFECT_ALLOW@.len());
        assert(!vis.effect_allow);
        assert(rules.visibility[0] == vis);
        assert(crate::governor::rule_applies(vis, surface, id, sid));
    }
    lemma_gate_keeps_exactly_allowed(rules, skills, surface, id);
    assert(governed(rules, skills, surface, id).0 == gated(rules, skills, surface, id));
}

// ---------------------------------------------------------------------------
// The extended card over HTTP+JSON, under any base path
// ---------------------------------------------------------------------------

/// A `GET` with the V1 signal whose path, before its query string, ends with
/// `/extendedAgentCard` fetches the extended card over HTTP+JSON, whatever
/// base path precedes it (unless it also ends with the well-known path) and
/// whatever the body says.
pub proof fn lemma_extended_card_under_any_base_path(
    prefix: Seq<u8>,
    path: Seq<u8>,
    jsonrpc_method: Option<Seq<char>>,
)
    requires
        path_without_query(path) == prefix + EXT_CARD_HTTPJSON_PATH.spec_bytes(),
        !ends_with_bytes(path_without_query(path), WELL_KNOWN_PATH.spec_bytes()),
    ensures
        surface_of_request(GET_METHOD@, path, true, jsonrpc_method) == Some(
            (Surface::Extended, Variant::V1HttpJson),
        ),
{
    let p = path_without_query(path);
    let suffix = EXT_CARD_HTTPJSON_PATH.spec_bytes();
    assert(p.subrange(p.len() - suffix.len(), p.len() as int) =~= suffix);
}

// ---------------------------------------------------------------------------
// The version header
// ---------------------------------------------------------------------------

/// An `A2A-Version` header whose value, trimmed of white space, is `1.0`
/// signals V1 whatever the path, its query string included.
pub proof fn lemma_version_header_signals_whatever_the_path(h: Seq<char>, path: Seq<u8>)
    requires
        trim_white_space(h) == A2A_VERSION_V1@,
    ensures
        version_signalled(Some(h), path),
{
}

// ---------------------------------------------------------------------------
// Splitting a scope claim
// ---------------------------------------------------------------------------

proof fn lemma_tokens_around_separator(a: Seq<char>, c: char, b: Seq<char>, cur: Seq<char>)
    requires
        is_scope_separator(c),
    ensures
        scope_tokens(a + seq![c] + b, cur) == scope_tokens(a, cur) + scope_tokens(b, Seq::empty()),
    decreases a.len(),
{
    let s = a + seq![c] + b;
    if a.len() == 0 {
        assert(s =~= seq![c] + b);
        assert(s[0] == c);
        assert(s.drop_first() =~= b);
    } else {
        assert(s[0] == a[0]);
        assert(s.drop_first() =~= a.drop_first() + seq![c] + b);
        if is_scope_separator(a[0]) {
            lemma_tokens_around_separator(a.drop_first(), c, b, Seq::empty());
            let head: Seq<Seq<char>> = if cur.len() > 0 {
                seq![cur]
            } else {
                Seq::empty()
            };
            assert(head + (scope_tokens(a.drop_first(), Seq::empty()) + scope_tokens(b, Seq::empty()))
                =~= head + scope_tokens(a.drop_first(), Seq::empty()) + scope_tokens(b, Seq::empty()));
        } else {
            lemma_tokens_around_separator(a.drop_first(), c, b, cur.push(a[0]));
        }
    }
}

proof fn lemma_tokens_without_separator(s: Seq<char>, cur: Seq<char>)
    requires
        forall|i: int| 0 <= i < s.len() ==> !is_scope_separator(#[trigger] s[i]),
        cur.len() + s.len() > 0,
    ensures
        scope_tokens(s, cur) == seq![cur + s],
    decreases s.len(),
{
    if s.len() == 0 {
        assert(cur + s =~= cur);
    } else {
        assert(!is_scope_separator(s[0]));
        assert forall|i: int| 0 <= i < s.drop_first().len() implies !is_scope_separator(
            #[trigger] s.drop_first()[i],
        ) by {
            assert(s.drop_first()[i] == s[i + 1]);
        }
        lemma_tokens_without_separator(s.drop_first(), cur.push(s[0]));
        assert(cur.push(s[0]) + s.drop_first() =~= cur + s);
    }
}

proof fn lemma_tokens_join(s: Seq<char>, cur: Seq<char>)
    ensures
        scope_tokens(s, cur).flatten() == cur + s.filter(|c: char| !is_scope_separator(c)),
    decreases s.len(),
{
    let keep = |c: char| !is_scope_separator(c);
    reveal(Seq::filter);
    if s.len() == 0 {
        if cur.len() > 0 {
            seq![cur].lemma_flatten_one_element();
        } else {
            assert(cur =~= Seq::<char>::empty());
        }
        assert(cur + s.filter(keep) =~= cur);
    } else {
        assert(s =~= seq![s[0]] + s.drop_first());
        s.drop_first().lemma_filter_prepend(s[0], keep);
        if is_scope_separator(s[0]) {
            lemma_tokens_join(s.drop_first(), Seq::empty());
            let head: Seq<Seq<char>> = if cur.len() > 0 {
                seq![cur]
            } else {
                Seq::empty()
            };
            if cur.len() > 0 {
                seq![cur].lemma_flatten_one_element();
            } else {
                assert(head.flatten() =~= Seq::<char>::empty());
            }
            vstd::seq_lib::lemma_flatten_concat(head, scope_tokens(s.drop_first(), Seq::empty()));
            assert(head.flatten() =~= cur);
            assert(Seq::<char>::empty() + s.drop_first().filter(keep) =~= s.drop_first().filter(
                keep,
            ));
        } else {
            lemma_tokens_join(s.drop_first(), cur.push(s[0]));
            assert(cur.push(s[0]) + s.drop_first().filter(keep) =~= cur + (seq![s[0]]
                + s.drop_first().filter(keep)));
        }
    }
}

/// The scopes of a claim are its maximal runs of characters that are not
/// separators (space, tab, newline, carriage return, comma):
/// - a claim with no separator, if not empty, is its only scope;
/// - a separator splits a claim into the scopes before it and those after;
/// - the scopes, joined, give back the claim with the separators removed, so
///   every other character (a `.` or a `:` among them) stays in a scope.
pub proof fn lemma_scopes_are_the_separator_free_runs(a: Seq<char>, c: char, b: Seq<char>)
    ensures
        (forall|i: int| 0 <= i < a.len() ==> !is_scope_separator(#[trigger] a[i])) && a.len() > 0
            ==> scopes_in(a) == seq![a],
        is_scope_separator(c) ==> scopes_in(a + seq![c] + b) == scopes_in(a) + scopes_in(b),
        scopes_in(a).flatten() == a.filter(|x: char| !is_scope_separator(x)),
        scopes_in(Seq::empty()) == Seq::<Seq<char>>::empty(),
{
    if (forall|i: int| 0 <= i < a.len() ==> !is_scope_separator(#[trigger] a[i])) && a.len() > 0 {
        lemma_tokens_without_separator(a, Seq::empty());
        assert(Seq::<char>::empty() + a =~= a);
    }
    if is_scope_separator(c) {
        lemma_tokens_around_separator(a, c, b, Seq::empty());
    }
    lemma_tokens_join(a, Seq::empty());
    assert(Seq::<char>::empty() + a.filter(|x: char| !is_scope_separator(x)) =~= a.filter(
        |x: char| !is_scope_separator(x),
    ));
}

} // verus!
