//! Properties of the governor that span its operations, proved over the
//! specifications that the operations' contracts use.
use vstd::prelude::*;

use crate::a2a::SkillView;
use crate::generated::config::{ConfigView, SkillRuleView, VisibilityRuleView};
use crate::governor::{
    audience_admits, compiled_rules, compiled_upserts, compiled_visibility, denied_ids,
    first_match_verdict, find_by_id, rule_applies, gated, glob_matches, governed, lemma_find_by_id,
    upsert_step, upserted, visible, GovernorRulesView, IdentityView, Surface, UpsertView,
    VisView, WarningView, GLOB_ANY_ONE, GLOB_ANY_RUN,
};
use crate::policy::{is_scope_separator, scope_tokens, scopes_in};

verus! {

// ---------------------------------------------------------------------------
// Empty ruleset: full passthrough
// ---------------------------------------------------------------------------

proof fn lemma_gate_passthrough(rules: GovernorRulesView, skills: Seq<SkillView>, surface: Surface, id: IdentityView)
    requires
        rules.visibility.len() == 0,
        rules.default_allow,
    ensures
        gated(rules, skills, surface, id) == skills,
    decreases skills.len(),
{
    if skills.len() > 0 {
        lemma_gate_passthrough(rules, skills.drop_last(), surface, id);
        assert(skills.drop_last().push(skills.last()) =~= skills);
    }
}

/// A configuration with no visibility rule, no upsert entry and a default
/// posture that is not `false` compiles without warnings into rules that
/// return every card's skills unchanged, on either surface and for any caller.
pub proof fn lemma_empty_ruleset_is_passthrough(
    config: ConfigView,
    skills: Seq<SkillView>,
    surface: Surface,
    id: IdentityView,
)
    requires
        config.visibility is None || config.visibility == Some(Seq::<VisibilityRuleView>::empty()),
        config.skills is None || config.skills == Some(Seq::<SkillRuleView>::empty()),
        config.default_allow != Some(false),
    ensures
        compiled_rules(config).1 == Seq::<WarningView>::empty(),
        governed(compiled_rules(config).0, skills, surface, id) == (
            skills,
            Seq::<WarningView>::empty(),
        ),
{
    let rules = compiled_rules(config).0;
    assert(compiled_visibility(Seq::<VisibilityRuleView>::empty()).0.len() == 0);
    assert(compiled_upserts(Seq::<SkillRuleView>::empty()).0.len() == 0);
    assert(Seq::<WarningView>::empty() + Seq::<WarningView>::empty() =~= Seq::<WarningView>::empty());
    lemma_gate_passthrough(rules, skills, surface, id);
}

// ---------------------------------------------------------------------------
// The public card ignores identity
// ---------------------------------------------------------------------------

proof fn lemma_verdict_public(rules: Seq<VisView>, id1: IdentityView, id2: IdentityView, sid: Seq<char>, d: bool)
    ensures
        first_match_verdict(rules, Surface::Public, id1, sid, d) == first_match_verdict(
            rules,
            Surface::Public,
            id2,
            sid,
            d,
        ),
    decreases rules.len(),
{
    if rules.len() > 0 {
        assert(audience_admits(rules[0].audience, Surface::Public, id1) == audience_admits(
            rules[0].audience,
            Surface::Public,
            id2,
        ));
        lemma_verdict_public(rules.drop_first(), id1, id2, sid, d);
    }
}

proof fn lemma_gate_public(rules: GovernorRulesView, skills: Seq<SkillView>, id1: IdentityView, id2: IdentityView)
    ensures
        gated(rules, skills, Surface::Public, id1) == gated(rules, skills, Surface::Public, id2),
        denied_ids(rules, skills, Surface::Public, id1) == denied_ids(
            rules,
            skills,
            Surface::Public,
            id2,
        ),
    decreases skills.len(),
{
    if skills.len() > 0 {
        lemma_gate_public(rules, skills.drop_last(), id1, id2);
        lemma_verdict_public(rules.visibility, id1, id2, skills.last().id, rules.default_allow);
    }
}

proof fn lemma_upserts_public(
    start: (Seq<SkillView>, Seq<WarningView>),
    ups: Seq<UpsertView>,
    id1: IdentityView,
    id2: IdentityView,
    denied: Seq<Seq<char>>,
)
    ensures
        upserted(start, ups, Surface::Public, id1, denied) == upserted(
            start,
            ups,
            Surface::Public,
            id2,
            denied,
        ),
    decreases ups.len(),
{
    if ups.len() > 0 {
        lemma_upserts_public(start, ups.drop_last(), id1, id2, denied);
        assert(audience_admits(ups.last().audience, Surface::Public, id1) == audience_admits(
            ups.last().audience,
            Surface::Public,
            id2,
        ));
    }
}

/// On the public card, the governed skills and the warnings do not depend on
/// who the caller is: identity-typed rules never bind there.
pub proof fn lemma_public_card_ignores_identity(
    rules: GovernorRulesView,
    skills: Seq<SkillView>,
    id1: IdentityView,
    id2: IdentityView,
)
    ensures
        governed(rules, skills, Surface::Public, id1) == governed(
            rules,
            skills,
            Surface::Public,
            id2,
        ),
{
    lemma_gate_public(rules, skills, id1, id2);
    lemma_upserts_public(
        (gated(rules, skills, Surface::Public, id1), Seq::empty()),
        rules.upserts,
        id1,
        id2,
        denied_ids(rules, skills, Surface::Public, id1),
    );
}

// ---------------------------------------------------------------------------
// The visibility gate is a filter
// ---------------------------------------------------------------------------

/// The visibility gate keeps exactly those upstream skills whose verdict
/// allows them: each survivor is an upstream skill with an allowing verdict,
/// and each upstream skill with an allowing verdict survives.
pub proof fn lemma_gate_keeps_exactly_allowed(
    rules: GovernorRulesView,
    skills: Seq<SkillView>,
    surface: Surface,
    id: IdentityView,
)
    ensures
        ({
            let g = gated(rules, skills, surface, id);
            &&& g.len() <= skills.len()
            &&& forall|k: int| 0 <= k < g.len() ==> skills.contains(#[trigger] g[k]) && visible(
                rules,
                surface,
                id,
                g[k].id,
            )
            &&& forall|k: int|
                0 <= k < skills.len() && visible(rules, surface, id, #[trigger] skills[k].id)
                    ==> g.contains(skills[k])
        }),
    decreases skills.len(),
{
    if skills.len() > 0 {
        let init = skills.drop_last();
        lemma_gate_keeps_exactly_allowed(rules, init, surface, id);
        let g0 = gated(rules, init, surface, id);
        let g = gated(rules, skills, surface, id);
        assert forall|k: int| 0 <= k < g.len() implies skills.contains(#[trigger] g[k]) && visible(
            rules,
            surface,
            id,
            g[k].id,
        ) by {
            if k < g0.len() {
                assert(g[k] == g0[k]);
                let j = choose|j: int| 0 <= j < init.len() && init[j] == g0[k];
                assert(skills[j] == init[j]);
            } else {
                assert(skills[skills.len() - 1] == skills.last());
            }
        }
        assert forall|k: int|
            0 <= k < skills.len() && visible(rules, surface, id, #[trigger] skills[k].id) implies g.contains(
            skills[k],
        ) by {
            if k < init.len() {
                assert(skills[k] == init[k]);
                let j = choose|j: int| 0 <= j < g0.len() && g0[j] == init[k];
                assert(g[j] == g0[j]);
            } else {
                assert(g[g.len() - 1] == skills.last());
            }
        }
    }
}

// ---------------------------------------------------------------------------
// Upserts keep the survivors and land
// ---------------------------------------------------------------------------

/// What every upsert step keeps: the survivors' ids and other members stay
/// in place, and every skill past them was injected by some entry of `ups`
/// and has a name and a description.
pub open spec fn upsert_shape(
    cur: Seq<SkillView>,
    survivors: Seq<SkillView>,
    ups: Seq<UpsertView>,
) -> bool {
    &&& cur.len() >= survivors.len()
    &&& forall|i: int|
        0 <= i < survivors.len() ==> (#[trigger] cur[i]).id == survivors[i].id && cur[i].extra
            == survivors[i].extra
    &&& forall|i: int|
        survivors.len() <= i < cur.len() ==> (#[trigger] cur[i]).name is Some
            && cur[i].description is Some && cur[i].extra == Seq::<(Seq<char>, crate::a2a::JsonView)>::empty()
            && exists|j: int| 0 <= j < ups.len() && (#[trigger] ups[j]).skill.id == cur[i].id
}

proof fn lemma_upserted_shape(
    start: (Seq<SkillView>, Seq<WarningView>),
    ups: Seq<UpsertView>,
    surface: Surface,
    id: IdentityView,
    denied: Seq<Seq<char>>,
)
    ensures
        upsert_shape(upserted(start, ups, surface, id, denied).0, start.0, ups),
    decreases ups.len(),
{
    if ups.len() == 0 {
    } else {
        let prev = upserted(start, ups.drop_last(), surface, id, denied);
        lemma_upserted_shape(start, ups.drop_last(), surface, id, denied);
        let u = ups.last();
        let cur = prev.0;
        let next = upsert_step(prev, u, surface, id, denied).0;
        let s = start.0;
        assert forall|i: int| #![trigger cur[i]] s.len() <= i < cur.len() implies exists|j: int|
            0 <= j < ups.len() && (#[trigger] ups[j]).skill.id == cur[i].id by {
            let j = choose|j: int|
                0 <= j < ups.drop_last().len() && ups.drop_last()[j].skill.id == cur[i].id;
            assert(ups[j] == ups.drop_last()[j]);
        }
        if audience_admits(u.audience, surface, id) {
            lemma_find_by_id(cur, u.skill.id);
            match find_by_id(cur, u.skill.id) {
                Some(k) => {
                    assert forall|i: int| #![trigger next[i]] s.len() <= i < next.len() implies exists|j: int|
                        0 <= j < ups.len() && (#[trigger] ups[j]).skill.id == next[i].id by {
                        assert(next[i].id == cur[i].id);
                    }
                },
                None => {
                    if u.skill.name is Some && u.skill.description is Some {
                        assert forall|i: int| #![trigger next[i]] s.len() <= i < next.len() implies exists|j: int|
                            0 <= j < ups.len() && (#[trigger] ups[j]).skill.id == next[i].id by {
                            if i == cur.len() {
                                assert(ups[ups.len() - 1].skill.id == next[i].id);
                            } else {
                                assert(next[i] == cur[i]);
                            }
                        }
                    }
                },
            }
        }
    }
}

proof fn lemma_step_keeps_id(
    state: (Seq<SkillView>, Seq<WarningView>),
    u: UpsertView,
    surface: Surface,
    id: IdentityView,
    denied: Seq<Seq<char>>,
    x: Seq<char>,
)
    requires
        exists|i: int| 0 <= i < state.0.len() && state.0[i].id == x,
    ensures
        exists|i: int|
            0 <= i < upsert_step(state, u, surface, id, denied).0.len() && upsert_step(
                state,
                u,
                surface,
                id,
                denied,
            ).0[i].id == x,
{
    let cur = state.0;
    let next = upsert_step(state, u, surface, id, denied).0;
    let i = choose|i: int| 0 <= i < cur.len() && cur[i].id == x;
    if audience_admits(u.audience, surface, id) {
        lemma_find_by_id(cur, u.skill.id);
        match find_by_id(cur, u.skill.id) {
            Some(k) => {
                assert(next[i].id == x);
            },
            None => {
                assert(next[i].id == x);
            },
        }
    }
}

proof fn lemma_upserted_lands(
    start: (Seq<SkillView>, Seq<WarningView>),
    ups: Seq<UpsertView>,
    surface: Surface,
    id: IdentityView,
    denied: Seq<Seq<char>>,
    j: int,
)
    requires
        0 <= j < ups.len(),
        audience_admits(ups[j].audience, surface, id),
        ups[j].skill.name is Some,
        ups[j].skill.description is Some,
    ensures
        exists|i: int|
            0 <= i < upserted(start, ups, surface, id, denied).0.len() && upserted(
                start,
                ups,
                surface,
                id,
                denied,
            ).0[i].id == ups[j].skill.id,
    decreases ups.len(),
{
    let prev = upserted(start, ups.drop_last(), surface, id, denied);
    let x = ups[j].skill.id;
    let whole = upserted(start, ups, surface, id, denied);
    assert(whole == upsert_step(prev, ups.last(), surface, id, denied));
    if j < ups.len() - 1 {
        assert(ups.drop_last()[j] == ups[j]);
        lemma_upserted_lands(start, ups.drop_last(), surface, id, denied, j);
        lemma_step_keeps_id(prev, ups.last(), surface, id, denied, x);
        let i = choose|i: int| 0 <= i < whole.0.len() && whole.0[i].id == x;
        assert(0 <= i < whole.0.len() && whole.0[i].id == x);
    } else {
        let cur = prev.0;
        let next = whole.0;
        assert(ups.last() == ups[j]);
        lemma_find_by_id(cur, x);
        match find_by_id(cur, x) {
            Some(k) => {
                assert(next[k].id == x);
            },
            None => {
                assert(next[cur.len() as int].id == x);
            },
        }
    }
}

/// The upsert stage never removes, reorders or re-keys a survivor of the
/// visibility gate, nor touches its other members; every skill after the
/// survivors was injected by an upsert entry and carries both a name and a
/// description. And an upsert entry whose audience binds and that carries a
/// name and a description always lands: the result holds a skill with its id
/// (injected or rewritten skills win on id collision).
pub proof fn lemma_upserts_keep_survivors_and_land(
    rules: GovernorRulesView,
    skills: Seq<SkillView>,
    surface: Surface,
    id: IdentityView,
)
    ensures
        upsert_shape(governed(rules, skills, surface, id).0, gated(rules, skills, surface, id), rules.upserts),
        forall|j: int|
            0 <= j < rules.upserts.len() && audience_admits(rules.upserts[j].audience, surface, id)
                && rules.upserts[j].skill.name is Some && rules.upserts[j].skill.description is Some
                ==> exists|i: int|
                0 <= i < governed(rules, skills, surface, id).0.len() && (#[trigger] governed(
                    rules,
                    skills,
                    surface,
                    id,
                ).0[i]).id == rules.upserts[j].skill.id,
{
    let start = (gated(rules, skills, surface, id), Seq::<WarningView>::empty());
    let denied = denied_ids(rules, skills, surface, id);
    lemma_upserted_shape(start, rules.upserts, surface, id, denied);
    assert forall|j: int|
        0 <= j < rules.upserts.len() && audience_admits(rules.upserts[j].audience, surface, id)
            && rules.upserts[j].skill.name is Some && rules.upserts[j].skill.description is Some
            implies exists|i: int|
            0 <= i < governed(rules, skills, surface, id).0.len() && (#[trigger] governed(
                rules,
                skills,
                surface,
                id,
            ).0[i]).id == rules.upserts[j].skill.id by {
        lemma_upserted_lands(start, rules.upserts, surface, id, denied, j);
        let out = upserted(start, rules.upserts, surface, id, denied).0;
        assert(governed(rules, skills, surface, id).0 == out);
        let i = choose|i: int| 0 <= i < out.len() && out[i].id == rules.upserts[j].skill.id;
        assert(governed(rules, skills, surface, id).0[i].id == rules.upserts[j].skill.id);
    }
}

// ---------------------------------------------------------------------------
// Glob patterns
// ---------------------------------------------------------------------------

/// A pattern without `*` or `?` matches exactly itself.
pub proof fn lemma_glob_literal_matches_itself_only(p: Seq<char>, s: Seq<char>)
    requires
        forall|i: int| 0 <= i < p.len() ==> p[i] != GLOB_ANY_RUN && p[i] != GLOB_ANY_ONE,
    ensures
        glob_matches(p, s) <==> p == s,
    decreases p.len(),
{
    if p.len() > 0 {
        assert(p[0] != GLOB_ANY_RUN && p[0] != GLOB_ANY_ONE);
        assert forall|i: int| 0 <= i < p.drop_first().len() implies p.drop_first()[i] != GLOB_ANY_RUN
            && p.drop_first()[i] != GLOB_ANY_ONE by {
            assert(p.drop_first()[i] == p[i + 1]);
        }
        lemma_glob_literal_matches_itself_only(p.drop_first(), s.drop_first());
        if s.len() > 0 && s[0] == p[0] && glob_matches(p.drop_first(), s.drop_first()) {
            assert(p.drop_first() == s.drop_first());
            assert forall|i: int| 0 <= i < p.len() implies p[i] == s[i] by {
                if i > 0 {
                    assert(p[i] == p.drop_first()[i - 1]);
                    assert(s[i] == s.drop_first()[i - 1]);
                }
            }
            assert(p =~= s);
        }
        if p == s {
            assert(p.drop_first() == s.drop_first());
        }
    } else {
        if s.len() == 0 {
            assert(p =~= s);
        }
    }
}

/// The pattern `*` matches every id.
pub proof fn lemma_glob_star_matches_all(s: Seq<char>)
    ensures
        glob_matches(seq![GLOB_ANY_RUN], s),
    decreases s.len(),
{
    let p = seq![GLOB_ANY_RUN];
    assert(p.len() == 1 && p[0] == GLOB_ANY_RUN);
    assert(p.drop_first() =~= Seq::<char>::empty());
    if s.len() > 0 {
        lemma_glob_star_matches_all(s.drop_first());
    } else {
        assert(glob_matches(p.drop_first(), s));
    }
}

// ---------------------------------------------------------------------------
// Scopes
// ---------------------------------------------------------------------------

proof fn lemma_scope_tokens_clean(s: Seq<char>, cur: Seq<char>)
    requires
        forall|i: int| 0 <= i < cur.len() ==> !is_scope_separator(cur[i]),
    ensures
        forall|k: int|
            0 <= k < scope_tokens(s, cur).len() ==> (#[trigger] scope_tokens(s, cur)[k]).len() > 0
                && forall|i: int|
                0 <= i < scope_tokens(s, cur)[k].len() ==> !is_scope_separator(
                    scope_tokens(s, cur)[k][i],
                ),
    decreases s.len(),
{
    if s.len() == 0 {
        if cur.len() > 0 {
            assert(scope_tokens(s, cur) == seq![cur]);
            assert(seq![cur][0] == cur);
        } else {
            assert(scope_tokens(s, cur).len() == 0);
        }
    } else if is_scope_separator(s[0]) {
        lemma_scope_tokens_clean(s.drop_first(), Seq::empty());
        let head: Seq<Seq<char>> = if cur.len() > 0 {
            seq![cur]
        } else {
            Seq::empty()
        };
        let tail = scope_tokens(s.drop_first(), Seq::empty());
        assert forall|k: int| 0 <= k < scope_tokens(s, cur).len() implies (#[trigger] scope_tokens(
            s,
            cur,
        )[k]).len() > 0 && forall|i: int|
            0 <= i < scope_tokens(s, cur)[k].len() ==> !is_scope_separator(
                scope_tokens(s, cur)[k][i],
            ) by {
            assert(scope_tokens(s, cur) == head + tail);
            if k >= head.len() {
                assert(scope_tokens(s, cur)[k] == tail[k - head.len()]);
            } else {
                assert(scope_tokens(s, cur)[k] == cur);
            }
        }
    } else {
        assert forall|i: int| 0 <= i < cur.push(s[0]).len() implies !is_scope_separator(
            cur.push(s[0])[i],
        ) by {
            if i < cur.len() {
                assert(cur.push(s[0])[i] == cur[i]);
            }
        }
        lemma_scope_tokens_clean(s.drop_first(), cur.push(s[0]));
        assert(scope_tokens(s, cur) == scope_tokens(s.drop_first(), cur.push(s[0])));
    }
}

/// Every scope split from a claim is non-empty and holds no separator
/// (white space among space, tab, newline, carriage return, or a comma).
pub proof fn lemma_scopes_are_clean(raw: Seq<char>)
    ensures
        forall|k: int|
            0 <= k < scopes_in(raw).len() ==> (#[trigger] scopes_in(raw)[k]).len() > 0 && forall|
                i: int,
            |
                0 <= i < scopes_in(raw)[k].len() ==> !is_scope_separator(scopes_in(raw)[k][i]),
{
    lemma_scope_tokens_clean(raw, Seq::empty());
}

// ---------------------------------------------------------------------------
// First match wins
// ---------------------------------------------------------------------------

/// The visibility verdict of a skill is the effect of the first rule, in
/// declaration order, whose audience and target both match; when no rule
/// matches, it is the default posture.
pub proof fn lemma_first_matching_rule_decides(
    rules: Seq<VisView>,
    surface: Surface,
    id: IdentityView,
    sid: Seq<char>,
    default_allow: bool,
)
    ensures
        forall|k: int|
            0 <= k < rules.len() && rule_applies(#[trigger] rules[k], surface, id, sid) && (forall|
                j: int,
            |
                0 <= j < k ==> !rule_applies(rules[j], surface, id, sid)) ==> first_match_verdict(
                rules,
                surface,
                id,
                sid,
                default_allow,
            ) == rules[k].effect_allow,
        (forall|j: int| 0 <= j < rules.len() ==> !rule_applies(rules[j], surface, id, sid))
            ==> first_match_verdict(rules, surface, id, sid, default_allow) == default_allow,
    decreases rules.len(),
{
    if rules.len() > 0 {
        let rest = rules.drop_first();
        lemma_first_matching_rule_decides(rest, surface, id, sid, default_allow);
        assert forall|k: int|
            0 <= k < rules.len() && rule_applies(#[trigger] rules[k], surface, id, sid) && (forall|
                j: int,
            |
                0 <= j < k ==> !rule_applies(rules[j], surface, id, sid)) implies first_match_verdict(
            rules,
            surface,
            id,
            sid,
            default_allow,
        ) == rules[k].effect_allow by {
            if k > 0 {
                assert(!rule_applies(rules[0], surface, id, sid));
                assert(rest[k - 1] == rules[k]);
                assert forall|j: int| 0 <= j < k - 1 implies !rule_applies(rest[j], surface, id, sid) by {
                    assert(rest[j] == rules[j + 1]);
                }
            }
        }
        if forall|j: int| 0 <= j < rules.len() ==> !rule_applies(rules[j], surface, id, sid) {
            assert(!rule_applies(rules[0], surface, id, sid));
            assert forall|j: int| 0 <= j < rest.len() implies !rule_applies(rest[j], surface, id, sid) by {
                assert(rest[j] == rules[j + 1]);
            }
        }
    }
}

// ---------------------------------------------------------------------------
// Every dropped rule is reported
// ---------------------------------------------------------------------------

/// Compiling visibility rules keeps some and warns once for each one dropped:
/// kept rules and warnings together number the rules.
pub proof fn lemma_each_dropped_visibility_rule_warns_once(rules: Seq<VisibilityRuleView>)
    ensures
        compiled_visibility(rules).0.len() + compiled_visibility(rules).1.len() == rules.len(),
    decreases rules.len(),
{
    if rules.len() > 0 {
        lemma_each_dropped_visibility_rule_warns_once(rules.drop_last());
    }
}

/// Compiling upsert entries keeps some and warns once for each one dropped:
/// kept entries and warnings together number the entries.
pub proof fn lemma_each_dropped_upsert_warns_once(rules: Seq<SkillRuleView>)
    ensures
        compiled_upserts(rules).0.len() + compiled_upserts(rules).1.len() == rules.len(),
    decreases rules.len(),
{
    if rules.len() > 0 {
        lemma_each_dropped_upsert_warns_once(rules.drop_last());
    }
}

} // verus!
