//! Rule-evaluation engine: a first-match visibility gate, then a layered
//! skill upsert.
use vstd::prelude::*;
use vstd::string::*;

use crate::a2a::{members_view, views, JsonView, Skill, SkillView};
use crate::generated::config::{
    Config, ConfigView, SkillPayload, SkillPayloadView, SkillRule, SkillRuleView, VisibilityRule,
    VisibilityRuleView,
};
use crate::text::str_equals;

verus! {

/// Which card surface a request targets.
#[derive(Clone, Copy, Debug, PartialEq, Eq, Structural)]
pub enum Surface {
    /// The unauthenticated public well-known card.
    Public,
    /// The authenticated extended card.
    Extended,
}

/// The caller, as the authentication data describes it.
#[derive(Clone, Debug)]
pub struct Identity {
    pub client_id: Option<String>,
    pub client_name: Option<String>,
    pub tier: Option<String>,
    pub scopes: Vec<String>,
}

/// The mathematical model of an [`Identity`].
pub struct IdentityView {
    pub client_id: Option<Seq<char>>,
    pub client_name: Option<Seq<char>>,
    pub tier: Option<Seq<char>>,
    pub scopes: Seq<Seq<char>>,
}

impl View for Identity {
    type V = IdentityView;

    open spec fn view(&self) -> IdentityView {
        IdentityView {
            client_id: self.client_id.deep_view(),
            client_name: self.client_name.deep_view(),
            tier: self.tier.deep_view(),
            scopes: self.scopes.deep_view(),
        }
    }
}

/// The anonymous caller: no client, no tier, no scopes.
pub open spec fn anonymous() -> IdentityView {
    IdentityView { client_id: None, client_name: None, tier: None, scopes: Seq::empty() }
}

impl Default for Identity {
    fn default() -> (r: Identity)
        ensures
            r@ == anonymous(),
    {
        let r = Identity { client_id: None, client_name: None, tier: None, scopes: Vec::new() };
        assert(r@.scopes =~= Seq::<Seq<char>>::empty());
        r
    }
}

/// Audience-type names of the configuration.
pub const AUDIENCE_ANY: &'static str = "any";

pub const AUDIENCE_CLIENT: &'static str = "client";

pub const AUDIENCE_SCOPE: &'static str = "scope";

pub const AUDIENCE_TIER: &'static str = "tier";

/// Effect names of a visibility rule.
pub const EFFECT_ALLOW: &'static str = "allow";

pub const EFFECT_DENY: &'static str = "deny";

/// Who a compiled rule applies to.
#[derive(Debug)]
pub enum Audience {
    Any,
    Client(String),
    Scope(String),
    Tier(String),
}

/// The mathematical model of an [`Audience`].
pub enum AudienceView {
    Any,
    Client(Seq<char>),
    Scope(Seq<char>),
    Tier(Seq<char>),
}

impl View for Audience {
    type V = AudienceView;

    open spec fn view(&self) -> AudienceView {
        match self {
            Audience::Any => AudienceView::Any,
            Audience::Client(v) => AudienceView::Client(v@),
            Audience::Scope(v) => AudienceView::Scope(v@),
            Audience::Tier(v) => AudienceView::Tier(v@),
        }
    }
}

/// Whether a rule for audience `a` binds for caller `id` on `surface`:
/// `any` always does; on the public surface no identity-typed audience does;
/// otherwise a client audience names the client id or name, a scope audience
/// one of the caller's scopes, a tier audience the caller's tier.
pub open spec fn audience_admits(a: AudienceView, surface: Surface, id: IdentityView) -> bool {
    match a {
        AudienceView::Any => true,
        AudienceView::Client(v) => surface != Surface::Public && (id.client_id == Some(v)
            || id.client_name == Some(v)),
        AudienceView::Scope(v) => surface != Surface::Public && id.scopes.contains(v),
        AudienceView::Tier(v) => surface != Surface::Public && id.tier == Some(v),
    }
}

/// Whether an optional string holds exactly `v`.
fn opt_string_is(o: &Option<String>, v: &String) -> (r: bool)
    ensures
        r == (o.deep_view() == Some(v@)),
{
    match o {
        Some(s) => str_equals(s.as_str(), v.as_str()),
        None => false,
    }
}

impl Audience {
    /// Whether this audience binds for caller `id` on `surface`.
    pub fn matches(&self, surface: Surface, id: &Identity) -> (r: bool)
        ensures
            r == audience_admits(self@, surface, id@),
    {
        match self {
            Audience::Any => true,
            _ if surface == Surface::Public => false,
            Audience::Client(v) => opt_string_is(&id.client_id, v) || opt_string_is(
                &id.client_name,
                v,
            ),
            Audience::Scope(v) => {
                let mut i: usize = 0;
                while i < id.scopes.len()
                    invariant
                        0 <= i <= id.scopes@.len(),
                        surface != Surface::Public,
                        self@ == AudienceView::Scope(v@),
                        forall|j: int| 0 <= j < i ==> id.scopes@[j]@ != v@,
                    decreases id.scopes@.len() - i,
                {
                    if str_equals(id.scopes[i].as_str(), v.as_str()) {
                        assert(id@.scopes[i as int] == v@);
                        return true;
                    }
                    i = i + 1;
                }
                assert(!id@.scopes.contains(v@));
                false
            },
            Audience::Tier(v) => opt_string_is(&id.tier, v),
        }
    }
}

/// Which skills a compiled visibility rule targets.
#[derive(Debug)]
pub enum Target {
    All,
    Exact(String),
    Glob(String),
}

/// The mathematical model of a [`Target`].
pub enum TargetView {
    All,
    Exact(Seq<char>),
    Glob(Seq<char>),
}

impl View for Target {
    type V = TargetView;

    open spec fn view(&self) -> TargetView {
        match self {
            Target::All => TargetView::All,
            Target::Exact(v) => TargetView::Exact(v@),
            Target::Glob(v) => TargetView::Glob(v@),
        }
    }
}

/// The glob character that matches any run of characters.
pub const GLOB_ANY_RUN: char = '*';

/// The glob character that matches exactly one character.
pub const GLOB_ANY_ONE: char = '?';

/// `*` / `?` glob matching over characters: `*` matches any run of
/// characters, `?` exactly one character, every other character itself.
pub open spec fn glob_matches(p: Seq<char>, s: Seq<char>) -> bool
    decreases p.len(), s.len(),
{
    if p.len() == 0 {
        s.len() == 0
    } else if p[0] == GLOB_ANY_RUN {
        glob_matches(p.drop_first(), s) || (s.len() > 0 && glob_matches(p, s.drop_first()))
    } else if p[0] == GLOB_ANY_ONE {
        s.len() > 0 && glob_matches(p.drop_first(), s.drop_first())
    } else {
        s.len() > 0 && s[0] == p[0] && glob_matches(p.drop_first(), s.drop_first())
    }
}

/// Whether the pattern suffix `p[i..]` matches the input suffix `s[j..]`.
pub open spec fn glob_cell(p: Seq<char>, s: Seq<char>, i: int, j: int) -> bool {
    glob_matches(p.skip(i), s.skip(j))
}

/// How one cell of the match table follows from the row of the next
/// pattern character and, for `*`, from the next cell of its own row.
proof fn lemma_glob_cell_step(p: Seq<char>, s: Seq<char>, i: int, j: int)
    requires
        0 <= i < p.len(),
        0 <= j <= s.len(),
    ensures
        glob_cell(p, s, i, j) == if p[i] == GLOB_ANY_RUN {
            glob_cell(p, s, i + 1, j) || (j < s.len() && glob_cell(p, s, i, j + 1))
        } else if p[i] == GLOB_ANY_ONE {
            j < s.len() && glob_cell(p, s, i + 1, j + 1)
        } else {
            j < s.len() && s[j] == p[i] && glob_cell(p, s, i + 1, j + 1)
        },
{
    let ps = p.skip(i);
    let ss = s.skip(j);
    assert(ps[0] == p[i]);
    assert(ps.drop_first() =~= p.skip(i + 1));
    if j < s.len() {
        assert(ss[0] == s[j]);
        assert(ss.drop_first() =~= s.skip(j + 1));
    }
}

/// The last row of the match table: the empty pattern suffix matches only
/// the empty input suffix.
fn glob_last_row(p: &[char], s: &[char]) -> (row: Vec<bool>)
    ensures
        row@.len() == s@.len(),
        forall|j: int| 0 <= j < s@.len() ==> row@[j] == glob_cell(p@, s@, p@.len() as int, j),
{
    let mut row: Vec<bool> = Vec::new();
    let mut j: usize = 0;
    while j < s.len()
        invariant
            0 <= j <= s@.len(),
            row@.len() == j,
            forall|k: int| 0 <= k < j ==> row@[k] == glob_cell(p@, s@, p@.len() as int, k),
        decreases s@.len() - j,
    {
        assert(p@.skip(p@.len() as int).len() == 0);
        assert(s@.skip(j as int).len() > 0);
        row.push(false);
        j = j + 1;
    }
    row
}

/// The row of pattern character `i`, from the row of character `i + 1`. A row holds one
/// cell per input position before the end; the cell at the end is kept apart.
fn glob_row(p: &[char], s: &[char], i: usize, next: &Vec<bool>, next_end: bool) -> (res: (Vec<bool>, bool))
    requires
        i < p@.len(),
        next@.len() == s@.len(),
        forall|j: int| 0 <= j < s@.len() ==> next@[j] == glob_cell(p@, s@, i + 1, j),
        next_end == glob_cell(p@, s@, i + 1, s@.len() as int),
    ensures
        res.0@.len() == s@.len(),
        forall|j: int| 0 <= j < s@.len() ==> res.0@[j] == glob_cell(p@, s@, i as int, j),
        res.1 == glob_cell(p@, s@, i as int, s@.len() as int),
{
    let n = s.len();
    let c = p[i];
    proof {
        lemma_glob_cell_step(p@, s@, i as int, n as int);
    }
    let end = if c == GLOB_ANY_RUN {
        next_end
    } else {
        false
    };
    let mut row = vec![false; n];
    let mut j = n;
    while j > 0
        invariant
            0 <= j <= n == s@.len(),
            i < p@.len(),
            c == p@[i as int],
            next@.len() == n,
            forall|k: int| 0 <= k < n ==> next@[k] == glob_cell(p@, s@, i + 1, k),
            next_end == glob_cell(p@, s@, i + 1, n as int),
            end == glob_cell(p@, s@, i as int, n as int),
            row@.len() == n,
            forall|k: int| j <= k < n ==> row@[k] == glob_cell(p@, s@, i as int, k),
        decreases j,
    {
        j = j - 1;
        proof {
            lemma_glob_cell_step(p@, s@, i as int, j as int);
        }
        let after_next = if j + 1 < n {
            next[j + 1]
        } else {
            next_end
        };
        let v = if c == GLOB_ANY_RUN {
            let after_here = if j + 1 < n {
                row[j + 1]
            } else {
                end
            };
            next[j] || after_here
        } else if c == GLOB_ANY_ONE {
            after_next
        } else {
            s[j] == c && after_next
        };
        row.set(j, v);
    }
    (row, end)
}

/// Whether `p` matches `s`, by the match table of suffixes, row by row from
/// the end of the pattern: time proportional to the product of the lengths.
fn glob_table(p: &[char], s: &[char]) -> (r: bool)
    ensures
        r == glob_matches(p@, s@),
{
    let mut row = glob_last_row(p, s);
    let mut end = true;
    assert(p@.skip(p@.len() as int).len() == 0);
    assert(s@.skip(s@.len() as int).len() == 0);
    let mut i = p.len();
    while i > 0
        invariant
            0 <= i <= p@.len(),
            row@.len() == s@.len(),
            forall|j: int| 0 <= j < s@.len() ==> row@[j] == glob_cell(p@, s@, i as int, j),
            end == glob_cell(p@, s@, i as int, s@.len() as int),
        decreases i,
    {
        i = i - 1;
        let (r2, e2) = glob_row(p, s, i, &row, end);
        row = r2;
        end = e2;
    }
    assert(p@.skip(0) =~= p@);
    assert(s@.skip(0) =~= s@);
    if s.len() == 0 {
        end
    } else {
        row[0]
    }
}

/// The characters of `s`, in order.
fn chars_of(s: &str) -> (r: Vec<char>)
    ensures
        r@ == s@,
{
    let mut out: Vec<char> = Vec::new();
    let ghost cs = s@;
    for c in it: s.chars()
        invariant
            cs == s@,
            it.seq() == cs,
            out@ == cs.take(it.index() as int),
    {
        let ghost i = it.index() as int;
        assert(cs.take(i + 1) =~= cs.take(i).push(c));
        out.push(c);
    }
    assert(cs.take(cs.len() as int) =~= cs);
    out
}

/// Minimal `*` / `?` glob matcher over the characters of `pat` and `s`.
pub fn glob_match(pat: &str, s: &str) -> (r: bool)
    ensures
        r == glob_matches(pat@, s@),
{
    let p = chars_of(pat);
    let t = chars_of(s);
    glob_table(p.as_slice(), t.as_slice())
}

/// Whether a target selects the skill with id `sid`.
pub open spec fn target_admits(t: TargetView, sid: Seq<char>) -> bool {
    match t {
        TargetView::All => true,
        TargetView::Exact(i) => i == sid,
        TargetView::Glob(p) => glob_matches(p, sid),
    }
}

impl Target {
    /// Whether this target selects the skill with id `skill_id`.
    pub fn matches(&self, skill_id: &String) -> (r: bool)
        ensures
            r == target_admits(self@, skill_id@),
    {
        match self {
            Target::All => true,
            Target::Exact(i) => str_equals(i.as_str(), skill_id.as_str()),
            Target::Glob(p) => glob_match(p.as_str(), skill_id.as_str()),
        }
    }
}

/// A misconfiguration met while compiling the rules or applying them.
#[derive(Debug)]
pub enum Warning {
    /// An identity audience (`client`, `scope`, `tier`) without a value: the rule is dropped.
    MissingAudienceValue(String),
    /// An audience type that is none of `any`, `client`, `scope`, `tier`: the rule is dropped.
    UnknownAudienceType(String),
    /// A visibility effect that is neither `allow` nor `deny`: the rule is dropped.
    UnknownEffect(String),
    /// A skill upsert whose `skill.id` is empty: the entry is dropped.
    EmptyUpsertId,
    /// A skill that the visibility gate denied was injected again by an upsert.
    DeniedThenReinjected(String),
    /// An inject that lacks `name` or `description`: it is skipped.
    InjectMissingNameOrDescription(String),
}

/// The mathematical model of a [`Warning`].
pub enum WarningView {
    MissingAudienceValue(Seq<char>),
    UnknownAudienceType(Seq<char>),
    UnknownEffect(Seq<char>),
    EmptyUpsertId,
    DeniedThenReinjected(Seq<char>),
    InjectMissingNameOrDescription(Seq<char>),
}

impl View for Warning {
    type V = WarningView;

    open spec fn view(&self) -> WarningView {
        match self {
            Warning::MissingAudienceValue(s) => WarningView::MissingAudienceValue(s@),
            Warning::UnknownAudienceType(s) => WarningView::UnknownAudienceType(s@),
            Warning::UnknownEffect(s) => WarningView::UnknownEffect(s@),
            Warning::EmptyUpsertId => WarningView::EmptyUpsertId,
            Warning::DeniedThenReinjected(s) => WarningView::DeniedThenReinjected(s@),
            Warning::InjectMissingNameOrDescription(s) => WarningView::InjectMissingNameOrDescription(
                s@,
            ),
        }
    }
}

/// The log line of a warning.
pub open spec fn warning_text(w: WarningView) -> Seq<char> {
    match w {
        WarningView::MissingAudienceValue(k) => "rule with audienceType '"@ + k
            + "' missing audienceValue \u{2014} dropped"@,
        WarningView::UnknownAudienceType(k) => "unknown audienceType '"@ + k
            + "' \u{2014} dropped"@,
        WarningView::UnknownEffect(e) => "unknown visibility effect '"@ + e
            + "' \u{2014} dropped"@,
        WarningView::EmptyUpsertId => "skill upsert with empty id \u{2014} dropped"@,
        WarningView::DeniedThenReinjected(id) => "skill '"@ + id
            + "' was denied then re-injected"@,
        WarningView::InjectMissingNameOrDescription(id) => "inject '"@ + id
            + "' missing name/description \u{2014} skipped"@,
    }
}

/// `head`, then `middle`, then `tail`, as one string.
fn quoted(head: &str, middle: &str, tail: &str) -> (r: String)
    ensures
        r@ == head@ + middle@ + tail@,
{
    let mut m = String::from_str(head);
    m.append(middle);
    m.append(tail);
    m
}

impl Warning {
    /// The log line of this warning.
    pub fn message(&self) -> (r: String)
        ensures
            r@ == warning_text(self@),
    {
        match self {
            Warning::MissingAudienceValue(k) => quoted(
                "rule with audienceType '",
                k.as_str(),
                "' missing audienceValue \u{2014} dropped",
            ),
            Warning::UnknownAudienceType(k) => quoted(
                "unknown audienceType '",
                k.as_str(),
                "' \u{2014} dropped",
            ),
            Warning::UnknownEffect(e) => quoted(
                "unknown visibility effect '",
                e.as_str(),
                "' \u{2014} dropped",
            ),
            Warning::EmptyUpsertId => String::from_str("skill upsert with empty id \u{2014} dropped"),
            Warning::DeniedThenReinjected(id) => quoted(
                "skill '",
                id.as_str(),
                "' was denied then re-injected",
            ),
            Warning::InjectMissingNameOrDescription(id) => quoted(
                "inject '",
                id.as_str(),
                "' missing name/description \u{2014} skipped",
            ),
        }
    }
}

/// Appending to a sequence appends the view to its views.
pub proof fn lemma_views_push<T: View>(s: Seq<T>, x: T)
    ensures
        views(s.push(x)) == views(s).push(x@),
{
    assert(views(s.push(x)) =~= views(s).push(x@));
}

/// The audience type of a rule; `any` when absent.
pub open spec fn audience_kind(at: Option<Seq<char>>) -> Seq<char> {
    match at {
        Some(t) => t,
        None => AUDIENCE_ANY@,
    }
}

/// The audience a rule compiles to, if it is kept, and the warnings met.
pub open spec fn compiled_audience(at: Option<Seq<char>>, av: Option<Seq<char>>) -> (
    Option<AudienceView>,
    Seq<WarningView>,
) {
    let kind = audience_kind(at);
    if kind == AUDIENCE_ANY@ {
        (Some(AudienceView::Any), Seq::empty())
    } else if kind == AUDIENCE_CLIENT@ || kind == AUDIENCE_SCOPE@ || kind == AUDIENCE_TIER@ {
        match av {
            Some(v) => if v.len() > 0 {
                (
                    Some(
                        if kind == AUDIENCE_CLIENT@ {
                            AudienceView::Client(v)
                        } else if kind == AUDIENCE_SCOPE@ {
                            AudienceView::Scope(v)
                        } else {
                            AudienceView::Tier(v)
                        },
                    ),
                    Seq::empty(),
                )
            } else {
                (None, seq![WarningView::MissingAudienceValue(kind)])
            },
            None => (None, seq![WarningView::MissingAudienceValue(kind)]),
        }
    } else {
        (None, seq![WarningView::UnknownAudienceType(kind)])
    }
}

/// The view of an optional compiled audience.
pub open spec fn audience_opt_view(a: Option<Audience>) -> Option<AudienceView> {
    match a {
        Some(x) => Some(x@),
        None => None,
    }
}

/// The view of an optional string slice.
pub open spec fn str_opt_view(s: Option<&str>) -> Option<Seq<char>> {
    match s {
        Some(v) => Some(v@),
        None => None,
    }
}

/// Validate an audience; a dropped rule leaves a warning in `warn`.
fn compile_audience(at: Option<&str>, av: Option<&str>, warn: &mut Vec<Warning>) -> (r: Option<
    Audience,
>)
    ensures
        audience_opt_view(r) == compiled_audience(str_opt_view(at), str_opt_view(av)).0,
        views(final(warn)@) == views(old(warn)@) + compiled_audience(
            str_opt_view(at),
            str_opt_view(av),
        ).1,
{
    let kind: &str = match at {
        Some(t) => t,
        None => AUDIENCE_ANY,
    };
    assert(kind@ == audience_kind(str_opt_view(at)));
    if str_equals(kind, AUDIENCE_ANY) {
        assert(views(old(warn)@) + Seq::empty() =~= views(old(warn)@));
        Some(Audience::Any)
    } else if str_equals(kind, AUDIENCE_CLIENT) || str_equals(kind, AUDIENCE_SCOPE) || str_equals(
        kind,
        AUDIENCE_TIER,
    ) {
        let value = match av {
            Some(v) => if !v.is_empty() {
                Some(v)
            } else {
                None
            },
            None => None,
        };
        match value {
            Some(v) => {
                assert(views(old(warn)@) + Seq::empty() =~= views(old(warn)@));
                if str_equals(kind, AUDIENCE_CLIENT) {
                    Some(Audience::Client(v.to_owned()))
                } else if str_equals(kind, AUDIENCE_SCOPE) {
                    Some(Audience::Scope(v.to_owned()))
                } else {
                    Some(Audience::Tier(v.to_owned()))
                }
            },
            None => {
                let w = Warning::MissingAudienceValue(kind.to_owned());
                proof {
                    lemma_views_push(warn@, w);
                }
                warn.push(w);
                assert(views(old(warn)@).push(w@) =~= views(old(warn)@) + seq![w@]);
                None
            },
        }
    } else {
        let w = Warning::UnknownAudienceType(kind.to_owned());
        proof {
            lemma_views_push(warn@, w);
        }
        warn.push(w);
        assert(views(old(warn)@).push(w@) =~= views(old(warn)@) + seq![w@]);
        None
    }
}

/// The target a rule compiles to: an exact id when `skillId` is non-empty,
/// else a glob when `skillIdPattern` is non-empty, else every skill.
pub open spec fn compiled_target(id: Option<Seq<char>>, pat: Option<Seq<char>>) -> TargetView {
    match id {
        Some(i) if i.len() > 0 => TargetView::Exact(i),
        _ => match pat {
            Some(p) if p.len() > 0 => TargetView::Glob(p),
            _ => TargetView::All,
        },
    }
}

fn compile_target(id: Option<&str>, pat: Option<&str>) -> (r: Target)
    ensures
        r@ == compiled_target(str_opt_view(id), str_opt_view(pat)),
{
    match id {
        Some(i) if !i.is_empty() => {
            return Target::Exact(i.to_owned());
        },
        _ => {},
    }
    match pat {
        Some(p) if !p.is_empty() => Target::Glob(p.to_owned()),
        _ => Target::All,
    }
}

/// One compiled visibility rule.
#[derive(Debug)]
pub struct CompiledVis {
    effect_allow: bool,
    audience: Audience,
    target: Target,
}

/// One compiled skill upsert entry.
#[derive(Debug)]
pub struct CompiledUpsert {
    audience: Audience,
    skill: SkillPayload,
}

/// The mathematical model of a [`CompiledVis`].
pub struct VisView {
    pub effect_allow: bool,
    pub audience: AudienceView,
    pub target: TargetView,
}

/// The mathematical model of a [`CompiledUpsert`].
pub struct UpsertView {
    pub audience: AudienceView,
    pub skill: SkillPayloadView,
}

impl View for CompiledVis {
    type V = VisView;

    closed spec fn view(&self) -> VisView {
        VisView { effect_allow: self.effect_allow, audience: self.audience@, target: self.target@ }
    }
}

impl View for CompiledUpsert {
    type V = UpsertView;

    closed spec fn view(&self) -> UpsertView {
        UpsertView { audience: self.audience@, skill: self.skill@ }
    }
}

/// The rule set, validated once at configuration time.
#[derive(Debug)]
pub struct GovernorRules {
    default_allow: bool,
    visibility: Vec<CompiledVis>,
    upserts: Vec<CompiledUpsert>,
}

/// The mathematical model of [`GovernorRules`].
pub struct GovernorRulesView {
    /// Verdict for a skill that no visibility rule matches.
    pub default_allow: bool,
    /// Visibility rules, in declaration order.
    pub visibility: Seq<VisView>,
    /// Upsert entries, in declaration order.
    pub upserts: Seq<UpsertView>,
}

impl View for GovernorRules {
    type V = GovernorRulesView;

    closed spec fn view(&self) -> GovernorRulesView {
        GovernorRulesView {
            default_allow: self.default_allow,
            visibility: views(self.visibility@),
            upserts: views(self.upserts@),
        }
    }
}

/// Whether rules leave every card as it is: no visibility rule, no upsert
/// entry, and a default posture that keeps a skill.
pub open spec fn rules_inert(r: GovernorRulesView) -> bool {
    r.visibility.len() == 0 && r.upserts.len() == 0 && r.default_allow
}

impl GovernorRules {
    /// Whether these rules leave every card as it is (an empty ruleset).
    pub fn is_inert(&self) -> (r: bool)
        ensures
            r == rules_inert(self@),
    {
        self.visibility.len() == 0 && self.upserts.len() == 0 && self.default_allow
    }
}

/// An identity audience always names a non-empty value.
pub open spec fn audience_well_formed(a: AudienceView) -> bool {
    match a {
        AudienceView::Any => true,
        AudienceView::Client(v) => v.len() > 0,
        AudienceView::Scope(v) => v.len() > 0,
        AudienceView::Tier(v) => v.len() > 0,
    }
}

/// An exact or glob target always names a non-empty id or pattern.
pub open spec fn target_well_formed(t: TargetView) -> bool {
    match t {
        TargetView::All => true,
        TargetView::Exact(v) => v.len() > 0,
        TargetView::Glob(v) => v.len() > 0,
    }
}

/// What compiled rules always satisfy: identity audiences carry a value,
/// targets a non-empty id or pattern, upsert entries a non-empty skill id.
pub open spec fn rules_well_formed(r: GovernorRulesView) -> bool {
    &&& forall|k: int|
        0 <= k < r.visibility.len() ==> audience_well_formed((#[trigger] r.visibility[k]).audience)
            && target_well_formed(r.visibility[k].target)
    &&& forall|k: int|
        0 <= k < r.upserts.len() ==> audience_well_formed((#[trigger] r.upserts[k]).audience)
            && r.upserts[k].skill.id.len() > 0
}

/// A visibility rule as compiled, if it is kept, and the warnings met:
/// an unknown effect drops it before its audience is looked at.
pub open spec fn compiled_visibility_rule(r: VisibilityRuleView) -> (Option<VisView>, Seq<WarningView>) {
    if r.effect == EFFECT_ALLOW@ || r.effect == EFFECT_DENY@ {
        let (a, w) = compiled_audience(r.audience_type, r.audience_value);
        match a {
            Some(aud) => (
                Some(
                    VisView {
                        effect_allow: r.effect == EFFECT_ALLOW@,
                        audience: aud,
                        target: compiled_target(r.skill_id, r.skill_id_pattern),
                    },
                ),
                w,
            ),
            None => (None, w),
        }
    } else {
        (None, seq![WarningView::UnknownEffect(r.effect)])
    }
}

/// The kept visibility rules, in order, and all warnings met, in order.
pub open spec fn compiled_visibility(rules: Seq<VisibilityRuleView>) -> (Seq<VisView>, Seq<WarningView>)
    decreases rules.len(),
{
    if rules.len() == 0 {
        (Seq::empty(), Seq::empty())
    } else {
        let (kept, warned) = compiled_visibility(rules.drop_last());
        let (o, w) = compiled_visibility_rule(rules.last());
        (
            match o {
                Some(v) => kept.push(v),
                None => kept,
            },
            warned + w,
        )
    }
}

/// An upsert entry as compiled, if it is kept, and the warnings met: an empty
/// skill id drops it before its audience is looked at.
pub open spec fn compiled_upsert_rule(r: SkillRuleView) -> (Option<UpsertView>, Seq<WarningView>) {
    if r.skill.id.len() == 0 {
        (None, seq![WarningView::EmptyUpsertId])
    } else {
        let (a, w) = compiled_audience(r.audience_type, r.audience_value);
        match a {
            Some(aud) => (Some(UpsertView { audience: aud, skill: r.skill }), w),
            None => (None, w),
        }
    }
}

/// The kept upsert entries, in order, and all warnings met, in order.
pub open spec fn compiled_upserts(rules: Seq<SkillRuleView>) -> (Seq<UpsertView>, Seq<WarningView>)
    decreases rules.len(),
{
    if rules.len() == 0 {
        (Seq::empty(), Seq::empty())
    } else {
        let (kept, warned) = compiled_upserts(rules.drop_last());
        let (o, w) = compiled_upsert_rule(rules.last());
        (
            match o {
                Some(u) => kept.push(u),
                None => kept,
            },
            warned + w,
        )
    }
}

proof fn lemma_compiled_visibility_well_formed(rules: Seq<VisibilityRuleView>)
    ensures
        forall|k: int|
            0 <= k < compiled_visibility(rules).0.len() ==> audience_well_formed(
                (#[trigger] compiled_visibility(rules).0[k]).audience,
            ) && target_well_formed(compiled_visibility(rules).0[k].target),
    decreases rules.len(),
{
    if rules.len() > 0 {
        lemma_compiled_visibility_well_formed(rules.drop_last());
    }
}

proof fn lemma_compiled_upserts_well_formed(rules: Seq<SkillRuleView>)
    ensures
        forall|k: int|
            0 <= k < compiled_upserts(rules).0.len() ==> audience_well_formed(
                (#[trigger] compiled_upserts(rules).0[k]).audience,
            ) && compiled_upserts(rules).0[k].skill.id.len() > 0,
    decreases rules.len(),
{
    if rules.len() > 0 {
        lemma_compiled_upserts_well_formed(rules.drop_last());
    }
}

/// Compiled rules are well formed, whatever the configuration.
pub proof fn lemma_compiled_rules_well_formed(config: ConfigView)
    ensures
        rules_well_formed(compiled_rules(config).0),
{
    lemma_compiled_visibility_well_formed(
        match config.visibility {
            Some(v) => v,
            None => Seq::empty(),
        },
    );
    lemma_compiled_upserts_well_formed(
        match config.skills {
            Some(v) => v,
            None => Seq::empty(),
        },
    );
}

/// The rules that a configuration compiles to, and the warnings met: those of
/// the visibility rules first, then those of the upsert entries. An absent
/// list counts as empty, an absent `defaultAllow` as `true`.
pub open spec fn compiled_rules(config: ConfigView) -> (GovernorRulesView, Seq<WarningView>) {
    let vis = compiled_visibility(
        match config.visibility {
            Some(v) => v,
            None => Seq::empty(),
        },
    );
    let ups = compiled_upserts(
        match config.skills {
            Some(v) => v,
            None => Seq::empty(),
        },
    );
    (
        GovernorRulesView {
            default_allow: match config.default_allow {
                Some(b) => b,
                None => true,
            },
            visibility: vis.0,
            upserts: ups.0,
        },
        vis.1 + ups.1,
    )
}

fn as_opt_str(s: &Option<String>) -> (r: Option<&str>)
    ensures
        str_opt_view(r) == s.deep_view(),
{
    match s {
        Some(v) => Some(v.as_str()),
        None => None,
    }
}

fn compile_visibility_rule(r: &VisibilityRule, warn: &mut Vec<Warning>) -> (o: Option<CompiledVis>)
    ensures
        match o {
            Some(c) => compiled_visibility_rule(r@).0 == Some(c@),
            None => compiled_visibility_rule(r@).0 is None,
        },
        views(final(warn)@) == views(old(warn)@) + compiled_visibility_rule(r@).1,
{
    let effect_allow = if str_equals(r.effect.as_str(), EFFECT_ALLOW) {
        true
    } else if str_equals(r.effect.as_str(), EFFECT_DENY) {
        false
    } else {
        let w = Warning::UnknownEffect(r.effect.clone());
        proof {
            lemma_views_push(warn@, w);
        }
        warn.push(w);
        assert(views(old(warn)@).push(w@) =~= views(old(warn)@) + seq![w@]);
        return None;
    };
    let audience = compile_audience(
        as_opt_str(&r.audience_type),
        as_opt_str(&r.audience_value),
        warn,
    );
    match audience {
        Some(a) => {
            let target = compile_target(as_opt_str(&r.skill_id), as_opt_str(&r.skill_id_pattern));
            Some(CompiledVis { effect_allow, audience: a, target })
        },
        None => None,
    }
}

fn compile_upsert_rule(r: &SkillRule, warn: &mut Vec<Warning>) -> (o: Option<CompiledUpsert>)
    ensures
        match o {
            Some(c) => compiled_upsert_rule(r@).0 == Some(c@),
            None => compiled_upsert_rule(r@).0 is None,
        },
        views(final(warn)@) == views(old(warn)@) + compiled_upsert_rule(r@).1,
{
    if r.skill.id.as_str().is_empty() {
        let w = Warning::EmptyUpsertId;
        proof {
            lemma_views_push(warn@, w);
        }
        warn.push(w);
        assert(views(old(warn)@).push(w@) =~= views(old(warn)@) + seq![w@]);
        return None;
    }
    let audience = compile_audience(
        as_opt_str(&r.audience_type),
        as_opt_str(&r.audience_value),
        warn,
    );
    match audience {
        Some(a) => Some(CompiledUpsert { audience: a, skill: r.skill.duplicate() }),
        None => None,
    }
}

impl GovernorRules {
    /// Compile a configuration into rules, once, at configuration time. Each
    /// misconfigured rule is dropped and leaves a warning in `warn`, in the
    /// order of the configuration.
    pub fn compile(config: &Config, warn: &mut Vec<Warning>) -> (r: GovernorRules)
        ensures
            r@ == compiled_rules(config@).0,
            rules_well_formed(r@),
            views(final(warn)@) == views(old(warn)@) + compiled_rules(config@).1,
    {
        proof {
            lemma_compiled_rules_well_formed(config@);
        }
        let default_allow = match config.default_allow {
            Some(b) => b,
            None => true,
        };
        let ghost warn0 = views(warn@);
        let mut visibility: Vec<CompiledVis> = Vec::new();
        let ghost vis_rules: Seq<VisibilityRuleView> = match config@.visibility {
            Some(v) => v,
            None => Seq::empty(),
        };
        match &config.visibility {
            Some(rules) => {
                let mut i: usize = 0;
                assert(vis_rules.take(0) =~= Seq::<VisibilityRuleView>::empty());
                while i < rules.len()
                    invariant
                        0 <= i <= rules@.len(),
                        vis_rules == views(rules@),
                        views(visibility@) == compiled_visibility(vis_rules.take(i as int)).0,
                        views(warn@) == warn0 + compiled_visibility(vis_rules.take(i as int)).1,
                    decreases rules@.len() - i,
                {
                    assert(vis_rules.take(i + 1).drop_last() =~= vis_rules.take(i as int));
                    assert(vis_rules.take(i + 1).last() == rules@[i as int]@);
                    let ghost before = views(warn@);
                    let o = compile_visibility_rule(&rules[i], warn);
                    match o {
                        Some(c) => {
                            proof {
                                lemma_views_push(visibility@, c);
                            }
                            visibility.push(c);
                        },
                        None => {},
                    }
                    assert(warn0 + compiled_visibility(vis_rules.take(i + 1)).1 =~= before
                        + compiled_visibility_rule(rules@[i as int]@).1);
                    i = i + 1;
                }
                assert(vis_rules.take(rules@.len() as int) =~= vis_rules);
            },
            None => {
                assert(views(visibility@) =~= Seq::<VisView>::empty());
                assert(warn0 + Seq::empty() =~= warn0);
            },
        }
        let ghost warn1 = views(warn@);
        let mut upserts: Vec<CompiledUpsert> = Vec::new();
        let ghost up_rules: Seq<SkillRuleView> = match config@.skills {
            Some(v) => v,
            None => Seq::empty(),
        };
        match &config.skills {
            Some(rules) => {
                let mut i: usize = 0;
                assert(up_rules.take(0) =~= Seq::<SkillRuleView>::empty());
                while i < rules.len()
                    invariant
                        0 <= i <= rules@.len(),
                        up_rules == views(rules@),
                        views(upserts@) == compiled_upserts(up_rules.take(i as int)).0,
                        views(warn@) == warn1 + compiled_upserts(up_rules.take(i as int)).1,
                    decreases rules@.len() - i,
                {
                    assert(up_rules.take(i + 1).drop_last() =~= up_rules.take(i as int));
                    assert(up_rules.take(i + 1).last() == rules@[i as int]@);
                    let ghost before = views(warn@);
                    let o = compile_upsert_rule(&rules[i], warn);
                    match o {
                        Some(c) => {
                            proof {
                                lemma_views_push(upserts@, c);
                            }
                            upserts.push(c);
                        },
                        None => {},
                    }
                    assert(warn1 + compiled_upserts(up_rules.take(i + 1)).1 =~= before
                        + compiled_upsert_rule(rules@[i as int]@).1);
                    i = i + 1;
                }
                assert(up_rules.take(rules@.len() as int) =~= up_rules);
            },
            None => {
                assert(views(upserts@) =~= Seq::<UpsertView>::empty());
                assert(warn1 + Seq::empty() =~= warn1);
            },
        }
        let r = GovernorRules { default_allow, visibility, upserts };
        assert(views(warn@) =~= warn0 + (compiled_visibility(vis_rules).1 + compiled_upserts(
            up_rules,
        ).1));
        r
    }
}

/// Whether visibility rule `r` applies to the skill with id `sid`.
pub open spec fn rule_applies(r: VisView, surface: Surface, id: IdentityView, sid: Seq<char>) -> bool {
    audience_admits(r.audience, surface, id) && target_admits(r.target, sid)
}

/// The verdict of the first rule of `rules` that applies to `sid`, or
/// `default_allow` when none does.
pub open spec fn first_match_verdict(
    rules: Seq<VisView>,
    surface: Surface,
    id: IdentityView,
    sid: Seq<char>,
    default_allow: bool,
) -> bool
    decreases rules.len(),
{
    if rules.len() == 0 {
        default_allow
    } else if rule_applies(rules[0], surface, id, sid) {
        rules[0].effect_allow
    } else {
        first_match_verdict(rules.drop_first(), surface, id, sid, default_allow)
    }
}

/// Whether the visibility gate keeps the skill with id `sid`.
pub open spec fn visible(rules: GovernorRulesView, surface: Surface, id: IdentityView, sid: Seq<char>) -> bool {
    first_match_verdict(rules.visibility, surface, id, sid, rules.default_allow)
}

/// The skills that the visibility gate keeps, in their order.
pub open spec fn gated(
    rules: GovernorRulesView,
    skills: Seq<SkillView>,
    surface: Surface,
    id: IdentityView,
) -> Seq<SkillView>
    decreases skills.len(),
{
    if skills.len() == 0 {
        Seq::empty()
    } else {
        let rest = gated(rules, skills.drop_last(), surface, id);
        if visible(rules, surface, id, skills.last().id) {
            rest.push(skills.last())
        } else {
            rest
        }
    }
}

/// The ids of the skills that the visibility gate removes, in their order.
pub open spec fn denied_ids(
    rules: GovernorRulesView,
    skills: Seq<SkillView>,
    surface: Surface,
    id: IdentityView,
) -> Seq<Seq<char>>
    decreases skills.len(),
{
    if skills.len() == 0 {
        Seq::empty()
    } else {
        let rest = denied_ids(rules, skills.drop_last(), surface, id);
        if visible(rules, surface, id, skills.last().id) {
            rest
        } else {
            rest.push(skills.last().id)
        }
    }
}

/// Index of the first skill with id `sid`, if any.
pub open spec fn find_by_id(skills: Seq<SkillView>, sid: Seq<char>) -> Option<int>
    decreases skills.len(),
{
    if skills.len() == 0 {
        None
    } else if skills[0].id == sid {
        Some(0)
    } else {
        match find_by_id(skills.drop_first(), sid) {
            Some(k) => Some(k + 1),
            None => None,
        }
    }
}

/// `find_by_id` finds the least index with the id, or reports that none has it.
pub proof fn lemma_find_by_id(skills: Seq<SkillView>, sid: Seq<char>)
    ensures
        match find_by_id(skills, sid) {
            Some(k) => 0 <= k < skills.len() && skills[k].id == sid && forall|j: int|
                0 <= j < k ==> skills[j].id != sid,
            None => forall|j: int| 0 <= j < skills.len() ==> skills[j].id != sid,
        },
    decreases skills.len(),
{
    if skills.len() > 0 && skills[0].id != sid {
        lemma_find_by_id(skills.drop_first(), sid);
        assert forall|j: int| 1 <= j < skills.len() implies skills[j].id == skills.drop_first()[j
            - 1].id by {}
    }
}

/// The least index with the id is what `find_by_id` reports.
proof fn lemma_find_by_id_at(skills: Seq<SkillView>, sid: Seq<char>, k: int)
    requires
        0 <= k < skills.len(),
        skills[k].id == sid,
        forall|j: int| 0 <= j < k ==> skills[j].id != sid,
    ensures
        find_by_id(skills, sid) == Some(k),
{
    lemma_find_by_id(skills, sid);
}

/// A skill rewritten by an upsert payload: each field the payload provides
/// replaces the skill's own (arrays wholesale); the id and the other members
/// of the skill stay.
pub open spec fn rewritten(dst: SkillView, src: SkillPayloadView) -> SkillView {
    SkillView {
        id: dst.id,
        name: if src.name is Some {
            src.name
        } else {
            dst.name
        },
        description: if src.description is Some {
            src.description
        } else {
            dst.description
        },
        tags: if src.tags is Some {
            src.tags
        } else {
            dst.tags
        },
        examples: if src.examples is Some {
            src.examples
        } else {
            dst.examples
        },
        input_modes: if src.input_modes is Some {
            src.input_modes
        } else {
            dst.input_modes
        },
        output_modes: if src.output_modes is Some {
            src.output_modes
        } else {
            dst.output_modes
        },
        extra: dst.extra,
    }
}

/// The skill that an upsert payload injects: its fields and no others.
pub open spec fn injected(p: SkillPayloadView) -> SkillView {
    SkillView {
        id: p.id,
        name: p.name,
        description: p.description,
        tags: p.tags,
        examples: p.examples,
        input_modes: p.input_modes,
        output_modes: p.output_modes,
        extra: Seq::empty(),
    }
}

/// One upsert entry applied to the current skills and warnings: skipped when
/// its audience does not bind; else it rewrites the first skill with its id;
/// else it is appended when it has both a name and a description (with a
/// warning when that id was denied), or skipped with a warning.
pub open spec fn upsert_step(
    state: (Seq<SkillView>, Seq<WarningView>),
    u: UpsertView,
    surface: Surface,
    id: IdentityView,
    denied: Seq<Seq<char>>,
) -> (Seq<SkillView>, Seq<WarningView>) {
    let (cur, warned) = state;
    if !audience_admits(u.audience, surface, id) {
        state
    } else {
        match find_by_id(cur, u.skill.id) {
            Some(k) => (cur.update(k, rewritten(cur[k], u.skill)), warned),
            None => if u.skill.name is Some && u.skill.description is Some {
                (
                    cur.push(injected(u.skill)),
                    if denied.contains(u.skill.id) {
                        warned.push(WarningView::DeniedThenReinjected(u.skill.id))
                    } else {
                        warned
                    },
                )
            } else {
                (cur, warned.push(WarningView::InjectMissingNameOrDescription(u.skill.id)))
            },
        }
    }
}

/// The upsert entries applied in declaration order.
pub open spec fn upserted(
    start: (Seq<SkillView>, Seq<WarningView>),
    ups: Seq<UpsertView>,
    surface: Surface,
    id: IdentityView,
    denied: Seq<Seq<char>>,
) -> (Seq<SkillView>, Seq<WarningView>)
    decreases ups.len(),
{
    if ups.len() == 0 {
        start
    } else {
        upsert_step(upserted(start, ups.drop_last(), surface, id, denied), ups.last(), surface, id, denied)
    }
}

/// The governed skills and the warnings met: the visibility gate, then the
/// upsert entries on its survivors.
pub open spec fn governed(
    rules: GovernorRulesView,
    skills: Seq<SkillView>,
    surface: Surface,
    id: IdentityView,
) -> (Seq<SkillView>, Seq<WarningView>) {
    upserted(
        (gated(rules, skills, surface, id), Seq::empty()),
        rules.upserts,
        surface,
        id,
        denied_ids(rules, skills, surface, id),
    )
}

/// Overwrite each field of `dst` that `src` provides; arrays are replaced
/// wholesale, never merged.
pub fn apply_rewrite(dst: &mut Skill, src: &SkillPayload)
    ensures
        final(dst)@ == rewritten(old(dst)@, src@),
{
    if let Some(v) = &src.name {
        dst.name = Some(v.clone());
    }
    if let Some(v) = &src.description {
        dst.description = Some(v.clone());
    }
    if let Some(v) = &src.tags {
        dst.tags = Some(v.clone());
    }
    if let Some(v) = &src.examples {
        dst.examples = Some(v.clone());
    }
    if let Some(v) = &src.input_modes {
        dst.input_modes = Some(v.clone());
    }
    if let Some(v) = &src.output_modes {
        dst.output_modes = Some(v.clone());
    }
}

/// The skill that an upsert payload injects.
pub fn payload_to_skill(p: &SkillPayload) -> (r: Skill)
    ensures
        r@ == injected(p@),
{
    let r = Skill {
        id: p.id.clone(),
        name: p.name.clone(),
        description: p.description.clone(),
        tags: p.tags.clone(),
        examples: p.examples.clone(),
        input_modes: p.input_modes.clone(),
        output_modes: p.output_modes.clone(),
        extra: Vec::new(),
    };
    assert(r@.extra =~= Seq::<(Seq<char>, JsonView)>::empty());
    r
}

/// Whether `denied` holds `sid`.
fn holds_id(denied: &Vec<String>, sid: &String) -> (r: bool)
    ensures
        r == denied.deep_view().contains(sid@),
{
    let mut i: usize = 0;
    while i < denied.len()
        invariant
            0 <= i <= denied@.len(),
            forall|j: int| 0 <= j < i ==> denied@[j]@ != sid@,
        decreases denied@.len() - i,
    {
        if str_equals(denied[i].as_str(), sid.as_str()) {
            assert(denied.deep_view()[i as int] == sid@);
            return true;
        }
        i = i + 1;
    }
    assert(!denied.deep_view().contains(sid@));
    false
}

/// Index of the first skill with id `sid`.
fn position_of(skills: &Vec<Skill>, sid: &String) -> (r: Option<usize>)
    ensures
        match r {
            Some(k) => find_by_id(views(skills@), sid@) == Some(k as int),
            None => find_by_id(views(skills@), sid@) is None,
        },
{
    let ghost vs = views(skills@);
    let mut i: usize = 0;
    while i < skills.len()
        invariant
            0 <= i <= skills@.len(),
            vs == views(skills@),
            forall|j: int| 0 <= j < i ==> vs[j].id != sid@,
        decreases skills@.len() - i,
    {
        if str_equals(skills[i].id.as_str(), sid.as_str()) {
            proof {
                lemma_find_by_id_at(vs, sid@, i as int);
            }
            return Some(i);
        }
        i = i + 1;
    }
    proof {
        lemma_find_by_id(vs, sid@);
    }
    None
}

impl GovernorRules {
    /// The verdict of the visibility gate for the skill with id `sid`.
    fn verdict(&self, surface: Surface, id: &Identity, sid: &String) -> (r: bool)
        ensures
            r == visible(self@, surface, id@, sid@),
    {
        let ghost vis = self@.visibility;
        let mut i: usize = 0;
        assert(vis.skip(0) =~= vis);
        while i < self.visibility.len()
            invariant
                0 <= i <= self.visibility@.len(),
                vis == views(self.visibility@),
                visible(self@, surface, id@, sid@) == first_match_verdict(
                    vis.skip(i as int),
                    surface,
                    id@,
                    sid@,
                    self.default_allow,
                ),
            decreases self.visibility@.len() - i,
        {
            let r = &self.visibility[i];
            assert(vis.skip(i as int)[0] == r@);
            assert(vis.skip(i as int).drop_first() =~= vis.skip(i + 1));
            if r.audience.matches(surface, id) && r.target.matches(sid) {
                return r.effect_allow;
            }
            i = i + 1;
        }
        self.default_allow
    }

    /// Govern the skills of one card: keep each skill that the first
    /// matching visibility rule (or `defaultAllow`) allows, then apply the
    /// upsert entries in declaration order on the survivors. Warnings met are
    /// appended to `warn`.
    pub fn govern(&self, skills: Vec<Skill>, surface: Surface, id: &Identity, warn: &mut Vec<
        Warning,
    >) -> (r: Vec<Skill>)
        ensures
            views(r@) == governed(self@, views(skills@), surface, id@).0,
            views(final(warn)@) == views(old(warn)@) + governed(
                self@,
                views(skills@),
                surface,
                id@,
            ).1,
    {
        let ghost input = views(skills@);
        let mut denied: Vec<String> = Vec::new();
        let mut survivors: Vec<Skill> = Vec::new();
        let ghost n = skills@.len();
        // 1. Visibility gate: first match per skill.
        for s in it: skills.into_iter()
            invariant
                it.seq() == skills@,
                input == views(skills@),
                views(survivors@) == gated(self@, input.take(it.index() as int), surface, id@),
                denied.deep_view() == denied_ids(self@, input.take(it.index() as int), surface, id@),
        {
            let ghost k = it.index() as int;
            assert(input.take(k + 1).drop_last() =~= input.take(k));
            assert(input.take(k + 1).last() == s@);
            if self.verdict(surface, id, &s.id) {
                proof {
                    lemma_views_push(survivors@, s);
                }
                survivors.push(s);
            } else {
                let ghost d0 = denied.deep_view();
                denied.push(s.id.clone());
                assert(denied.deep_view() =~= d0.push(s@.id));
            }
        }
        assert(input.take(n as int) =~= input);
        let ghost gate_out = views(survivors@);
        let ghost deny = denied.deep_view();
        let ghost warn0 = views(warn@);
        // 2. Skill upsert: layered, in declaration order.
        let ghost ups = self@.upserts;
        let mut i: usize = 0;
        assert(ups.take(0) =~= Seq::<UpsertView>::empty());
        assert(warn0 + Seq::empty() =~= warn0);
        while i < self.upserts.len()
            invariant
                0 <= i <= self.upserts@.len(),
                ups == views(self.upserts@),
                deny == denied.deep_view(),
                ({
                    let st = upserted((gate_out, Seq::empty()), ups.take(i as int), surface, id@, deny);
                    &&& views(survivors@) == st.0
                    &&& views(warn@) == warn0 + st.1
                }),
            decreases self.upserts@.len() - i,
        {
            let u = &self.upserts[i];
            assert(ups.take(i + 1).drop_last() =~= ups.take(i as int));
            assert(ups.take(i + 1).last() == u@);
            let ghost before = views(warn@);
            let ghost cur = views(survivors@);
            if u.audience.matches(surface, id) {
                match position_of(&survivors, &u.skill.id) {
                    Some(k) => {
                        proof {
                            lemma_find_by_id(cur, u@.skill.id);
                        }
                        apply_rewrite(&mut survivors[k], &u.skill);
                        assert(views(survivors@) =~= cur.update(k as int, rewritten(cur[k as int], u@.skill)));
                    },
                    None => {
                        if u.skill.name.is_some() && u.skill.description.is_some() {
                            if holds_id(&denied, &u.skill.id) {
                                let w = Warning::DeniedThenReinjected(u.skill.id.clone());
                                proof {
                                    lemma_views_push(warn@, w);
                                }
                                warn.push(w);
                                assert(views(warn@) =~= warn0 + before.subrange(warn0.len() as int, before.len() as int).push(w@));
                            }
                            let injected_skill = payload_to_skill(&u.skill);
                            proof {
                                lemma_views_push(survivors@, injected_skill);
                            }
                            survivors.push(injected_skill);
                        } else {
                            let w = Warning::InjectMissingNameOrDescription(u.skill.id.clone());
                            proof {
                                lemma_views_push(warn@, w);
                            }
                            warn.push(w);
                            assert(views(warn@) =~= warn0 + before.subrange(warn0.len() as int, before.len() as int).push(w@));
                        }
                    },
                }
            }
            i = i + 1;
        }
        assert(ups.take(self.upserts@.len() as int) =~= ups);
        survivors
    }
}

} // verus!
