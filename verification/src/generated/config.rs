//! Configuration structures of the policy.
use vstd::prelude::*;

use crate::a2a::views;

verus! {

/// Top-level policy configuration; every property is optional.
#[derive(Clone, Debug, Default)]
pub struct Config {
    /// Authentication property that carries the caller's scope(s); `scope` when absent.
    pub scope_claim_key: Option<String>,
    /// Visibility of a skill that no visibility rule matches; allowed when absent.
    pub default_allow: Option<bool>,
    /// Ordered allow/deny rules; the first match per skill wins.
    pub visibility: Option<Vec<VisibilityRule>>,
    /// Skill upsert entries, keyed by `skill.id`.
    pub skills: Option<Vec<SkillRule>>,
}

/// One allow/deny rule of the visibility gate.
#[derive(Clone, Debug)]
pub struct VisibilityRule {
    pub effect: String,
    pub audience_type: Option<String>,
    pub audience_value: Option<String>,
    pub skill_id: Option<String>,
    pub skill_id_pattern: Option<String>,
}

/// One skill upsert entry: rewrite a skill with the same id, or inject one.
#[derive(Clone, Debug)]
pub struct SkillRule {
    pub audience_type: Option<String>,
    pub audience_value: Option<String>,
    pub skill: SkillPayload,
}

/// The skill fields that an upsert entry provides.
#[derive(Clone, Debug)]
pub struct SkillPayload {
    pub id: String,
    pub name: Option<String>,
    pub description: Option<String>,
    pub tags: Option<Vec<String>>,
    pub examples: Option<Vec<String>>,
    pub input_modes: Option<Vec<String>>,
    pub output_modes: Option<Vec<String>>,
}

/// The mathematical model of a [`Config`].
pub struct ConfigView {
    pub scope_claim_key: Option<Seq<char>>,
    pub default_allow: Option<bool>,
    pub visibility: Option<Seq<VisibilityRuleView>>,
    pub skills: Option<Seq<SkillRuleView>>,
}

/// The mathematical model of a [`VisibilityRule`].
pub struct VisibilityRuleView {
    pub effect: Seq<char>,
    pub audience_type: Option<Seq<char>>,
    pub audience_value: Option<Seq<char>>,
    pub skill_id: Option<Seq<char>>,
    pub skill_id_pattern: Option<Seq<char>>,
}

/// The mathematical model of a [`SkillRule`].
pub struct SkillRuleView {
    pub audience_type: Option<Seq<char>>,
    pub audience_value: Option<Seq<char>>,
    pub skill: SkillPayloadView,
}

/// The mathematical model of a [`SkillPayload`].
pub struct SkillPayloadView {
    pub id: Seq<char>,
    pub name: Option<Seq<char>>,
    pub description: Option<Seq<char>>,
    pub tags: Option<Seq<Seq<char>>>,
    pub examples: Option<Seq<Seq<char>>>,
    pub input_modes: Option<Seq<Seq<char>>>,
    pub output_modes: Option<Seq<Seq<char>>>,
}

impl View for VisibilityRule {
    type V = VisibilityRuleView;

    open spec fn view(&self) -> VisibilityRuleView {
        VisibilityRuleView {
            effect: self.effect@,
            audience_type: self.audience_type.deep_view(),
            audience_value: self.audience_value.deep_view(),
            skill_id: self.skill_id.deep_view(),
            skill_id_pattern: self.skill_id_pattern.deep_view(),
        }
    }
}

impl View for SkillPayload {
    type V = SkillPayloadView;

    open spec fn view(&self) -> SkillPayloadView {
        SkillPayloadView {
            id: self.id@,
            name: self.name.deep_view(),
            description: self.description.deep_view(),
            tags: self.tags.deep_view(),
            examples: self.examples.deep_view(),
            input_modes: self.input_modes.deep_view(),
            output_modes: self.output_modes.deep_view(),
        }
    }
}

impl View for SkillRule {
    type V = SkillRuleView;

    open spec fn view(&self) -> SkillRuleView {
        SkillRuleView {
            audience_type: self.audience_type.deep_view(),
            audience_value: self.audience_value.deep_view(),
            skill: self.skill@,
        }
    }
}

impl View for Config {
    type V = ConfigView;

    open spec fn view(&self) -> ConfigView {
        ConfigView {
            scope_claim_key: self.scope_claim_key.deep_view(),
            default_allow: self.default_allow,
            visibility: match &self.visibility {
                Some(v) => Some(views(v@)),
                None => None,
            },
            skills: match &self.skills {
                Some(v) => Some(views(v@)),
                None => None,
            },
        }
    }
}

impl SkillPayload {
    /// A copy of this payload, field for field.
    pub fn duplicate(&self) -> (r: SkillPayload)
        ensures
            r@ == self@,
    {
        SkillPayload {
            id: self.id.clone(),
            name: self.name.clone(),
            description: self.description.clone(),
            tags: self.tags.clone(),
            examples: self.examples.clone(),
            input_modes: self.input_modes.clone(),
            output_modes: self.output_modes.clone(),
        }
    }
}

} // verus!
