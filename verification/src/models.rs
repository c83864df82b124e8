//! The records that callers hand in and get back.

use vstd::prelude::*;

verus! {

/// A skill as callers know it.
#[derive(Clone, Debug)]
pub struct Skill {
    pub id: String,
    pub name: String,
    pub source_url: Option<String>,
    pub enabled_agents: Vec<String>,
    pub last_sync: Option<String>,
    pub last_update: Option<String>,
}

/// What a `Skill` holds, as plain values.
pub struct SkillView {
    pub id: Seq<char>,
    pub name: Seq<char>,
    pub source_url: Option<Seq<char>>,
    pub enabled_agents: Seq<Seq<char>>,
    pub last_sync: Option<Seq<char>>,
    pub last_update: Option<Seq<char>>,
}

impl View for Skill {
    type V = SkillView;

    open spec fn view(&self) -> SkillView {
        SkillView {
            id: self.id@,
            name: self.name@,
            source_url: self.source_url.deep_view(),
            enabled_agents: self.enabled_agents.deep_view(),
            last_sync: self.last_sync.deep_view(),
            last_update: self.last_update.deep_view(),
        }
    }
}

/// An agent: a consumer of skills with up to two directories of its own.
#[derive(Clone, Debug)]
pub struct AgentInfo {
    pub id: String,
    pub name: String,
    pub default_path: String,
    pub current_path: String,
    pub enabled: bool,
    pub icon: String,
}

/// What an `AgentInfo` holds, as plain values.
pub struct AgentView {
    pub id: Seq<char>,
    pub name: Seq<char>,
    pub default_path: Seq<char>,
    pub current_path: Seq<char>,
    pub enabled: bool,
    pub icon: Seq<char>,
}

impl View for AgentInfo {
    type V = AgentView;

    open spec fn view(&self) -> AgentView {
        AgentView {
            id: self.id@,
            name: self.name@,
            default_path: self.default_path@,
            current_path: self.current_path@,
            enabled: self.enabled,
            icon: self.icon@,
        }
    }
}

/// The views of a list of agents.
pub open spec fn agent_views(agents: Seq<AgentInfo>) -> Seq<AgentView> {
    Seq::new(agents.len(), |i: int| agents[i]@)
}

/// The views of a list of skills.
pub open spec fn skill_views(skills: Seq<Skill>) -> Seq<SkillView> {
    Seq::new(skills.len(), |i: int| skills[i]@)
}

} // verus!
