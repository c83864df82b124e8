//! Fan-out: bringing one skill from the store to the agents it is enabled for.
//!
//! What has to be done on disk is worked out first, as a list of steps; the
//! caller then carries the steps out in order. Every directory of every
//! enabled agent is served: the skill is installed there where the agent is
//! among those selected, and removed where it is not. Agents that are
//! disabled are left alone.

use crate::error::SyncError;
use crate::models::{agent_views, AgentInfo, AgentView};
use crate::names::{safe_name, safe_skill_dir_name};
use crate::order::{holds_name, str_eq};
use crate::paths::{agent_roots, home_view, join_path, joined_path, roots_of};
use vstd::prelude::*;

verus! {

/// One thing to do on disk.
#[derive(Debug)]
pub enum SyncStep {
    /// Create `root` if need be and replace `dest` by a copy of the skill's
    /// directory in the store. With `add_metadata`, then see to it that the
    /// marker file of the copy opens with a metadata block.
    Install { root: String, dest: String, add_metadata: bool },
    /// Remove `dest` if it is there; a failure to do so is passed over.
    Remove { dest: String },
}

/// What a `SyncStep` holds, as plain values.
pub enum StepView {
    Install { root: Seq<char>, dest: Seq<char>, add_metadata: bool },
    Remove { dest: Seq<char> },
}

impl View for SyncStep {
    type V = StepView;

    open spec fn view(&self) -> StepView {
        match self {
            SyncStep::Install { root, dest, add_metadata } => StepView::Install {
                root: root@,
                dest: dest@,
                add_metadata: *add_metadata,
            },
            SyncStep::Remove { dest } => StepView::Remove { dest: dest@ },
        }
    }
}

impl StepView {
    /// The directory that the step writes or removes.
    pub open spec fn dest(self) -> Seq<char> {
        match self {
            StepView::Install { dest, .. } => dest,
            StepView::Remove { dest } => dest,
        }
    }
}

/// The views of a list of steps.
pub open spec fn step_views(steps: Seq<SyncStep>) -> Seq<StepView> {
    Seq::new(steps.len(), |i: int| steps[i]@)
}

/// The work of a fan-out: where the skill lies in the store, and what to do
/// with it.
#[derive(Debug)]
pub struct SyncPlan {
    pub source: String,
    pub steps: Vec<SyncStep>,
}

/// The id of the agent whose copies must open with a metadata block.
pub open spec fn reserved_agent() -> Seq<char> {
    "codex"@
}

/// The step for one directory `root` of an agent.
pub open spec fn step_for(root: Seq<char>, dir: Seq<char>, selected: bool, reserved: bool) -> StepView {
    if selected {
        StepView::Install { root, dest: joined_path(root, dir), add_metadata: reserved }
    } else {
        StepView::Remove { dest: joined_path(root, dir) }
    }
}

/// The steps for one agent: none if it is disabled, else one for each of its
/// directories.
pub open spec fn agent_steps(
    agent: AgentView,
    enabled: Seq<Seq<char>>,
    dir: Seq<char>,
    home: Option<Seq<char>>,
) -> Seq<StepView> {
    if agent.enabled {
        let roots = roots_of(agent, home);
        Seq::new(
            roots.len(),
            |k: int| step_for(roots[k], dir, enabled.contains(agent.id), agent.id == reserved_agent()),
        )
    } else {
        Seq::empty()
    }
}

/// The steps for a list of agents: those of each agent, in the order of the
/// list.
pub open spec fn steps_for(
    agents: Seq<AgentView>,
    enabled: Seq<Seq<char>>,
    dir: Seq<char>,
    home: Option<Seq<char>>,
) -> Seq<StepView>
    decreases agents.len(),
{
    if agents.len() == 0 {
        Seq::empty()
    } else {
        steps_for(agents.drop_last(), enabled, dir, home) + agent_steps(
            agents.last(),
            enabled,
            dir,
            home,
        )
    }
}

/// Where the skill `skill_name` lies in the store at `store_root`.
pub fn skill_store_dir(store_root: &str, skill_name: &str) -> (out: String)
    ensures
        out@ == joined_path(store_root@, safe_name(skill_name@)),
{
    join_path(store_root, safe_skill_dir_name(skill_name).as_str())
}

/// Plans the fan-out of the skill `skill_name` to `agents`, of which those
/// whose id is in `enabled` are to have it.
///
/// `in_store` says whether the skill's directory in the store exists. Without
/// it nothing is planned.
pub fn sync_one_skill(
    store_root: &str,
    skill_name: &str,
    enabled: &Vec<String>,
    agents: &Vec<AgentInfo>,
    home: Option<&str>,
    in_store: bool,
) -> (out: Result<SyncPlan, SyncError>)
    ensures
        in_store <==> out is Ok,
        out matches Err(e) ==> e matches SyncError::SkillNotInStore { name, path } && name@
            == skill_name@ && path@ == joined_path(store_root@, safe_name(skill_name@)),
        out matches Ok(plan) ==> plan.source@ == joined_path(store_root@, safe_name(skill_name@))
            && step_views(plan.steps@) == steps_for(
            agent_views(agents@),
            enabled.deep_view(),
            safe_name(skill_name@),
            home_view(home),
        ),
{
    let source = skill_store_dir(store_root, skill_name);
    if !in_store {
        return Err(
            SyncError::SkillNotInStore {
                name: crate::text::string_of(&crate::text::chars_of(skill_name)),
                path: source,
            },
        );
    }
    let dir = safe_skill_dir_name(skill_name);
    let ghost all = agent_views(agents@);
    let ghost want = enabled.deep_view();
    let mut steps: Vec<SyncStep> = Vec::new();
    let mut i: usize = 0;
    assert(all.take(0) =~= Seq::empty());
    assert(step_views(steps@) =~= Seq::empty());
    while i < agents.len()
        invariant
            i <= agents.len(),
            all == agent_views(agents@),
            want == enabled.deep_view(),
            dir@ == safe_name(skill_name@),
            step_views(steps@) == steps_for(all.take(i as int), want, dir@, home_view(home)),
        decreases agents.len() - i,
    {
        let agent = &agents[i];
        let ghost before = step_views(steps@);
        proof {
            assert(all.take(i + 1).drop_last() =~= all.take(i as int));
            assert(all.take(i + 1).last() == agent@);
        }
        if agent.enabled {
            let selected = holds_name(enabled, agent.id.as_str());
            let reserved = str_eq(agent.id.as_str(), "codex");
            let roots = agent_roots(agent, home);
            let ghost root_views = roots_of(agent@, home_view(home));
            let mut k: usize = 0;
            while k < roots.len()
                invariant
                    k <= roots.len(),
                    roots.deep_view() == root_views,
                    step_views(steps@) == before + agent_steps(
                        agent@,
                        want,
                        dir@,
                        home_view(home),
                    ).take(k as int),
                    agent.enabled,
                    selected == want.contains(agent@.id),
                    reserved == (agent@.id == reserved_agent()),
                    root_views == roots_of(agent@, home_view(home)),
                decreases roots.len() - k,
            {
                let ghost prior = step_views(steps@);
                let root = roots[k].clone();
                let dest = join_path(root.as_str(), dir.as_str());
                assert(roots.deep_view()[k as int] == root@);
                if selected {
                    steps.push(SyncStep::Install { root, dest, add_metadata: reserved });
                } else {
                    steps.push(SyncStep::Remove { dest });
                }
                proof {
                    let mine = agent_steps(agent@, want, dir@, home_view(home));
                    assert(step_views(steps@) =~= prior.push(mine[k as int]));
                    assert(mine.take(k + 1) =~= mine.take(k as int).push(mine[k as int]));
                    assert(before + mine.take(k + 1) =~= (before + mine.take(k as int)).push(
                        mine[k as int],
                    ));
                }
                k += 1;
            }
            proof {
                let mine = agent_steps(agent@, want, dir@, home_view(home));
                assert(mine.take(roots.len() as int) =~= mine);
            }
        } else {
            assert(before + agent_steps(agent@, want, dir@, home_view(home)) =~= before);
        }
        i += 1;
    }
    assert(all.take(agents.len() as int) =~= all);
    Ok(SyncPlan { source, steps })
}

/// The directories that hold a copy of the skill once `step` is done, given
/// those that held one before.
pub open spec fn after_step(present: Set<Seq<char>>, step: StepView) -> Set<Seq<char>> {
    match step {
        StepView::Install { dest, .. } => present.insert(dest),
        StepView::Remove { dest } => present.remove(dest),
    }
}

/// The directories that hold a copy of the skill once `steps` are done in
/// order.
pub open spec fn after_steps(present: Set<Seq<char>>, steps: Seq<StepView>) -> Set<Seq<char>>
    decreases steps.len(),
{
    if steps.len() == 0 {
        present
    } else {
        after_step(after_steps(present, steps.drop_last()), steps.last())
    }
}

proof fn lemma_untouched(present: Set<Seq<char>>, steps: Seq<StepView>, d: Seq<char>)
    requires
        forall|k: int| 0 <= k < steps.len() ==> (#[trigger] steps[k]).dest() != d,
    ensures
        after_steps(present, steps).contains(d) == present.contains(d),
    decreases steps.len(),
{
    if steps.len() > 0 {
        let head = steps.drop_last();
        assert forall|k: int| 0 <= k < head.len() implies (#[trigger] head[k]).dest() != d by {
            assert(head[k] == steps[k]);
        }
        lemma_untouched(present, head, d);
        assert(steps.last() == steps[steps.len() - 1]);
    }
}

proof fn lemma_installed(present: Set<Seq<char>>, steps: Seq<StepView>, d: Seq<char>, at: int)
    requires
        0 <= at < steps.len(),
        steps[at].dest() == d,
        forall|k: int|
            0 <= k < steps.len() && (#[trigger] steps[k]).dest() == d ==> steps[k] is Install,
    ensures
        after_steps(present, steps).contains(d),
    decreases steps.len(),
{
    let head = steps.drop_last();
    let last = steps.last();
    assert(last == steps[steps.len() - 1]);
    if last.dest() == d {
    } else {
        assert forall|k: int| 0 <= k < head.len() && (#[trigger] head[k]).dest() == d implies head[k] is Install by {
            assert(head[k] == steps[k]);
        }
        assert(head[at] == steps[at]);
        lemma_installed(present, head, d, at);
    }
}

proof fn lemma_removed(present: Set<Seq<char>>, steps: Seq<StepView>, d: Seq<char>, at: int)
    requires
        0 <= at < steps.len(),
        steps[at].dest() == d,
        forall|k: int|
            0 <= k < steps.len() && (#[trigger] steps[k]).dest() == d ==> steps[k] is Remove,
    ensures
        !after_steps(present, steps).contains(d),
    decreases steps.len(),
{
    let head = steps.drop_last();
    let last = steps.last();
    assert(last == steps[steps.len() - 1]);
    if last.dest() == d {
    } else {
        assert forall|k: int| 0 <= k < head.len() && (#[trigger] head[k]).dest() == d implies head[k] is Remove by {
            assert(head[k] == steps[k]);
        }
        assert(head[at] == steps[at]);
        lemma_removed(present, head, d, at);
    }
}

/// Whether `step` is the one planned for directory `m` of agent `j`.
pub open spec fn is_step_of(
    step: StepView,
    agents: Seq<AgentView>,
    enabled: Seq<Seq<char>>,
    dir: Seq<char>,
    home: Option<Seq<char>>,
    j: int,
    m: int,
) -> bool {
    &&& 0 <= j < agents.len()
    &&& agents[j].enabled
    &&& 0 <= m < roots_of(agents[j], home).len()
    &&& step == step_for(
        roots_of(agents[j], home)[m],
        dir,
        enabled.contains(agents[j].id),
        agents[j].id == reserved_agent(),
    )
}

proof fn lemma_step_origin(
    agents: Seq<AgentView>,
    enabled: Seq<Seq<char>>,
    dir: Seq<char>,
    home: Option<Seq<char>>,
    k: int,
) -> (origin: (int, int))
    requires
        0 <= k < steps_for(agents, enabled, dir, home).len(),
    ensures
        is_step_of(
            steps_for(agents, enabled, dir, home)[k],
            agents,
            enabled,
            dir,
            home,
            origin.0,
            origin.1,
        ),
    decreases agents.len(),
{
    let head = steps_for(agents.drop_last(), enabled, dir, home);
    if k < head.len() {
        let o = lemma_step_origin(agents.drop_last(), enabled, dir, home, k);
        assert(agents.drop_last()[o.0] == agents[o.0]);
        o
    } else {
        (agents.len() - 1, k - head.len())
    }
}

proof fn lemma_step_planned(
    agents: Seq<AgentView>,
    enabled: Seq<Seq<char>>,
    dir: Seq<char>,
    home: Option<Seq<char>>,
    j: int,
    m: int,
) -> (k: int)
    requires
        0 <= j < agents.len(),
        agents[j].enabled,
        0 <= m < roots_of(agents[j], home).len(),
    ensures
        0 <= k < steps_for(agents, enabled, dir, home).len(),
        is_step_of(steps_for(agents, enabled, dir, home)[k], agents, enabled, dir, home, j, m),
    decreases agents.len(),
{
    let head = steps_for(agents.drop_last(), enabled, dir, home);
    if j < agents.len() - 1 {
        assert(agents.drop_last()[j] == agents[j]);
        let k = lemma_step_planned(agents.drop_last(), enabled, dir, home, j, m);
        k
    } else {
        head.len() + m
    }
}

/// Once the steps planned for a skill are done, each directory of an enabled
/// agent holds the skill if the agent is among those selected, and does not
/// hold it otherwise, whatever was there before.
///
/// This is stated for plans in which no directory is served for both a
/// selected and an unselected agent: there the later of the two steps
/// decides.
pub proof fn lemma_fan_out_reaches_selected_agents_only(
    agents: Seq<AgentView>,
    enabled: Seq<Seq<char>>,
    dir: Seq<char>,
    home: Option<Seq<char>>,
    present: Set<Seq<char>>,
    j: int,
    m: int,
)
    requires
        0 <= j < agents.len(),
        agents[j].enabled,
        0 <= m < roots_of(agents[j], home).len(),
        forall|a: int, b: int, r: int, s: int|
            #![trigger roots_of(agents[a], home)[r], roots_of(agents[b], home)[s]]
            0 <= a < agents.len() && 0 <= b < agents.len() && agents[a].enabled
                && agents[b].enabled && enabled.contains(agents[a].id) && !enabled.contains(
                agents[b].id,
            ) && 0 <= r < roots_of(agents[a], home).len() && 0 <= s < roots_of(
                agents[b],
                home,
            ).len() ==> joined_path(roots_of(agents[a], home)[r], dir) != joined_path(
                roots_of(agents[b], home)[s],
                dir,
            ),
    ensures
        after_steps(present, steps_for(agents, enabled, dir, home)).contains(
            joined_path(roots_of(agents[j], home)[m], dir),
        ) == enabled.contains(agents[j].id),
{
    let steps = steps_for(agents, enabled, dir, home);
    let d = joined_path(roots_of(agents[j], home)[m], dir);
    let at = lemma_step_planned(agents, enabled, dir, home, j, m);
    if enabled.contains(agents[j].id) {
        assert forall|k: int| 0 <= k < steps.len() && (#[trigger] steps[k]).dest() == d implies steps[k] is Install by {
            let o = lemma_step_origin(agents, enabled, dir, home, k);
            if !enabled.contains(agents[o.0].id) {
                assert(joined_path(roots_of(agents[j], home)[m], dir) != joined_path(
                    roots_of(agents[o.0], home)[o.1],
                    dir,
                ));
            }
        }
        lemma_installed(present, steps, d, at);
    } else {
        assert forall|k: int| 0 <= k < steps.len() && (#[trigger] steps[k]).dest() == d implies steps[k] is Remove by {
            let o = lemma_step_origin(agents, enabled, dir, home, k);
            if enabled.contains(agents[o.0].id) {
                assert(joined_path(roots_of(agents[o.0], home)[o.1], dir) != joined_path(
                    roots_of(agents[j], home)[m],
                    dir,
                ));
            }
        }
        lemma_removed(present, steps, d, at);
    }
}

/// Only the copies of the reserved agent are given a metadata block: a
/// step that asks for one was planned for a directory of that agent. What
/// any other agent gets is the copy of the store's directory as it is.
pub proof fn lemma_only_the_reserved_agent_gets_metadata(
    agents: Seq<AgentView>,
    enabled: Seq<Seq<char>>,
    dir: Seq<char>,
    home: Option<Seq<char>>,
    k: int,
) -> (j: int)
    requires
        0 <= k < steps_for(agents, enabled, dir, home).len(),
        steps_for(agents, enabled, dir, home)[k] matches StepView::Install { add_metadata, .. }
            && add_metadata,
    ensures
        0 <= j < agents.len(),
        agents[j].enabled,
        agents[j].id == reserved_agent(),
        enabled.contains(agents[j].id),
{
    let origin = lemma_step_origin(agents, enabled, dir, home, k);
    origin.0
}

/// A directory that no step is planned for holds the skill after the steps
/// exactly if it held it before: the directories of disabled agents among
/// them.
pub proof fn lemma_fan_out_leaves_other_directories(
    agents: Seq<AgentView>,
    enabled: Seq<Seq<char>>,
    dir: Seq<char>,
    home: Option<Seq<char>>,
    present: Set<Seq<char>>,
    d: Seq<char>,
)
    requires
        forall|a: int, r: int|
            #![trigger roots_of(agents[a], home)[r]]
            0 <= a < agents.len() && agents[a].enabled && 0 <= r < roots_of(
                agents[a],
                home,
            ).len() ==> joined_path(roots_of(agents[a], home)[r], dir) != d,
    ensures
        after_steps(present, steps_for(agents, enabled, dir, home)).contains(d)
            == present.contains(d),
{
    let steps = steps_for(agents, enabled, dir, home);
    assert forall|k: int| 0 <= k < steps.len() implies (#[trigger] steps[k]).dest() != d by {
        let o = lemma_step_origin(agents, enabled, dir, home, k);
        assert(joined_path(roots_of(agents[o.0], home)[o.1], dir) != d);
    }
    lemma_untouched(present, steps, d);
}

/// The directories in which an agent keeps the skill directory `dir`,
/// whether the agent is enabled or not.
pub open spec fn agent_copies(agent: AgentView, dir: Seq<char>, home: Option<Seq<char>>) -> Seq<
    Seq<char>,
> {
    let roots = roots_of(agent, home);
    Seq::new(roots.len(), |k: int| joined_path(roots[k], dir))
}

/// The directories in which a list of agents keep the skill directory
/// `dir`.
pub open spec fn copies_with(agents: Seq<AgentView>, dir: Seq<char>, home: Option<Seq<char>>) -> Seq<
    Seq<char>,
>
    decreases agents.len(),
{
    if agents.len() == 0 {
        Seq::empty()
    } else {
        copies_with(agents.drop_last(), dir, home) + agent_copies(agents.last(), dir, home)
    }
}

/// Every directory that holds the skill `skill_name`: the one in the store
/// first, then those of the agents. To uninstall the skill is to remove
/// each of them that is there.
pub fn uninstall_targets(
    store_root: &str,
    skill_name: &str,
    agents: &Vec<AgentInfo>,
    home: Option<&str>,
) -> (out: Vec<String>)
    ensures
        out.deep_view() == seq![joined_path(store_root@, safe_name(skill_name@))] + copies_with(
            agent_views(agents@),
            safe_name(skill_name@),
            home_view(home),
        ),
{
    let dir = safe_skill_dir_name(skill_name);
    let ghost all = agent_views(agents@);
    let ghost first = seq![joined_path(store_root@, safe_name(skill_name@))];
    let mut out: Vec<String> = Vec::new();
    out.push(join_path(store_root, dir.as_str()));
    let mut i: usize = 0;
    assert(all.take(0) =~= Seq::empty());
    assert(out.deep_view() =~= first + Seq::<Seq<char>>::empty());
    while i < agents.len()
        invariant
            i <= agents.len(),
            all == agent_views(agents@),
            dir@ == safe_name(skill_name@),
            out.deep_view() == first + copies_with(all.take(i as int), dir@, home_view(home)),
        decreases agents.len() - i,
    {
        let agent = &agents[i];
        let ghost before = out.deep_view();
        proof {
            assert(all.take(i + 1).drop_last() =~= all.take(i as int));
            assert(all.take(i + 1).last() == agent@);
        }
        let roots = agent_roots(agent, home);
        let ghost mine = agent_copies(agent@, dir@, home_view(home));
        let mut k: usize = 0;
        assert(before + mine.take(0) =~= before);
        while k < roots.len()
            invariant
                k <= roots.len(),
                roots.deep_view() == roots_of(agent@, home_view(home)),
                mine == agent_copies(agent@, dir@, home_view(home)),
                out.deep_view() == before + mine.take(k as int),
            decreases roots.len() - k,
        {
            let ghost prior = out.deep_view();
            assert(roots.deep_view()[k as int] == roots@[k as int]@);
            out.push(join_path(roots[k].as_str(), dir.as_str()));
            proof {
                assert(out.deep_view() =~= prior.push(mine[k as int]));
                assert(before + mine.take(k + 1) =~= (before + mine.take(k as int)).push(
                    mine[k as int],
                ));
            }
            k += 1;
        }
        proof {
            assert(mine.take(roots.len() as int) =~= mine);
            let done = copies_with(all.take(i as int), dir@, home_view(home));
            assert(first + (done + mine) =~= (first + done) + mine);
        }
        i += 1;
    }
    assert(all.take(agents.len() as int) =~= all);
    out
}

} // verus!
