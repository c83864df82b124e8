//! Fan-in: gathering the skills found with the agents into the store.
//!
//! The run decides; its caller touches the disk. The run goes through the
//! agents in turn, and through the directories of each. It asks for a
//! directory to be searched for skill roots, judges each root that was
//! found against the copy that the store may hold already, asks for the
//! root to be copied where it is to be taken, and keeps a record of which
//! agent had which skill. At the end it asks for the store to be listed,
//! and makes the list of skills out of the listing and the record.
//!
//! With every request the run hands over the stages that are to be shown.

use crate::clock::{now_iso, written};
use crate::error::{ErrorView, SyncError};
use crate::listing::{entry_views, hidden, is_hidden, DirEntry, EntryKind, EntryView};
use crate::models::{agent_views, skill_views, AgentInfo, AgentView, Skill, SkillView};
use crate::names::{safe_name, safe_skill_dir_name};
use crate::contributors::{contributors_of, with_contributor, Contributors};
use crate::order::in_order;
use crate::paths::{
    agent_roots, expanded, home_view, join_path, joined_path, manager_store_root, roots_of,
};
use crate::progress::{stage_of, stage_views, Progress, ProgressLog, StageStatus, StageView};
use crate::quality::{outranks, quality_of, should_replace_skill_dir, skill_md_quality, MarkerFile};
use crate::text::{chars_of, extend, is_blank, string_of, trim};
use vstd::prelude::*;

verus! {

/// The number that progress is counted against: the number of agents, but
/// at least one.
pub open spec fn work_total(agents: Seq<AgentView>) -> int {
    if agents.len() == 0 {
        1
    } else {
        agents.len() as int
    }
}

/// The stage shown while the store is being prepared (`done` false) and once
/// it is ready (`done` true).
pub open spec fn opening_stage(agents: Seq<AgentView>, done: bool) -> StageView {
    StageView {
        id: "init"@,
        label: "正在初始化中心库索引..."@,
        status: if done {
            StageStatus::Success
        } else {
            StageStatus::Loading
        },
        progress: if done {
            Progress { base: 15, span: 70, done: 0, total: work_total(agents) as u64 }
        } else {
            Progress { base: 0, span: 0, done: 0, total: work_total(agents) as u64 }
        },
    }
}

/// The stage shown when agent `i` is taken up (`done` false) and when its
/// directories have been gone through (`done` true).
pub open spec fn agent_stage(agents: Seq<AgentView>, i: int, done: bool) -> StageView {
    StageView {
        id: "extract-"@ + agents[i].id,
        label: "正在从 "@ + agents[i].name + " 目录提取技能资产..."@,
        status: if done {
            StageStatus::Success
        } else {
            StageStatus::Loading
        },
        progress: Progress {
            base: 15,
            span: 70,
            done: (if done {
                i + 1
            } else {
                i
            }) as u64,
            total: work_total(agents) as u64,
        },
    }
}

/// The stage shown when the store is about to be listed (`done` false) and
/// when the result has been put together (`done` true).
pub open spec fn merging_stage(agents: Seq<AgentView>, done: bool) -> StageView {
    StageView {
        id: "merge"@,
        label: "正在进行资产去重与元数据合并..."@,
        status: if done {
            StageStatus::Success
        } else {
            StageStatus::Loading
        },
        progress: Progress {
            base: if done {
                100
            } else {
                90
            },
            span: 0,
            done: 0,
            total: work_total(agents) as u64,
        },
    }
}

/// The stage that ends a run that failed with `message`.
pub open spec fn failure_stage(message: Seq<char>) -> StageView {
    StageView {
        id: "error"@,
        label: "同步失败: "@ + message,
        status: StageStatus::Error,
        progress: Progress { base: 100, span: 0, done: 0, total: 1 },
    }
}

/// Every stage of a run without failure, in the order in which they are
/// reported: the two opening stages, two stages for each agent in turn, and
/// the two merging stages.
pub open spec fn full_trace(agents: Seq<AgentView>) -> Seq<StageView> {
    Seq::new(
        (2 * agents.len() + 4) as nat,
        |k: int|
            if k < 2 {
                opening_stage(agents, k == 1)
            } else if k < 2 * agents.len() + 2 {
                agent_stage(agents, (k - 2) / 2, (k - 2) % 2 == 1)
            } else {
                merging_stage(agents, k == 2 * agents.len() + 3)
            },
    )
}

/// Whether a skill root called `name` is taken into the store, the store
/// holding a copy already or not: always where it holds none, else where
/// the candidate outranks the copy in the store.
pub open spec fn takes_over(
    in_store: bool,
    candidate: Option<MarkerFile>,
    existing: Option<MarkerFile>,
) -> bool {
    !in_store || outranks(quality_of(candidate), quality_of(existing))
}

/// The key under which the store keeps a skill root whose directory is
/// called `name`; a hidden or nameless directory gets none.
pub open spec fn key_for(name: Seq<char>) -> Option<Seq<char>> {
    if is_hidden(name) {
        None
    } else {
        Some(safe_name(name))
    }
}

/// The key under which the store keeps a skill root whose directory is
/// called `name`.
pub fn store_key(name: &str) -> (out: Option<String>)
    ensures
        out.deep_view() == key_for(name@),
{
    if hidden(name) {
        None
    } else {
        Some(safe_skill_dir_name(name))
    }
}

/// Whether a discovered skill root is copied over the store's entry of its
/// key. `in_store` says whether there is such an entry; the two marker
/// files are those of the discovered root and of the entry.
pub fn wants_copy(
    in_store: bool,
    candidate: Option<&MarkerFile>,
    existing: Option<&MarkerFile>,
) -> (r: bool)
    ensures
        r == takes_over(
            in_store,
            match candidate {
                Some(file) => Some(*file),
                None => None,
            },
            match existing {
                Some(file) => Some(*file),
                None => None,
            },
        ),
{
    if !in_store {
        return true;
    }
    should_replace_skill_dir(skill_md_quality(candidate), skill_md_quality(existing))
}

/// The skill that the result lists for the store directory `name`.
pub open spec fn skill_of(name: Seq<char>, found: Map<Seq<char>, Set<Seq<char>>>, now: Seq<char>) -> SkillView {
    SkillView {
        id: name,
        name,
        source_url: None,
        enabled_agents: in_order(contributors_of(found, name)),
        last_sync: Some(now),
        last_update: Some(now),
    }
}

/// The skills that the result lists for a listing of the store: one for
/// each directory that is not hidden, in the order of the listing.
pub open spec fn listed_skills(entries: Seq<EntryView>, found: Map<Seq<char>, Set<Seq<char>>>, now: Seq<char>) -> Seq<
    SkillView,
>
    decreases entries.len(),
{
    if entries.len() == 0 {
        Seq::empty()
    } else {
        let rest = listed_skills(entries.drop_last(), found, now);
        let entry = entries.last();
        if entry.kind == EntryKind::Dir && !is_hidden(entry.name) {
            rest.push(skill_of(entry.name, found, now))
        } else {
            rest
        }
    }
}

/// A skill root that a search found: where it lies, and the name of its
/// directory, which is empty for a path without a last name.
#[derive(Debug)]
pub struct SkillRoot {
    pub path: String,
    pub name: String,
}

/// What a `SkillRoot` holds, as plain values.
pub struct SkillRootView {
    pub path: Seq<char>,
    pub name: Seq<char>,
}

impl View for SkillRoot {
    type V = SkillRootView;

    open spec fn view(&self) -> SkillRootView {
        SkillRootView { path: self.path@, name: self.name@ }
    }
}

/// The views of a list of skill roots.
pub open spec fn root_views(roots: Seq<SkillRoot>) -> Seq<SkillRootView> {
    Seq::new(roots.len(), |i: int| roots[i]@)
}

/// What the caller is to do next.
#[derive(Debug)]
pub enum CollectRequest {
    /// Create the store directory, and what leads to it, unless it is
    /// there. Answer with `Prepared`.
    PrepareStore { root: String },
    /// Search the directory `root` for skill roots; a `root` that is no
    /// directory holds none. Answer with `Found`.
    Search { root: String },
    /// See whether `dest` exists, and read the marker files of the skill
    /// root `source` and of `dest`. Answer with `Compared`.
    Compare { source: String, dest: String },
    /// Replace `dest` by a copy of the skill root `source`. Answer with
    /// `Copied`.
    Copy { source: String, dest: String },
    /// Read the store directory. Answer with `Listed`.
    ListStore { root: String },
}

/// What a `CollectRequest` holds, as plain values.
pub enum CollectRequestView {
    PrepareStore { root: Seq<char> },
    Search { root: Seq<char> },
    Compare { source: Seq<char>, dest: Seq<char> },
    Copy { source: Seq<char>, dest: Seq<char> },
    ListStore { root: Seq<char> },
}

impl View for CollectRequest {
    type V = CollectRequestView;

    open spec fn view(&self) -> CollectRequestView {
        match self {
            CollectRequest::PrepareStore { root } => CollectRequestView::PrepareStore { root: root@ },
            CollectRequest::Search { root } => CollectRequestView::Search { root: root@ },
            CollectRequest::Compare { source, dest } => CollectRequestView::Compare {
                source: source@,
                dest: dest@,
            },
            CollectRequest::Copy { source, dest } => CollectRequestView::Copy {
                source: source@,
                dest: dest@,
            },
            CollectRequest::ListStore { root } => CollectRequestView::ListStore { root: root@ },
        }
    }
}

/// What came of the last request.
pub enum CollectEvent {
    Prepared,
    Found { roots: Vec<SkillRoot> },
    Compared { in_store: bool, candidate: Option<MarkerFile>, existing: Option<MarkerFile> },
    Copied,
    Listed { entries: Vec<DirEntry> },
    /// The work failed, with `error`.
    Failed { error: SyncError },
}

/// The event that a run waits for.
#[derive(Clone, Copy, Debug, PartialEq, Eq, Structural)]
pub enum Phase {
    Prepared,
    Found,
    Compared,
    Copied,
    Listed,
}

/// What a run stands on: the agents it goes through, the home directory,
/// the root directory of the store, and the record of which agents
/// contributed which store key so far.
pub struct Ground {
    pub agents: Seq<AgentView>,
    pub home: Option<Seq<char>>,
    pub store: Seq<char>,
    pub found: Map<Seq<char>, Set<Seq<char>>>,
}

/// The state of a run.
pub struct FanInView {
    pub ground: Ground,
    pub phase: Phase,
    /// The agent at work.
    pub agent: int,
    /// Which of the agent's directories is at work.
    pub root: int,
    /// The skill roots found in that directory.
    pub candidates: Seq<SkillRootView>,
    /// Which of them is being judged.
    pub next: int,
}

/// What a run makes of an event.
pub enum CollectTurnView {
    Ask { run: FanInView, stages: Seq<StageView>, request: CollectRequestView },
    Finished { stages: Seq<StageView>, outcome: Result<Seq<SkillView>, ErrorView> },
}

/// What the run does when it turns to directory `root` of agent `agent`,
/// with `stages` yet to be shown.
///
/// It asks for the directory to be searched. Where the agent has no such
/// directory, the agent is done with, and the run turns to the first
/// directory of the next agent. After the last agent it asks for the store
/// to be listed.
pub open spec fn seek(ground: Ground, agent: int, root: int, stages: Seq<StageView>) -> CollectTurnView
    decreases ground.agents.len() - agent,
{
    if agent < 0 || agent >= ground.agents.len() {
        CollectTurnView::Ask {
            run: FanInView {
                ground,
                phase: Phase::Listed,
                agent: ground.agents.len() as int,
                root: 0,
                candidates: Seq::empty(),
                next: 0,
            },
            stages: stages.push(merging_stage(ground.agents, false)),
            request: CollectRequestView::ListStore { root: ground.store },
        }
    } else {
        let roots = roots_of(ground.agents[agent], ground.home);
        if 0 <= root < roots.len() {
            CollectTurnView::Ask {
                run: FanInView {
                    ground,
                    phase: Phase::Found,
                    agent,
                    root,
                    candidates: Seq::empty(),
                    next: 0,
                },
                stages,
                request: CollectRequestView::Search { root: roots[root] },
            }
        } else {
            let closed = stages.push(agent_stage(ground.agents, agent, true));
            let opened = if agent + 1 < ground.agents.len() {
                closed.push(agent_stage(ground.agents, agent + 1, false))
            } else {
                closed
            };
            seek(ground, agent + 1, 0, opened)
        }
    }
}

/// What the run does when it turns to the skill root `next` of those found
/// in directory `root` of agent `agent`.
///
/// A root whose directory is hidden or nameless is passed over. For any
/// other the run asks for it to be compared with the entry of its key in
/// the store. When no root is left, the run turns to the agent's next
/// directory.
pub open spec fn weigh(
    ground: Ground,
    agent: int,
    root: int,
    candidates: Seq<SkillRootView>,
    next: int,
    stages: Seq<StageView>,
) -> CollectTurnView
    decreases candidates.len() - next,
{
    if next < 0 || next >= candidates.len() {
        seek(ground, agent, root + 1, stages)
    } else {
        match key_for(candidates[next].name) {
            None => weigh(ground, agent, root, candidates, next + 1, stages),
            Some(key) => CollectTurnView::Ask {
                run: FanInView { ground, phase: Phase::Compared, agent, root, candidates, next },
                stages,
                request: CollectRequestView::Compare {
                    source: candidates[next].path,
                    dest: joined_path(ground.store, key),
                },
            },
        }
    }
}

/// The store key of the skill root that is being judged.
pub open spec fn key_at_work(run: FanInView) -> Seq<char> {
    safe_name(run.candidates[run.next].name)
}

/// What `run` stands on once the agent at work is on record for the skill
/// root that is being judged.
pub open spec fn recorded(run: FanInView) -> Ground {
    Ground {
        agents: run.ground.agents,
        home: run.ground.home,
        store: run.ground.store,
        found: with_contributor(
            run.ground.found,
            key_at_work(run),
            run.ground.agents[run.agent].id,
        ),
    }
}

/// How a run ends that failed with `error`.
pub open spec fn failed_with(error: ErrorView, message: Seq<char>) -> CollectTurnView {
    CollectTurnView::Finished { stages: seq![failure_stage(message)], outcome: Err(error) }
}

/// The message of a run that was handed an event it did not wait for.
pub open spec fn out_of_turn() -> Seq<char> {
    "Event out of turn in fan-in"@
}

/// What the run `run` makes of `event`, at the time `now`.
///
/// A failure ends the run with that failure, and so does an event that the
/// run did not wait for; either way one stage tells of it. A skill root is
/// copied into the store where the store has no entry of its key, or one
/// that the root outranks; copied or not, the agent at work is put on
/// record for the key. The listing of the store ends the run: every
/// directory in it that is not hidden is a skill, with the agents on
/// record for it, stamped `now`.
pub open spec fn react(run: FanInView, event: CollectEvent, now: Seq<char>) -> CollectTurnView {
    let unexpected = failed_with(ErrorView::IoFailure { message: out_of_turn() }, out_of_turn());
    let agents = run.ground.agents;
    match event {
        CollectEvent::Failed { error } => failed_with(error@, error.message_text()),
        CollectEvent::Prepared => if run.phase == Phase::Prepared {
            let first = seq![opening_stage(agents, true)];
            seek(
                run.ground,
                0,
                0,
                if agents.len() > 0 {
                    first.push(agent_stage(agents, 0, false))
                } else {
                    first
                },
            )
        } else {
            unexpected
        },
        CollectEvent::Found { roots } => if run.phase == Phase::Found {
            weigh(run.ground, run.agent, run.root, root_views(roots@), 0, Seq::empty())
        } else {
            unexpected
        },
        CollectEvent::Compared { in_store, candidate, existing } => if run.phase
            == Phase::Compared {
            if takes_over(in_store, candidate, existing) {
                CollectTurnView::Ask {
                    run: FanInView {
                        ground: run.ground,
                        phase: Phase::Copied,
                        agent: run.agent,
                        root: run.root,
                        candidates: run.candidates,
                        next: run.next,
                    },
                    stages: Seq::empty(),
                    request: CollectRequestView::Copy {
                        source: run.candidates[run.next].path,
                        dest: joined_path(run.ground.store, key_at_work(run)),
                    },
                }
            } else {
                weigh(
                    recorded(run),
                    run.agent,
                    run.root,
                    run.candidates,
                    run.next + 1,
                    Seq::empty(),
                )
            }
        } else {
            unexpected
        },
        CollectEvent::Copied => if run.phase == Phase::Copied {
            weigh(recorded(run), run.agent, run.root, run.candidates, run.next + 1, Seq::empty())
        } else {
            unexpected
        },
        CollectEvent::Listed { entries } => if run.phase == Phase::Listed {
            CollectTurnView::Finished {
                stages: seq![merging_stage(agents, true)],
                outcome: Ok(listed_skills(entry_views(entries@), run.ground.found, now)),
            }
        } else {
            unexpected
        },
    }
}

/// How a run over `agents` begins, with the store at `storage_path`.
///
/// A blank path ends the run at once. Else the store is the path
/// expanded, and the run asks for it to be prepared.
pub open spec fn start(agents: Seq<AgentView>, storage_path: Seq<char>, home: Option<Seq<char>>) -> CollectTurnView {
    if is_blank(storage_path) {
        CollectTurnView::Finished {
            stages: seq![
                opening_stage(agents, false),
                failure_stage(SyncError::EmptyStoragePath.message_text()),
            ],
            outcome: Err(ErrorView::EmptyStoragePath),
        }
    } else {
        let store = expanded(trim(storage_path), home);
        CollectTurnView::Ask {
            run: FanInView {
                ground: Ground { agents, home, store, found: Map::empty() },
                phase: Phase::Prepared,
                agent: 0,
                root: 0,
                candidates: Seq::empty(),
                next: 0,
            },
            stages: seq![opening_stage(agents, false)],
            request: CollectRequestView::PrepareStore { root: store },
        }
    }
}

/// A fan-in in progress.
pub struct FanIn {
    agents: Vec<AgentInfo>,
    home: Option<String>,
    store: String,
    found: Contributors,
    phase: Phase,
    agent: usize,
    roots: Vec<String>,
    root: usize,
    candidates: Vec<SkillRoot>,
    next: usize,
}

/// What a run asks of its caller after an event was handed in.
pub enum CollectTurn {
    /// Show `stages`, do what `request` says, and hand what comes of it to
    /// `run`.
    Ask { run: FanIn, stages: Vec<ProgressLog>, request: CollectRequest },
    /// Show `stages`; the run is over, with `outcome`.
    Finished { stages: Vec<ProgressLog>, outcome: Result<Vec<Skill>, SyncError> },
}

spec fn ground_of(
    agents: Vec<AgentInfo>,
    home: Option<String>,
    store: String,
    found: Contributors,
) -> Ground {
    Ground { agents: agent_views(agents@), home: home.deep_view(), store: store@, found: found@ }
}

impl View for FanIn {
    type V = FanInView;

    closed spec fn view(&self) -> FanInView {
        FanInView {
            ground: ground_of(self.agents, self.home, self.store, self.found),
            phase: self.phase,
            agent: self.agent as int,
            root: self.root as int,
            candidates: root_views(self.candidates@),
            next: self.next as int,
        }
    }
}

impl View for CollectTurn {
    type V = CollectTurnView;

    open spec fn view(&self) -> CollectTurnView {
        match self {
            CollectTurn::Ask { run, stages, request } => CollectTurnView::Ask {
                run: run@,
                stages: stage_views(stages@),
                request: request@,
            },
            CollectTurn::Finished { stages, outcome } => CollectTurnView::Finished {
                stages: stage_views(stages@),
                outcome: match outcome {
                    Ok(skills) => Ok(skill_views(skills@)),
                    Err(e) => Err(e@),
                },
            },
        }
    }
}

fn total_for(agents: &Vec<AgentInfo>) -> (t: u64)
    ensures
        t == work_total(agent_views(agents@)),
{
    if agents.len() == 0 {
        1
    } else {
        agents.len() as u64
    }
}

fn failure(message: &str) -> (out: ProgressLog)
    ensures
        out@ == failure_stage(message@),
{
    let mut label = chars_of("同步失败: ");
    extend(&mut label, &chars_of(message));
    stage_of(chars_of("error"), label, StageStatus::Error, Progress::fixed(100))
}

fn opening(agents: &Vec<AgentInfo>, done: bool) -> (out: ProgressLog)
    ensures
        out@ == opening_stage(agent_views(agents@), done),
{
    stage_of(
        chars_of("init"),
        chars_of("正在初始化中心库索引..."),
        if done {
            StageStatus::Success
        } else {
            StageStatus::Loading
        },
        if done {
            Progress { base: 15, span: 70, done: 0, total: total_for(agents) }
        } else {
            Progress { base: 0, span: 0, done: 0, total: total_for(agents) }
        },
    )
}

fn merging(agents: &Vec<AgentInfo>, done: bool) -> (out: ProgressLog)
    ensures
        out@ == merging_stage(agent_views(agents@), done),
{
    stage_of(
        chars_of("merge"),
        chars_of("正在进行资产去重与元数据合并..."),
        if done {
            StageStatus::Success
        } else {
            StageStatus::Loading
        },
        Progress {
            base: if done {
                100
            } else {
                90
            },
            span: 0,
            done: 0,
            total: total_for(agents),
        },
    )
}

fn stage_for_agent(agents: &Vec<AgentInfo>, i: usize, done: bool) -> (out: ProgressLog)
    requires
        i < agents.len(),
    ensures
        out@ == agent_stage(agent_views(agents@), i as int, done),
{
    let agent = &agents[i];
    let mut id = chars_of("extract-");
    extend(&mut id, &chars_of(agent.id.as_str()));
    let mut label = chars_of("正在从 ");
    extend(&mut label, &chars_of(agent.name.as_str()));
    extend(&mut label, &chars_of(" 目录提取技能资产..."));
    let begun: u64 = i as u64;
    let finished: u64 = if done {
        begun + 1
    } else {
        begun
    };
    stage_of(
        id,
        label,
        if done {
            StageStatus::Success
        } else {
            StageStatus::Loading
        },
        Progress { base: 15, span: 70, done: finished, total: total_for(agents) },
    )
}

fn home_of(home: &Option<String>) -> (out: Option<&str>)
    ensures
        home_view(out) == home.deep_view(),
{
    match home {
        Some(h) => Some(h.as_str()),
        None => None,
    }
}

fn ended(error: SyncError) -> (turn: CollectTurn)
    ensures
        turn@ == failed_with(error@, error.message_text()),
{
    let mut stages: Vec<ProgressLog> = Vec::new();
    stages.push(failure(error.message().as_str()));
    assert(stage_views(stages@) =~= seq![failure_stage(error.message_text())]);
    CollectTurn::Finished { stages, outcome: Err(error) }
}

fn unexpected() -> (turn: CollectTurn)
    ensures
        turn@ == failed_with(ErrorView::IoFailure { message: out_of_turn() }, out_of_turn()),
{
    let error = SyncError::IoFailure { message: string_of(&chars_of("Event out of turn in fan-in")) };
    ended(error)
}

fn seek_on(
    agents: Vec<AgentInfo>,
    home: Option<String>,
    store: String,
    found: Contributors,
    agent: usize,
    roots: Vec<String>,
    root: usize,
    stages: Vec<ProgressLog>,
) -> (turn: CollectTurn)
    requires
        agent <= agents.len(),
        agent < agents.len() ==> roots.deep_view() == roots_of(
            agents@[agent as int]@,
            home.deep_view(),
        ),
    ensures
        turn@ == seek(
            ground_of(agents, home, store, found),
            agent as int,
            root as int,
            stage_views(stages@),
        ),
{
    let ghost ground = ground_of(agents, home, store, found);
    let mut at = agent;
    let mut dirs = roots;
    let mut dir = root;
    let mut shown = stages;
    loop
        invariant
            ground == ground_of(agents, home, store, found),
            at <= agents.len(),
            at < agents.len() ==> dirs.deep_view() == roots_of(
                agents@[at as int]@,
                home.deep_view(),
            ),
            seek(ground, agent as int, root as int, stage_views(stages@)) == seek(
                ground,
                at as int,
                dir as int,
                stage_views(shown@),
            ),
        decreases agents.len() - at,
    {
        let ghost before = stage_views(shown@);
        if at >= agents.len() {
            shown.push(merging(&agents, false));
            assert(stage_views(shown@) =~= before.push(merging_stage(ground.agents, false)));
            let request = CollectRequest::ListStore { root: store.clone() };
            let count = agents.len();
            let run = FanIn {
                agents,
                home,
                store,
                found,
                phase: Phase::Listed,
                agent: count,
                roots: Vec::new(),
                root: 0,
                candidates: Vec::new(),
                next: 0,
            };
            assert(run@.candidates =~= Seq::empty());
            return CollectTurn::Ask { run, stages: shown, request };
        }
        assert(ground.agents[at as int] == agents@[at as int]@);
        if dir < dirs.len() {
            let request = CollectRequest::Search { root: dirs[dir].clone() };
            assert(dirs.deep_view()[dir as int] == dirs@[dir as int]@);
            let run = FanIn {
                agents,
                home,
                store,
                found,
                phase: Phase::Found,
                agent: at,
                roots: dirs,
                root: dir,
                candidates: Vec::new(),
                next: 0,
            };
            assert(run@.candidates =~= Seq::empty());
            return CollectTurn::Ask { run, stages: shown, request };
        }
        shown.push(stage_for_agent(&agents, at, true));
        let ghost closed = before.push(agent_stage(ground.agents, at as int, true));
        assert(stage_views(shown@) =~= closed);
        at += 1;
        dir = 0;
        if at < agents.len() {
            shown.push(stage_for_agent(&agents, at, false));
            assert(stage_views(shown@) =~= closed.push(
                agent_stage(ground.agents, at as int, false),
            ));
            dirs = agent_roots(&agents[at], home_of(&home));
        } else {
            dirs = Vec::new();
        }
    }
}

fn weigh_on(
    agents: Vec<AgentInfo>,
    home: Option<String>,
    store: String,
    found: Contributors,
    agent: usize,
    roots: Vec<String>,
    root: usize,
    candidates: Vec<SkillRoot>,
    next: usize,
    stages: Vec<ProgressLog>,
) -> (turn: CollectTurn)
    requires
        agent < agents.len(),
        roots.deep_view() == roots_of(agents@[agent as int]@, home.deep_view()),
        root < roots.len(),
    ensures
        turn@ == weigh(
            ground_of(agents, home, store, found),
            agent as int,
            root as int,
            root_views(candidates@),
            next as int,
            stage_views(stages@),
        ),
{
    let ghost ground = ground_of(agents, home, store, found);
    let ghost all = root_views(candidates@);
    let ghost shown = stage_views(stages@);
    let mut k = next;
    while k < candidates.len()
        invariant
            all == root_views(candidates@),
            ground == ground_of(agents, home, store, found),
            shown == stage_views(stages@),
            agent < agents.len(),
            roots.deep_view() == roots_of(agents@[agent as int]@, home.deep_view()),
            root < roots.len(),
            weigh(ground, agent as int, root as int, all, k as int, shown) == weigh(
                ground,
                agent as int,
                root as int,
                all,
                next as int,
                shown,
            ),
        decreases candidates.len() - k,
    {
        assert(all[k as int] == candidates@[k as int]@);
        match store_key(candidates[k].name.as_str()) {
            Some(key) => {
                let request = CollectRequest::Compare {
                    source: candidates[k].path.clone(),
                    dest: join_path(store.as_str(), key.as_str()),
                };
                let run = FanIn {
                    agents,
                    home,
                    store,
                    found,
                    phase: Phase::Compared,
                    agent,
                    roots,
                    root,
                    candidates,
                    next: k,
                };
                return CollectTurn::Ask { run, stages, request };
            },
            None => {
                k += 1;
            },
        }
    }
    seek_on(agents, home, store, found, agent, roots, root + 1, stages)
}

/// The skills that the store holds, by its listing `entries`: one for each
/// directory that is not hidden, with the agents that `found` holds for it,
/// stamped `now`.
pub fn listed(entries: &Vec<DirEntry>, found: &Contributors, now: &str) -> (out: Vec<Skill>)
    ensures
        skill_views(out@) == listed_skills(entry_views(entries@), found@, now@),
{
    let ghost listing = entry_views(entries@);
    let mut skills: Vec<Skill> = Vec::new();
    let mut i: usize = 0;
    assert(listing.take(0) =~= Seq::empty());
    assert(skill_views(skills@) =~= Seq::empty());
    while i < entries.len()
        invariant
            i <= entries.len(),
            listing == entry_views(entries@),
            skill_views(skills@) == listed_skills(listing.take(i as int), found@, now@),
        decreases entries.len() - i,
    {
        let entry = &entries[i];
        let ghost before = skill_views(skills@);
        proof {
            assert(listing.take(i + 1).drop_last() =~= listing.take(i as int));
            assert(listing.take(i + 1).last() == entry@);
        }
        if entry.kind == EntryKind::Dir && !hidden(entry.name.as_str()) {
            let skill = Skill {
                id: entry.name.clone(),
                name: entry.name.clone(),
                source_url: None,
                enabled_agents: found.agents_of(entry.name.as_str()),
                last_sync: Some(string_of(&chars_of(now))),
                last_update: Some(string_of(&chars_of(now))),
            };
            assert(skill@ == skill_of(entry@.name, found@, now@));
            skills.push(skill);
            assert(skill_views(skills@) =~= before.push(skill_of(entry@.name, found@, now@)));
        }
        i += 1;
    }
    assert(listing.take(entries.len() as int) =~= listing);
    skills
}

fn borrowed(file: &Option<MarkerFile>) -> (out: Option<&MarkerFile>)
    ensures
        match out {
            Some(f) => *file == Some(*f),
            None => *file is None,
        },
{
    match file {
        Some(f) => Some(f),
        None => None,
    }
}

impl FanIn {
    #[verifier::type_invariant]
    spec fn well_formed(self) -> bool {
        &&& (self.phase == Phase::Found || self.phase == Phase::Compared || self.phase
            == Phase::Copied) ==> self.agent < self.agents.len() && self.roots.deep_view()
            == roots_of(self.agents@[self.agent as int]@, self.home.deep_view()) && self.root
            < self.roots.len()
        &&& (self.phase == Phase::Compared || self.phase == Phase::Copied) ==> self.next
            < self.candidates.len() && !is_hidden(self.candidates@[self.next as int]@.name)
    }

    /// Starts a run over `agents`, with the store at `storage_path` and the
    /// home directory `home`. The caller shows the stages, does what the
    /// request says and hands what comes of it to `advance`.
    pub fn begin(agents: Vec<AgentInfo>, storage_path: &str, home: Option<&str>) -> (turn:
        CollectTurn)
        ensures
            turn@ == start(agent_views(agents@), storage_path@, home_view(home)),
    {
        let mut stages: Vec<ProgressLog> = Vec::new();
        stages.push(opening(&agents, false));
        match manager_store_root(storage_path, home) {
            Err(e) => {
                stages.push(failure(e.message().as_str()));
                assert(stage_views(stages@) =~= seq![
                    opening_stage(agent_views(agents@), false),
                    failure_stage(SyncError::EmptyStoragePath.message_text()),
                ]);
                CollectTurn::Finished { stages, outcome: Err(e) }
            },
            Ok(store) => {
                assert(stage_views(stages@) =~= seq![opening_stage(agent_views(agents@), false)]);
                let request = CollectRequest::PrepareStore { root: store.clone() };
                let run = FanIn {
                    agents,
                    home: match home {
                        Some(h) => Some(string_of(&chars_of(h))),
                        None => None,
                    },
                    store,
                    found: Contributors::new(),
                    phase: Phase::Prepared,
                    agent: 0,
                    roots: Vec::new(),
                    root: 0,
                    candidates: Vec::new(),
                    next: 0,
                };
                assert(run@.candidates =~= Seq::empty());
                CollectTurn::Ask { run, stages, request }
            },
        }
    }

    /// Takes what came of the last request and says what comes next. The
    /// time that the skills of the result are stamped with is the reading
    /// of the clock at the moment when the store has been listed, written
    /// as `timestamp` writes it.
    pub fn advance(self, event: CollectEvent) -> (turn: CollectTurn)
        ensures
            exists|secs: u64, nanos: u32|
                turn@ == react(self@, event, #[trigger] written(secs, nanos)),
    {
        proof {
            use_type_invariant(&self);
        }
        let ghost was = self@;
        let ghost any = written(0, 0);
        let FanIn { agents, home, store, found, phase, agent, roots, root, candidates, next } = self;
        match event {
            CollectEvent::Failed { error } => {
                let turn = ended(error);
                assert(turn@ == react(was, event, any));
                turn
            },
            CollectEvent::Prepared => {
                if phase != Phase::Prepared {
                    let turn = unexpected();
                    assert(turn@ == react(was, event, any));
                    return turn;
                }
                let mut stages: Vec<ProgressLog> = Vec::new();
                stages.push(opening(&agents, true));
                let ghost first = seq![opening_stage(was.ground.agents, true)];
                assert(stage_views(stages@) =~= first);
                let dirs = if agents.len() > 0 {
                    stages.push(stage_for_agent(&agents, 0, false));
                    assert(stage_views(stages@) =~= first.push(
                        agent_stage(was.ground.agents, 0, false),
                    ));
                    agent_roots(&agents[0], home_of(&home))
                } else {
                    Vec::new()
                };
                let turn = seek_on(agents, home, store, found, 0, dirs, 0, stages);
                assert(turn@ == react(was, event, any));
                turn
            },
            CollectEvent::Found { roots: found_roots } => {
                if phase != Phase::Found {
                    let turn = unexpected();
                    assert(turn@ == react(was, event, any));
                    return turn;
                }
                let stages: Vec<ProgressLog> = Vec::new();
                assert(stage_views(stages@) =~= Seq::empty());
                let turn = weigh_on(
                    agents,
                    home,
                    store,
                    found,
                    agent,
                    roots,
                    root,
                    found_roots,
                    0,
                    stages,
                );
                assert(turn@ == react(was, event, any));
                turn
            },
            CollectEvent::Compared { in_store, candidate, existing } => {
                if phase != Phase::Compared {
                    let turn = unexpected();
                    assert(turn@ == react(was, event, any));
                    return turn;
                }
                let stages: Vec<ProgressLog> = Vec::new();
                assert(stage_views(stages@) =~= Seq::empty());
                assert(was.candidates[next as int] == candidates@[next as int]@);
                let key = safe_skill_dir_name(candidates[next].name.as_str());
                let turn = if wants_copy(in_store, borrowed(&candidate), borrowed(&existing)) {
                    let request = CollectRequest::Copy {
                        source: candidates[next].path.clone(),
                        dest: join_path(store.as_str(), key.as_str()),
                    };
                    let run = FanIn {
                        agents,
                        home,
                        store,
                        found,
                        phase: Phase::Copied,
                        agent,
                        roots,
                        root,
                        candidates,
                        next,
                    };
                    CollectTurn::Ask { run, stages, request }
                } else {
                    let found = found.record(key, agents[agent].id.clone());
                    weigh_on(
                        agents,
                        home,
                        store,
                        found,
                        agent,
                        roots,
                        root,
                        candidates,
                        next + 1,
                        stages,
                    )
                };
                assert(turn@ == react(was, event, any));
                turn
            },
            CollectEvent::Copied => {
                if phase != Phase::Copied {
                    let turn = unexpected();
                    assert(turn@ == react(was, event, any));
                    return turn;
                }
                let stages: Vec<ProgressLog> = Vec::new();
                assert(stage_views(stages@) =~= Seq::empty());
                assert(was.candidates[next as int] == candidates@[next as int]@);
                let key = safe_skill_dir_name(candidates[next].name.as_str());
                let found = found.record(key, agents[agent].id.clone());
                let turn = weigh_on(
                    agents,
                    home,
                    store,
                    found,
                    agent,
                    roots,
                    root,
                    candidates,
                    next + 1,
                    stages,
                );
                assert(turn@ == react(was, event, any));
                turn
            },
            CollectEvent::Listed { entries } => {
                if phase != Phase::Listed {
                    let turn = unexpected();
                    assert(turn@ == react(was, event, any));
                    return turn;
                }
                let now = now_iso();
                let ghost (secs, nanos) = choose|secs: u64, nanos: u32|
                    now@ == written(secs, nanos);
                let skills = listed(&entries, &found, now.as_str());
                let mut stages: Vec<ProgressLog> = Vec::new();
                stages.push(merging(&agents, true));
                assert(stage_views(stages@) =~= seq![merging_stage(was.ground.agents, true)]);
                let turn = CollectTurn::Finished { stages, outcome: Ok(skills) };
                assert(turn@ == react(was, event, written(secs, nanos)));
                turn
            },
        }
    }
}

/// How many stages of the full trace have been handed over once the run
/// waits as `run` does.
pub open spec fn reported(run: FanInView) -> int {
    match run.phase {
        Phase::Prepared => 1,
        Phase::Listed => 2 * (run.ground.agents.len() as int) + 3,
        _ => 2 * run.agent + 3,
    }
}

/// Whether the agent at work is one of the agents, where an agent is at
/// work.
pub open spec fn in_step(run: FanInView) -> bool {
    run.phase == Phase::Prepared || run.phase == Phase::Listed || 0 <= run.agent
        < run.ground.agents.len()
}

proof fn lemma_seek_follows_the_trace(
    ground: Ground,
    agent: int,
    root: int,
    stages: Seq<StageView>,
    from: int,
)
    requires
        0 <= agent <= ground.agents.len(),
        0 <= from <= (if agent < ground.agents.len() {
            2 * agent + 3
        } else {
            2 * agent + 2
        }),
        stages == full_trace(ground.agents).subrange(
            from,
            if agent < ground.agents.len() {
                2 * agent + 3
            } else {
                2 * agent + 2
            },
        ),
    ensures
        seek(ground, agent, root, stages) matches CollectTurnView::Ask { run, stages: shown, request }
            && run.ground == ground && in_step(run) && shown == full_trace(ground.agents).subrange(
            from,
            reported(run),
        ),
    decreases ground.agents.len() - agent,
{
    let n = ground.agents.len() as int;
    let trace = full_trace(ground.agents);
    if agent >= n {
        assert(stages.push(merging_stage(ground.agents, false)) =~= trace.subrange(from, 2 * n + 3));
    } else {
        let roots = roots_of(ground.agents[agent], ground.home);
        if !(0 <= root < roots.len()) {
            let closed = stages.push(agent_stage(ground.agents, agent, true));
            assert(trace[2 * agent + 3] == agent_stage(ground.agents, agent, true)) by {
                assert((2 * agent + 3 - 2) / 2 == agent);
                assert((2 * agent + 3 - 2) % 2 == 1);
            }
            assert(closed =~= trace.subrange(from, 2 * agent + 4));
            if agent + 1 < n {
                assert(trace[2 * agent + 4] == agent_stage(ground.agents, agent + 1, false)) by {
                    assert((2 * agent + 4 - 2) / 2 == agent + 1);
                    assert((2 * agent + 4 - 2) % 2 == 0);
                }
                assert(closed.push(agent_stage(ground.agents, agent + 1, false)) =~= trace.subrange(
                    from,
                    2 * agent + 5,
                ));
                lemma_seek_follows_the_trace(
                    ground,
                    agent + 1,
                    0,
                    closed.push(agent_stage(ground.agents, agent + 1, false)),
                    from,
                );
            } else {
                lemma_seek_follows_the_trace(ground, agent + 1, 0, closed, from);
            }
        }
    }
}

proof fn lemma_weigh_follows_the_trace(
    ground: Ground,
    agent: int,
    root: int,
    candidates: Seq<SkillRootView>,
    next: int,
)
    requires
        0 <= agent < ground.agents.len(),
    ensures
        weigh(ground, agent, root, candidates, next, Seq::empty()) matches CollectTurnView::Ask {
            run,
            stages: shown,
            request,
        } && run.ground == ground && in_step(run) && shown == full_trace(ground.agents).subrange(
            2 * agent + 3,
            reported(run),
        ),
    decreases candidates.len() - next,
{
    let trace = full_trace(ground.agents);
    assert(Seq::<StageView>::empty() =~= trace.subrange(2 * agent + 3, 2 * agent + 3));
    if next < 0 || next >= candidates.len() {
        lemma_seek_follows_the_trace(ground, agent, root + 1, Seq::empty(), 2 * agent + 3);
    } else if key_for(candidates[next].name) is None {
        lemma_weigh_follows_the_trace(ground, agent, root, candidates, next + 1);
    }
}

/// The stages of a run are those of the full trace, in their order: what
/// a turn hands over begins where the turn before it left off. A run that
/// ends well has handed over the whole trace; one that fails ends with the
/// one stage that tells of the failure.
pub proof fn lemma_stages_follow_the_trace(run: FanInView, event: CollectEvent, now: Seq<char>)
    requires
        in_step(run),
    ensures
        match react(run, event, now) {
            CollectTurnView::Ask { run: next, stages, request } => in_step(next) && next.ground.agents
                == run.ground.agents && stages == full_trace(run.ground.agents).subrange(
                reported(run),
                reported(next),
            ),
            CollectTurnView::Finished { stages, outcome: Ok(skills) } => stages == full_trace(
                run.ground.agents,
            ).subrange(reported(run), full_trace(run.ground.agents).len() as int),
            CollectTurnView::Finished { stages, outcome: Err(error) } => stages.len() == 1
                && stages[0].status == StageStatus::Error,
        },
{
    let agents = run.ground.agents;
    let trace = full_trace(agents);
    let n = agents.len() as int;
    match event {
        CollectEvent::Prepared => {
            if run.phase == Phase::Prepared {
                let first = seq![opening_stage(agents, true)];
                assert(first =~= trace.subrange(1, 2));
                if n > 0 {
                    assert(trace[2] == agent_stage(agents, 0, false));
                    assert(first.push(agent_stage(agents, 0, false)) =~= trace.subrange(1, 3));
                    lemma_seek_follows_the_trace(
                        run.ground,
                        0,
                        0,
                        first.push(agent_stage(agents, 0, false)),
                        1,
                    );
                } else {
                    lemma_seek_follows_the_trace(run.ground, 0, 0, first, 1);
                }
            }
        },
        CollectEvent::Found { roots } => {
            if run.phase == Phase::Found {
                lemma_weigh_follows_the_trace(
                    run.ground,
                    run.agent,
                    run.root,
                    root_views(roots@),
                    0,
                );
            }
        },
        CollectEvent::Compared { in_store, candidate, existing } => {
            if run.phase == Phase::Compared {
                assert(Seq::<StageView>::empty() =~= trace.subrange(
                    2 * run.agent + 3,
                    2 * run.agent + 3,
                ));
                lemma_weigh_follows_the_trace(
                    recorded(run),
                    run.agent,
                    run.root,
                    run.candidates,
                    run.next + 1,
                );
            }
        },
        CollectEvent::Copied => {
            if run.phase == Phase::Copied {
                lemma_weigh_follows_the_trace(
                    recorded(run),
                    run.agent,
                    run.root,
                    run.candidates,
                    run.next + 1,
                );
            }
        },
        CollectEvent::Listed { entries } => {
            if run.phase == Phase::Listed {
                assert(seq![merging_stage(agents, true)] =~= trace.subrange(2 * n + 3, 2 * n + 4));
            }
        },
        CollectEvent::Failed { error } => {},
    }
}

/// A run begins with the first stage of the full trace, or, where the
/// store path is blank, with that stage and the one that tells of the
/// failure.
pub proof fn lemma_start_opens_the_trace(
    agents: Seq<AgentView>,
    storage_path: Seq<char>,
    home: Option<Seq<char>>,
)
    ensures
        match start(agents, storage_path, home) {
            CollectTurnView::Ask { run, stages, request } => in_step(run) && run.ground.agents
                == agents && stages == full_trace(agents).subrange(0, reported(run)),
            CollectTurnView::Finished { stages, outcome } => outcome is Err && stages.len() == 2
                && stages[0] == full_trace(agents)[0] && stages[1].status == StageStatus::Error,
        },
{
    assert(seq![opening_stage(agents, false)] =~= full_trace(agents).subrange(0, 1));
}

/// Along the full trace of a run, every percentage lies between 0 and 100
/// and none is lower than one reported before it.
pub proof fn lemma_full_trace_never_falls(agents: Seq<AgentView>, earlier: int, later: int)
    requires
        0 <= earlier <= later < full_trace(agents).len(),
        agents.len() <= u64::MAX,
    ensures
        full_trace(agents)[earlier].progress.in_range(),
        full_trace(agents)[later].progress.in_range(),
        full_trace(agents)[earlier].progress.at_most(full_trace(agents)[later].progress),
{
    let p = full_trace(agents)[earlier].progress;
    let q = full_trace(agents)[later].progress;
    let t = work_total(agents);
    assert(p.total == t && q.total == t);
    assert(p.scaled() <= q.scaled()) by {
        assert(p.base * t + p.span * p.done <= q.base * t + q.span * q.done) by (nonlinear_arith)
            requires
                0 < t,
                ({
                    ||| (p.base == q.base && p.span == q.span && p.done <= q.done)
                    ||| (p.base == 0 && p.span == 0)
                    ||| (p.base == 15 && p.span == 70 && p.done <= t && q.base >= 90 && q.span
                        == 0)
                    ||| (p.base == 90 && p.span == 0 && q.base == 100 && q.span == 0)
                }),
                0 <= p.done,
                0 <= q.done,
                0 <= q.base,
                0 <= q.span,
        ;
    }
    assert(p.scaled() * t <= q.scaled() * t) by (nonlinear_arith)
        requires
            p.scaled() <= q.scaled(),
            0 < t,
    ;
}

/// The stage that reports a failure stands at 100 percent, which no stage
/// of the full trace exceeds: a run's percentages never fall, however it
/// ends.
pub proof fn lemma_failure_stage_is_last(agents: Seq<AgentView>, message: Seq<char>, k: int)
    requires
        0 <= k < full_trace(agents).len(),
        agents.len() <= u64::MAX,
    ensures
        failure_stage(message).progress.in_range(),
        full_trace(agents)[k].progress.at_most(failure_stage(message).progress),
{
    let p = full_trace(agents)[k].progress;
    crate::progress::lemma_in_range_bounds(p);
    assert(p.scaled() * 1 <= (100 * 1 + 0 * 0) * p.total);
}

} // verus!
