//! A run that distributes every skill of a list, and the stages it reports.
//!
//! The run owns the order of events. The caller does the work on disk: it
//! prepares the store, then distributes the skill it is told to, and after
//! each piece of work hands the outcome back. In return it gets the stages
//! to show, and either the skill to distribute next or the end of the run.
//! A failure ends the run at once, with one stage that tells of it.

use crate::error::SyncError;
use crate::models::{skill_views, Skill, SkillView};
use crate::progress::{stage_of, stage_views, Progress, ProgressLog, StageStatus, StageView};
use crate::text::{chars_of, extend};
use vstd::prelude::*;

verus! {

/// The number that progress is counted against: the number of skills, but
/// at least one.
pub open spec fn work_total(skills: Seq<SkillView>) -> int {
    if skills.len() == 0 {
        1
    } else {
        skills.len() as int
    }
}

/// The stage shown while the run is being prepared (`done` false) and once
/// it is ready to distribute (`done` true).
pub open spec fn opening_stage(skills: Seq<SkillView>, done: bool) -> StageView {
    StageView {
        id: "init"@,
        label: "正在准备批量分发任务..."@,
        status: if done {
            StageStatus::Success
        } else {
            StageStatus::Loading
        },
        progress: Progress { base: 0, span: 100, done: 0, total: work_total(skills) as u64 },
    }
}

/// The stage shown when skill `i` is taken up (`done` false) and when it has
/// been distributed (`done` true).
pub open spec fn skill_stage(skills: Seq<SkillView>, i: int, done: bool) -> StageView {
    StageView {
        id: "sync-"@ + skills[i].id,
        label: "正在分发技能: "@ + skills[i].name,
        status: if done {
            StageStatus::Success
        } else {
            StageStatus::Loading
        },
        progress: Progress {
            base: 0,
            span: 100,
            done: (if done {
                i + 1
            } else {
                i
            }) as u64,
            total: work_total(skills) as u64,
        },
    }
}

/// The stage that ends a run in which every skill was distributed.
pub open spec fn closing_stage(skills: Seq<SkillView>) -> StageView {
    StageView {
        id: "done"@,
        label: "分发完成"@,
        status: StageStatus::Success,
        progress: Progress {
            base: 0,
            span: 100,
            done: work_total(skills) as u64,
            total: work_total(skills) as u64,
        },
    }
}

/// The stage that ends a run that failed with `message`.
pub open spec fn failure_stage(message: Seq<char>) -> StageView {
    StageView {
        id: "error"@,
        label: "分发任务异常终止: "@ + message,
        status: StageStatus::Error,
        progress: Progress { base: 100, span: 0, done: 0, total: 1 },
    }
}

/// Every stage of a run without failure, in the order in which they are
/// reported: the two opening stages, two stages for each skill in turn, and
/// the closing stage.
pub open spec fn full_trace(skills: Seq<SkillView>) -> Seq<StageView> {
    Seq::new(
        (2 * skills.len() + 3) as nat,
        |k: int|
            if k < 2 {
                opening_stage(skills, k == 1)
            } else if k < 2 * skills.len() + 2 {
                skill_stage(skills, (k - 2) / 2, (k - 2) % 2 == 1)
            } else {
                closing_stage(skills)
            },
    )
}

/// How many stages of the full trace have been reported once the run is at
/// `position`: preparing the store (`None`), or at work on a skill.
pub open spec fn reported(position: Option<int>) -> int {
    match position {
        None => 1,
        Some(i) => 2 * i + 3,
    }
}

/// The skill that follows `position`, if there is one.
pub open spec fn following(skills: Seq<SkillView>, position: Option<int>) -> Option<int> {
    match position {
        None => if skills.len() > 0 {
            Some(0)
        } else {
            None
        },
        Some(i) => if i + 1 < skills.len() {
            Some(i + 1)
        } else {
            None
        },
    }
}

/// A run in progress.
pub struct DistributionRun {
    skills: Vec<Skill>,
    preparing: bool,
    cursor: usize,
}

/// What a run asks of its caller after an outcome was handed in.
pub enum Turn {
    /// Show `stages`, distribute the skill at index `skill`, and hand the
    /// outcome to `run`.
    Continue { run: DistributionRun, stages: Vec<ProgressLog>, skill: usize },
    /// Show `stages`; the run is over, with `outcome`.
    Finished { stages: Vec<ProgressLog>, outcome: Result<(), SyncError> },
}

impl DistributionRun {
    #[verifier::type_invariant]
    spec fn well_formed(self) -> bool {
        !self.preparing ==> self.cursor < self.skills.len()
    }

    /// The skills that the run distributes.
    pub closed spec fn skills(self) -> Seq<SkillView> {
        skill_views(self.skills@)
    }

    /// Where the run is: preparing the store (`None`), or at work on a skill.
    pub closed spec fn position(self) -> Option<int> {
        if self.preparing {
            None
        } else {
            Some(self.cursor as int)
        }
    }

    /// Starts a run over `skills`. The caller shows the stage, prepares the
    /// store and hands the outcome to `advance`.
    pub fn begin(skills: Vec<Skill>) -> (out: (DistributionRun, ProgressLog))
        ensures
            out.0.skills() == skill_views(skills@),
            out.0.position() is None,
            out.1@ == full_trace(skill_views(skills@))[0],
    {
        let total = if skills.len() == 0 {
            1
        } else {
            skills.len() as u64
        };
        let stage = stage_of(
            chars_of("init"),
            chars_of("正在准备批量分发任务..."),
            StageStatus::Loading,
            Progress { base: 0, span: 100, done: 0, total },
        );
        (DistributionRun { skills, preparing: true, cursor: 0 }, stage)
    }

    /// The skill at index `i`.
    pub fn skill(&self, i: usize) -> (out: Option<&Skill>)
        ensures
            (i < self.skills().len()) == (out is Some),
            out matches Some(s) ==> s@ == self.skills()[i as int],
    {
        if i < self.skills.len() {
            Some(&self.skills[i])
        } else {
            None
        }
    }

    fn total(&self) -> (t: u64)
        ensures
            t == work_total(self.skills()),
    {
        if self.skills.len() == 0 {
            1
        } else {
            self.skills.len() as u64
        }
    }

    fn stage_for_skill(&self, i: usize, done: bool) -> (out: ProgressLog)
        requires
            i < self.skills().len(),
        ensures
            out@ == skill_stage(self.skills(), i as int, done),
    {
        let skill = &self.skills[i];
        let mut id = chars_of("sync-");
        extend(&mut id, &chars_of(skill.id.as_str()));
        let mut label = chars_of("正在分发技能: ");
        extend(&mut label, &chars_of(skill.name.as_str()));
        let begun: u64 = i as u64;
        assert(i < self.skills.len());
        let finished: u64 = if done {
            begun + 1
        } else {
            begun
        };
        stage_of(
            id,
            label,
            if done {
                StageStatus::Success
            } else {
                StageStatus::Loading
            },
            Progress { base: 0, span: 100, done: finished, total: self.total() },
        )
    }

    /// Takes the outcome of the work last asked for and says what comes next.
    ///
    /// After a failure the run ends with the one stage that reports it. After
    /// a success the stages reported are the next ones of the full trace, up
    /// to the stage that opens the next skill, or to the end of the trace
    /// where no skill is left.
    pub fn advance(self, outcome: Result<(), SyncError>) -> (turn: Turn)
        ensures
            match outcome {
                Err(e) => turn matches Turn::Finished { stages, outcome: Err(same) } && same == e
                    && stage_views(stages@) == seq![failure_stage(e.message_text())],
                Ok(()) => match following(self.skills(), self.position()) {
                    Some(next) => turn matches Turn::Continue { run, stages, skill }
                        && run.skills() == self.skills() && run.position() == Some(next)
                        && skill == next && stage_views(stages@) == full_trace(
                        self.skills(),
                    ).subrange(reported(self.position()), reported(Some(next))),
                    None => turn matches Turn::Finished { stages, outcome: Ok(()) }
                        && stage_views(stages@) == full_trace(self.skills()).subrange(
                        reported(self.position()),
                        full_trace(self.skills()).len() as int,
                    ),
                },
            },
    {
        proof {
            use_type_invariant(&self);
        }
        let mut stages: Vec<ProgressLog> = Vec::new();
        match outcome {
            Err(e) => {
                let mut label = chars_of("分发任务异常终止: ");
                extend(&mut label, &chars_of(e.message().as_str()));
                stages.push(
                    stage_of(chars_of("error"), label, StageStatus::Error, Progress::fixed(100)),
                );
                assert(stage_views(stages@) =~= seq![failure_stage(e.message_text())]);
                Turn::Finished { stages, outcome: Err(e) }
            },
            Ok(()) => {
                let ghost all = self.skills();
                let ghost full = full_trace(all);
                let ghost from = reported(self.position());
                let next: usize = if self.preparing {
                    stages.push(
                        stage_of(
                            chars_of("init"),
                            chars_of("正在准备批量分发任务..."),
                            StageStatus::Success,
                            Progress { base: 0, span: 100, done: 0, total: self.total() },
                        ),
                    );
                    assert(stages@[0]@ == full[1]);
                    0
                } else {
                    stages.push(self.stage_for_skill(self.cursor, true));
                    assert(stages@[0]@ == full[from]) by {
                        assert((from - 2) / 2 == self.cursor as int);
                        assert((from - 2) % 2 == 1);
                    }
                    self.cursor + 1
                };
                if next < self.skills.len() {
                    stages.push(self.stage_for_skill(next, false));
                    assert(stages@[1]@ == full[from + 1]) by {
                        assert((from + 1 - 2) / 2 == next as int);
                        assert((from + 1 - 2) % 2 == 0);
                    }
                    assert(stage_views(stages@) =~= full.subrange(from, reported(Some(next as int))));
                    Turn::Continue {
                        run: DistributionRun { skills: self.skills, preparing: false, cursor: next },
                        stages,
                        skill: next,
                    }
                } else {
                    let total = self.total();
                    stages.push(
                        stage_of(
                            chars_of("done"),
                            chars_of("分发完成"),
                            StageStatus::Success,
                            Progress { base: 0, span: 100, done: total, total },
                        ),
                    );
                    assert(stages@[1]@ == full[from + 1]);
                    assert(stage_views(stages@) =~= full.subrange(from, full.len() as int));
                    Turn::Finished { stages, outcome: Ok(()) }
                }
            },
        }
    }
}

/// Along the full trace of a run, every percentage lies between 0 and 100
/// and none is lower than one reported before it.
pub proof fn lemma_full_trace_never_falls(skills: Seq<SkillView>, earlier: int, later: int)
    requires
        0 <= earlier <= later < full_trace(skills).len(),
        skills.len() <= u64::MAX,
    ensures
        full_trace(skills)[earlier].progress.in_range(),
        full_trace(skills)[later].progress.in_range(),
        full_trace(skills)[earlier].progress.at_most(full_trace(skills)[later].progress),
{
    let p = full_trace(skills)[earlier].progress;
    let q = full_trace(skills)[later].progress;
    assert(p.done <= q.done);
    crate::progress::lemma_more_done_is_more(p, q);
}

/// The stage that reports a failure stands at 100 percent, which no stage
/// of the full trace exceeds: a run's percentages never fall, however it
/// ends.
pub proof fn lemma_failure_stage_is_last(skills: Seq<SkillView>, message: Seq<char>, k: int)
    requires
        0 <= k < full_trace(skills).len(),
        skills.len() <= u64::MAX,
    ensures
        failure_stage(message).progress.in_range(),
        full_trace(skills)[k].progress.at_most(failure_stage(message).progress),
{
    let p = full_trace(skills)[k].progress;
    crate::progress::lemma_in_range_bounds(p);
    assert(p.scaled() * 1 <= (100 * 1 + 0 * 0) * p.total);
}

} // verus!
