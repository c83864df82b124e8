//! Progress of a run, as it is reported stage by stage.

use crate::text::{chars_of, string_of};
use vstd::prelude::*;

verus! {

/// Whether a stage has begun, has ended well, or has ended the run badly.
#[derive(Clone, Copy, Debug, PartialEq, Eq, Structural)]
pub enum StageStatus {
    Loading,
    Success,
    Error,
}

impl StageStatus {
    /// The tag under which the status is reported.
    pub open spec fn tag(self) -> Seq<char> {
        match self {
            StageStatus::Loading => "loading"@,
            StageStatus::Success => "success"@,
            StageStatus::Error => "error"@,
        }
    }

    /// The tag under which the status is reported.
    pub fn as_string(&self) -> (out: String)
        ensures
            out@ == self.tag(),
    {
        match self {
            StageStatus::Loading => string_of(&chars_of("loading")),
            StageStatus::Success => string_of(&chars_of("success")),
            StageStatus::Error => string_of(&chars_of("error")),
        }
    }
}

/// A percentage, kept exact: `base + span * done / total`.
#[derive(Clone, Copy, Debug, PartialEq, Eq, Structural)]
pub struct Progress {
    pub base: u64,
    pub span: u64,
    pub done: u64,
    pub total: u64,
}

impl Progress {
    /// The percentage lies between 0 and 100.
    pub open spec fn in_range(self) -> bool {
        self.total > 0 && self.done <= self.total && self.base + self.span <= 100
    }

    /// The percentage times `total`.
    pub open spec fn scaled(self) -> int {
        self.base * self.total + self.span * self.done
    }

    /// `self` is no more than `later`.
    pub open spec fn at_most(self, later: Progress) -> bool {
        self.scaled() * later.total <= later.scaled() * self.total
    }

    /// The fixed percentage `percent`.
    pub fn fixed(percent: u64) -> (p: Progress)
        ensures
            p == (Progress { base: percent, span: 0, done: 0, total: 1 }),
    {
        Progress { base: percent, span: 0, done: 0, total: 1 }
    }
}

/// One stage of a run as it is shown to the user.
#[derive(Clone, Debug)]
pub struct ProgressLog {
    pub id: String,
    pub label: String,
    pub status: StageStatus,
    pub progress: Progress,
}

/// What a `ProgressLog` holds, as plain values.
pub struct StageView {
    pub id: Seq<char>,
    pub label: Seq<char>,
    pub status: StageStatus,
    pub progress: Progress,
}

impl View for ProgressLog {
    type V = StageView;

    open spec fn view(&self) -> StageView {
        StageView { id: self.id@, label: self.label@, status: self.status, progress: self.progress }
    }
}

/// The stage with the given id, label, status and progress.
pub(crate) fn stage_of(id: Vec<char>, label: Vec<char>, status: StageStatus, progress: Progress) -> (out:
    ProgressLog)
    ensures
        out@ == (StageView { id: id@, label: label@, status, progress }),
{
    ProgressLog { id: string_of(&id), label: string_of(&label), status, progress }
}

/// The views of a list of stages.
pub open spec fn stage_views(stages: Seq<ProgressLog>) -> Seq<StageView> {
    Seq::new(stages.len(), |i: int| stages[i]@)
}

/// A percentage in range is between 0 and 100.
pub proof fn lemma_in_range_bounds(p: Progress)
    requires
        p.in_range(),
    ensures
        0 <= p.scaled() <= 100 * p.total,
{
    assert(p.span * p.done <= p.span * p.total) by (nonlinear_arith)
        requires
            p.done <= p.total,
            p.span >= 0,
    ;
    assert(p.base * p.total + p.span * p.total == (p.base + p.span) * p.total)
        by (nonlinear_arith);
    assert((p.base + p.span) * p.total <= 100 * p.total) by (nonlinear_arith)
        requires
            p.base + p.span <= 100,
            p.total > 0,
    ;
    assert(p.base * p.total >= 0) by (nonlinear_arith)
        requires
            p.base >= 0,
            p.total >= 0,
    ;
    assert(p.span * p.done >= 0) by (nonlinear_arith)
        requires
            p.span >= 0,
            p.done >= 0,
    ;
}

/// Two percentages over the same base, span and total compare as the
/// amounts of work done.
pub proof fn lemma_more_done_is_more(p: Progress, q: Progress)
    requires
        p.base == q.base,
        p.span == q.span,
        p.total == q.total,
        p.done <= q.done,
    ensures
        p.at_most(q),
{
    assert(p.span * p.done <= p.span * q.done) by (nonlinear_arith)
        requires
            p.done <= q.done,
            p.span >= 0,
    ;
    assert(p.scaled() * q.total <= q.scaled() * p.total) by (nonlinear_arith)
        requires
            p.scaled() <= q.scaled(),
            q.total == p.total,
            q.total >= 0,
    ;
}

} // verus!
