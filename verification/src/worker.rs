//! The per-chapter worker as a pure state machine.
//!
//! A driver chunks a chapter, then submits the outcome of one completion
//! attempt per step: a parsed section result, or a failure. The machine
//! decides what follows — merge and move on, retry, skip the section after
//! the attempt budget is spent, or abort on a fatal error. The driver
//! performs the network calls; every decision is made here.

use vstd::prelude::*;

use crate::errors::SummaryError;
use crate::parser::{merged_model, ChapterResult, ChapterResultModel, empty_model, empty_result};
use crate::text::str_views;

verus! {

/// Where a chapter's work stands.
#[derive(Clone, Copy, Debug, PartialEq, Eq, Structural)]
pub enum WorkerStatus {
    /// Some section still awaits a successful attempt.
    Working,
    /// Every section was consumed, by success or by skipping.
    Done,
    /// A fatal error ended the chapter's work.
    Aborted,
}

/// The outcome of one completion attempt for the current section.
#[derive(Clone, Debug)]
pub enum SectionOutcome {
    /// The reply arrived and parsed into a section result.
    Parsed(ChapterResult),
    /// The attempt failed with the given error.
    Failed(SummaryError),
}

/// A chapter's work in progress.
#[derive(Clone, Debug)]
pub struct ChapterWorker {
    /// The chapter's sections, in document order.
    pub sections: Vec<String>,
    /// The index of the section currently being attempted.
    pub next_section: usize,
    /// Failed attempts already spent on the current section.
    pub attempts_on_current: u32,
    /// Attempts granted to one section before it is skipped.
    pub max_attempts: u32,
    /// The merged results of the sections completed so far.
    pub accumulated: ChapterResult,
    /// Where the work stands.
    pub status: WorkerStatus,
    /// How many sections were skipped after spending their budget.
    pub sections_skipped: usize,
}

/// The mathematical content of a `ChapterWorker`.
pub ghost struct WorkerModel {
    pub sections: Seq<Seq<char>>,
    pub next_section: int,
    pub attempts_on_current: int,
    pub max_attempts: int,
    pub accumulated: ChapterResultModel,
    pub status: WorkerStatus,
    pub sections_skipped: int,
}

impl View for ChapterWorker {
    type V = WorkerModel;

    open spec fn view(&self) -> WorkerModel {
        WorkerModel {
            sections: str_views(self.sections@),
            next_section: self.next_section as int,
            attempts_on_current: self.attempts_on_current as int,
            max_attempts: self.max_attempts as int,
            accumulated: self.accumulated@,
            status: self.status,
            sections_skipped: self.sections_skipped as int,
        }
    }
}

/// The outcome of one attempt, at the model level.
pub ghost enum OutcomeModel {
    Parsed(ChapterResultModel),
    Failed(SummaryError),
}

/// The model of an outcome value.
pub open spec fn outcome_model(oc: SectionOutcome) -> OutcomeModel {
    match oc {
        SectionOutcome::Parsed(r) => OutcomeModel::Parsed(r@),
        SectionOutcome::Failed(e) => OutcomeModel::Failed(e),
    }
}

/// A worker state that the machine can be in.
pub open spec fn worker_wf(m: WorkerModel) -> bool {
    &&& m.max_attempts >= 1
    &&& 0 <= m.attempts_on_current < m.max_attempts
    &&& 0 <= m.next_section <= m.sections.len()
    &&& (m.status is Working ==> m.next_section < m.sections.len())
    &&& (m.status is Done ==> m.next_section == m.sections.len())
    &&& 0 <= m.sections_skipped <= m.next_section
}

/// What one outcome does to a working chapter.
///
/// A parsed reply merges into the accumulated result and moves to the next
/// section. A fatal error aborts the chapter. A retryable failure spends
/// one attempt; spending the last one skips the section, and the chapter
/// proceeds with its remaining sections — a deliberate best-effort policy,
/// so one bad section cannot lose the paid-for work of the others.
pub open spec fn worker_step(m: WorkerModel, oc: OutcomeModel) -> WorkerModel {
    match oc {
        OutcomeModel::Parsed(r) => WorkerModel {
            accumulated: merged_model(m.accumulated, r),
            next_section: m.next_section + 1,
            attempts_on_current: 0,
            status: if m.next_section + 1 == m.sections.len() {
                WorkerStatus::Done
            } else {
                WorkerStatus::Working
            },
            ..m
        },
        OutcomeModel::Failed(e) => {
            if e == SummaryError::Transient || e == SummaryError::MalformedResponse {
                if m.attempts_on_current + 1 == m.max_attempts {
                    WorkerModel {
                        next_section: m.next_section + 1,
                        attempts_on_current: 0,
                        sections_skipped: m.sections_skipped + 1,
                        status: if m.next_section + 1 == m.sections.len() {
                            WorkerStatus::Done
                        } else {
                            WorkerStatus::Working
                        },
                        ..m
                    }
                } else {
                    WorkerModel { attempts_on_current: m.attempts_on_current + 1, ..m }
                }
            } else {
                WorkerModel { status: WorkerStatus::Aborted, ..m }
            }
        },
    }
}

impl ChapterWorker {
    /// A worker for one chapter's sections, with a per-section attempt
    /// budget.
    pub fn new(sections: Vec<String>, max_attempts: u32) -> (r: Self)
        requires
            max_attempts >= 1,
        ensures
            worker_wf(r@),
            r@.sections == str_views(sections@),
            r@.next_section == 0,
            r@.attempts_on_current == 0,
            r@.max_attempts == max_attempts as int,
            r@.accumulated == empty_model(),
            r@.sections_skipped == 0,
            r@.status == (if sections@.len() == 0 {
                WorkerStatus::Done
            } else {
                WorkerStatus::Working
            }),
    {
        let status = if sections.len() == 0 {
            WorkerStatus::Done
        } else {
            WorkerStatus::Working
        };
        ChapterWorker {
            sections,
            next_section: 0,
            attempts_on_current: 0,
            max_attempts,
            accumulated: empty_result(),
            status,
            sections_skipped: 0,
        }
    }

    /// The text of the section currently being attempted.
    pub fn current_section(&self) -> (r: &String)
        requires
            self@.status is Working,
            worker_wf(self@),
        ensures
            r@ == self@.sections[self@.next_section],
    {
        &self.sections[self.next_section]
    }

    /// Applies the outcome of one attempt on the current section, as
    /// `worker_step` says.
    pub fn step(&mut self, outcome: SectionOutcome)
        requires
            worker_wf(old(self)@),
            old(self)@.status is Working,
        ensures
            final(self)@ == worker_step(old(self)@, outcome_model(outcome)),
            worker_wf(final(self)@),
    {
        let section_count = self.sections.len();
        match outcome {
            SectionOutcome::Parsed(r) => {
                self.accumulated.merge(&r);
                self.next_section = self.next_section + 1;
                self.attempts_on_current = 0;
                self.status = if self.next_section == self.sections.len() {
                    WorkerStatus::Done
                } else {
                    WorkerStatus::Working
                };
            },
            SectionOutcome::Failed(e) => {
                if e.is_section_retryable() {
                    if self.attempts_on_current + 1 == self.max_attempts {
                        self.next_section = self.next_section + 1;
                        self.attempts_on_current = 0;
                        self.sections_skipped = self.sections_skipped + 1;
                        self.status = if self.next_section == self.sections.len() {
                            WorkerStatus::Done
                        } else {
                            WorkerStatus::Working
                        };
                    } else {
                        self.attempts_on_current = self.attempts_on_current + 1;
                    }
                } else {
                    self.status = WorkerStatus::Aborted;
                }
            },
        }
    }
}

/// The machine after `k` consecutive transient failures.
pub open spec fn after_transient_failures(m: WorkerModel, k: nat) -> WorkerModel
    decreases k,
{
    if k == 0 {
        m
    } else {
        worker_step(
            after_transient_failures(m, (k - 1) as nat),
            OutcomeModel::Failed(SummaryError::Transient),
        )
    }
}

/// Short of the budget, each transient failure only counts an attempt.
proof fn lemma_transient_counts(m: WorkerModel, k: nat)
    requires
        worker_wf(m),
        m.status is Working,
        m.attempts_on_current == 0,
        k < m.max_attempts,
    ensures
        after_transient_failures(m, k) == (WorkerModel { attempts_on_current: k as int, ..m }),
    decreases k,
{
    if k == 0 {
        assert(after_transient_failures(m, 0) == m);
        assert((WorkerModel { attempts_on_current: 0, ..m }) == m);
    } else {
        lemma_transient_counts(m, (k - 1) as nat);
    }
}

/// Retry exhaustion: from a fresh section, a source of nothing but
/// transient failures is attempted exactly `max_attempts` times; then the
/// section is skipped — the accumulated result unchanged — and the chapter
/// moves on to its remaining sections (or is done when none remain). In
/// particular each of the first `max_attempts - 1` failures leaves the
/// machine working on the same section, so every one of the budgeted
/// attempts really happens.
pub proof fn lemma_retry_exhaustion(m: WorkerModel)
    requires
        worker_wf(m),
        m.status is Working,
        m.attempts_on_current == 0,
    ensures
        forall|k: nat| k < m.max_attempts ==> (#[trigger] after_transient_failures(m, k)).status
            is Working && after_transient_failures(m, k).next_section == m.next_section,
        after_transient_failures(m, m.max_attempts as nat) == (WorkerModel {
            next_section: m.next_section + 1,
            attempts_on_current: 0,
            sections_skipped: m.sections_skipped + 1,
            status: if m.next_section + 1 == m.sections.len() {
                WorkerStatus::Done
            } else {
                WorkerStatus::Working
            },
            ..m
        }),
{
    assert forall|k: nat| k < m.max_attempts implies (#[trigger] after_transient_failures(
        m,
        k,
    )).status is Working && after_transient_failures(m, k).next_section == m.next_section by {
        lemma_transient_counts(m, k);
    }
    lemma_transient_counts(m, (m.max_attempts - 1) as nat);
    assert(after_transient_failures(m, m.max_attempts as nat) == worker_step(
        after_transient_failures(m, (m.max_attempts - 1) as nat),
        OutcomeModel::Failed(SummaryError::Transient),
    ));
}

} // verus!
