use aibook::errors::SummaryError;
use aibook::parser::ChapterResult;
use aibook::worker::{ChapterWorker, SectionOutcome, WorkerStatus};

fn section_result(summary: &str) -> ChapterResult {
    ChapterResult {
        summary: summary.to_string(),
        keywords: vec![],
        glossary: vec![],
        references: vec![],
        additional_resources: vec![],
    }
}

#[test]
fn transient_failures_spend_exactly_the_attempt_budget_then_skip() {
    let sections = vec!["s1".to_string(), "s2".to_string()];
    let mut worker = ChapterWorker::new(sections, 3);
    let mut calls = 0;
    // The stub always fails with a transient error; one call per step.
    while worker.status == WorkerStatus::Working && worker.next_section == 0 {
        worker.step(SectionOutcome::Failed(SummaryError::Transient));
        calls += 1;
        assert!(calls <= 3);
    }
    assert_eq!(calls, 3);
    assert_eq!(worker.next_section, 1);
    assert_eq!(worker.sections_skipped, 1);
    assert_eq!(worker.status, WorkerStatus::Working);
    assert_eq!(worker.accumulated.summary, "");
    // The chapter still completes with the remaining section's content.
    worker.step(SectionOutcome::Parsed(section_result("S2")));
    assert_eq!(worker.status, WorkerStatus::Done);
    assert_eq!(worker.accumulated.summary, "S2");
}

#[test]
fn a_success_resets_the_attempt_count_and_moves_on() {
    let sections = vec!["s1".to_string(), "s2".to_string()];
    let mut worker = ChapterWorker::new(sections, 3);
    worker.step(SectionOutcome::Failed(SummaryError::MalformedResponse));
    assert_eq!(worker.attempts_on_current, 1);
    worker.step(SectionOutcome::Parsed(section_result("S1")));
    assert_eq!(worker.next_section, 1);
    assert_eq!(worker.attempts_on_current, 0);
    assert_eq!(worker.status, WorkerStatus::Working);
    worker.step(SectionOutcome::Parsed(section_result("S2")));
    assert_eq!(worker.status, WorkerStatus::Done);
    assert_eq!(worker.accumulated.summary, "S1\n\nS2");
    assert_eq!(worker.sections_skipped, 0);
}

#[test]
fn fatal_errors_abort_the_chapter() {
    let mut worker = ChapterWorker::new(vec!["s1".to_string()], 3);
    worker.step(SectionOutcome::Failed(SummaryError::Auth));
    assert_eq!(worker.status, WorkerStatus::Aborted);
    let mut other = ChapterWorker::new(vec!["s1".to_string()], 3);
    other.step(SectionOutcome::Failed(SummaryError::FatalParse));
    assert_eq!(other.status, WorkerStatus::Aborted);
}

#[test]
fn a_chapter_without_sections_is_done_at_once() {
    let worker = ChapterWorker::new(vec![], 3);
    assert_eq!(worker.status, WorkerStatus::Done);
}

#[test]
fn current_section_names_the_text_being_attempted() {
    let worker = ChapterWorker::new(vec!["alpha".to_string(), "beta".to_string()], 2);
    assert_eq!(worker.current_section().as_str(), "alpha");
}
