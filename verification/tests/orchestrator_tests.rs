use aibook::checkpoint::{decode_state, encode_state, ProcessingState};
use aibook::errors::SummaryError;
use aibook::orchestrator::{PipelineRun, RunPhase};
use aibook::parser::ChapterResult;
use aibook::summarizer::Summarizer;
use aibook::worker::{ChapterWorker, SectionOutcome, WorkerStatus};

fn chapter_result(summary: &str) -> ChapterResult {
    ChapterResult {
        summary: summary.to_string(),
        keywords: vec![],
        glossary: vec![],
        references: vec![],
        additional_resources: vec![],
    }
}

#[test]
fn resumed_run_processes_only_the_unfinished_chapter() {
    let mut state = ProcessingState::new();
    state.images_extracted = true;
    state.text_extracted = true;
    state.mark_chapter_done(0);
    state.mark_chapter_done(2);
    let mut run = PipelineRun::start(state, 3);
    assert_eq!(run.phase, RunPhase::AwaitingPlan);
    run.plan_received("## A\n## B\n## C").unwrap();
    assert_eq!(run.phase, RunPhase::ProcessingChapters);
    assert_eq!(run.pending_chapters(), vec![1]);
    run.chapter_done(1, chapter_result("middle"));
    assert_eq!(run.phase, RunPhase::Assembling);
    assert_eq!(run.state.chapters_processed, vec![0, 1, 2]);
}

#[test]
fn out_of_order_completions_render_in_chapter_order() {
    let mut state = ProcessingState::new();
    state.images_extracted = true;
    state.text_extracted = true;
    let mut run = PipelineRun::start(state, 3);
    run.plan_received("## A\n## B\n## C").unwrap();
    run.chapter_done(2, chapter_result("third"));
    run.chapter_done(0, chapter_result("first"));
    run.chapter_done(1, chapter_result("second"));
    let out = run.render_output("markdown");
    assert_eq!(
        out,
        "## Chapter 1\n\nfirst\n## Chapter 2\n\nsecond\n## Chapter 3\n\nthird\n"
    );
}

#[test]
fn assembly_concatenates_persisted_renders_in_chapter_order() {
    let renders = vec![
        Some("## Chapter 1\n\nfirst\n".to_string()),
        None,
        Some("## Chapter 3\n\nthird\n".to_string()),
    ];
    assert_eq!(
        aibook::orchestrator::assemble_chapter_renders(&renders),
        "## Chapter 1\n\nfirst\n## Chapter 3\n\nthird\n"
    );
    assert_eq!(aibook::orchestrator::assemble_chapter_renders(&vec![]), "");
}

#[test]
fn blank_plan_fails_the_run() {
    let mut state = ProcessingState::new();
    state.images_extracted = true;
    state.text_extracted = true;
    let mut run = PipelineRun::start(state, 1);
    let err = run.plan_received("  \n ").unwrap_err();
    assert_eq!(err, SummaryError::EmptyPlan);
    assert_eq!(run.phase, RunPhase::Failed);
    assert_eq!(run.failure, Some(SummaryError::EmptyPlan));
}

#[test]
fn plan_with_fewer_headings_still_grounds_every_chapter() {
    let mut state = ProcessingState::new();
    state.images_extracted = true;
    state.text_extracted = true;
    let mut run = PipelineRun::start(state, 3);
    run.plan_received("## One\nfirst\n## Two\nsecond").unwrap();
    assert_eq!(run.plan_sections.len(), 2);
    assert_eq!(run.chapter_plan(0), "##One\nfirst");
    assert_eq!(run.chapter_plan(2), "");
    run.chapter_done(2, chapter_result("no plan needed"));
    assert_eq!(run.phase, RunPhase::ProcessingChapters);
}

#[test]
fn completed_checkpoints_resume_straight_to_done() {
    let mut state = ProcessingState::new();
    state.images_extracted = true;
    state.text_extracted = true;
    state.epub_created = true;
    state.mark_chapter_done(0);
    let run = PipelineRun::start(state, 1);
    assert_eq!(run.phase, RunPhase::Completed);

    let fresh = PipelineRun::start(ProcessingState::new(), 1);
    assert_eq!(fresh.phase, RunPhase::ExtractingImages);
}

#[test]
fn aborting_keeps_the_checkpoint() {
    let mut state = ProcessingState::new();
    state.images_extracted = true;
    state.text_extracted = true;
    state.mark_chapter_done(0);
    let mut run = PipelineRun::start(state, 2);
    run.plan_received("## A\n## B").unwrap();
    run.abort(SummaryError::Auth);
    assert_eq!(run.phase, RunPhase::Failed);
    assert_eq!(run.failure, Some(SummaryError::Auth));
    assert_eq!(run.state.chapters_processed, vec![0]);
}

#[test]
fn two_chapter_run_end_to_end() {
    // A 2-chapter document against a mock service that returns one fixed
    // JSON reply per chapter, one section per chapter.
    let summarizer = Summarizer::new(
        "key".to_string(),
        "model".to_string(),
        "en".to_string(),
        "short".to_string(),
    );
    let replies = ["{\"summary\":\"S1\"}", "{\"summary\":\"S2\"}"];

    let mut run = PipelineRun::start(ProcessingState::new(), 2);
    assert_eq!(run.phase, RunPhase::ExtractingImages);
    run.images_done();
    assert_eq!(run.phase, RunPhase::ExtractingText);
    run.text_done();
    assert_eq!(run.phase, RunPhase::AwaitingPlan);
    run.plan_received("## One\n## Two").unwrap();

    for index in run.pending_chapters() {
        let plan = run.chapter_plan(index);
        assert!(!plan.is_empty());
        let mut worker = ChapterWorker::new(vec![format!("chapter {} text", index)], 3);
        while worker.status == WorkerStatus::Working {
            let outcome = match summarizer.handle_section_response(replies[index]) {
                Ok(parsed) => SectionOutcome::Parsed(parsed),
                Err(e) => SectionOutcome::Failed(e),
            };
            worker.step(outcome);
        }
        assert_eq!(worker.status, WorkerStatus::Done);
        run.chapter_done(index, worker.accumulated);
    }

    assert_eq!(run.phase, RunPhase::Assembling);
    let out = run.render_output("markdown");
    let s1 = out.find("S1").unwrap();
    let s2 = out.find("S2").unwrap();
    assert!(s1 < s2);
    run.output_written();
    assert_eq!(run.phase, RunPhase::Completed);
    assert_eq!(run.state.chapters_processed, vec![0, 1]);
    assert!(run.state.epub_created);
    let reloaded = decode_state(&encode_state(&run.state)).unwrap();
    assert_eq!(reloaded.chapters_processed, vec![0, 1]);
    assert!(reloaded.epub_created);
}
