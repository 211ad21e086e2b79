//! The document pipeline as a pure state machine.
//!
//! The stages are strictly ordered — images, text, plan, chapters, output —
//! and each is gated by its checkpoint flag, so a resumed run skips what an
//! earlier run already did. The driver performs the document reading, the
//! completion calls and the file writes, reports each completion as an
//! event, and persists the encoded state after every event; the decisions
//! all stand here.

use vstd::prelude::*;
use vstd::string::*;

use crate::checkpoint::{chapters_sorted, ProcessingState};
use crate::errors::SummaryError;
use crate::num::{dec_chars, dec_digits};
use crate::output::format_section;
use crate::parser::ChapterResult;
use crate::plan::{plan_sections_spec, plan_section_for, split_summary_plan, validate_plan};
use crate::text::{chars_of, extend_chars, is_blank, string_of, str_views};

verus! {

broadcast use vstd::string::group_string_axioms;

/// The stage a document's run stands in.
#[derive(Clone, Copy, Debug, PartialEq, Eq, Structural)]
pub enum RunPhase {
    /// Images are being extracted from the document.
    ExtractingImages,
    /// Chapter text is being extracted.
    ExtractingText,
    /// The summary plan has been requested and its reply is awaited. The
    /// plan is never persisted: a resumed run regenerates it.
    AwaitingPlan,
    /// Chapter workers are running.
    ProcessingChapters,
    /// All chapters are processed; the output artifact is being assembled.
    Assembling,
    /// The run is complete.
    Completed,
    /// A fatal error ended the run; the checkpoint keeps what was done.
    Failed,
}

/// Whether every chapter below `total` is recorded as processed.
pub open spec fn all_chapters_done(cs: Seq<usize>, total: int) -> bool {
    forall|x: usize| x < total ==> cs.contains(x)
}

/// The stage that a freshly loaded state stands in: the first whose flag
/// is not yet set, the plan being regenerated whenever chapter work
/// remains.
pub open spec fn phase_for(
    images_extracted: bool,
    text_extracted: bool,
    cs: Seq<usize>,
    epub_created: bool,
    total: int,
) -> RunPhase {
    if !images_extracted {
        RunPhase::ExtractingImages
    } else if !text_extracted {
        RunPhase::ExtractingText
    } else if !all_chapters_done(cs, total) {
        RunPhase::AwaitingPlan
    } else if !epub_created {
        RunPhase::Assembling
    } else {
        RunPhase::Completed
    }
}

/// One document's run: the checkpoint state, the plan, and the results
/// collected so far.
pub struct PipelineRun {
    /// The checkpoint state; the driver persists its encoding after every
    /// event.
    pub state: ProcessingState,
    /// How many chapters the document has.
    pub total_chapters: usize,
    /// The per-chapter plan sections, once the plan has arrived.
    pub plan_sections: Vec<String>,
    /// One slot per chapter, filled when its worker completes in this run.
    pub results: Vec<Option<ChapterResult>>,
    /// The chapters that were already processed when this run began.
    pub initially_done: Vec<usize>,
    /// The stage the run stands in.
    pub phase: RunPhase,
    /// The fatal error that ended the run, if one did.
    pub failure: Option<SummaryError>,
}

/// The states the pipeline machine can be in. The third clause is the
/// crash-safety invariant: a chapter is recorded as processed only when
/// its result was collected in this run or it was already processed when
/// the run began, so the checkpoint never claims work whose output does
/// not exist.
pub open spec fn run_wf(r: PipelineRun) -> bool {
    &&& chapters_sorted(r.state.chapters_processed@)
    &&& (forall|x: usize| r.state.chapters_processed@.contains(x) ==> x < r.total_chapters)
    &&& r.results@.len() == r.total_chapters
    &&& (forall|i: int|
        0 <= i < r.total_chapters ==> (r.state.chapters_processed@.contains(i as usize) <==> (
        r.initially_done@.contains(i as usize) || r.results@[i] is Some)))
    &&& (r.phase is ExtractingImages ==> !r.state.images_extracted)
    &&& (r.phase is ExtractingText ==> r.state.images_extracted && !r.state.text_extracted)
    &&& (r.phase is AwaitingPlan ==> r.state.images_extracted && r.state.text_extracted)
    &&& (r.phase is ProcessingChapters ==> r.state.images_extracted && r.state.text_extracted)
    &&& (r.phase is Assembling ==> all_chapters_done(
        r.state.chapters_processed@,
        r.total_chapters as int,
    ))
    &&& (r.phase is Completed ==> r.state.epub_created)
}

/// The stage that `state` stands in, as `phase_for` says.
fn compute_phase(state: &ProcessingState, total: usize) -> (r: RunPhase)
    requires
        chapters_sorted(state.chapters_processed@),
    ensures
        r == phase_for(
            state.images_extracted,
            state.text_extracted,
            state.chapters_processed@,
            state.epub_created,
            total as int,
        ),
{
    if !state.images_extracted {
        RunPhase::ExtractingImages
    } else if !state.text_extracted {
        RunPhase::ExtractingText
    } else {
        let remaining = state.remaining_chapters(total);
        if remaining.len() > 0 {
            let c = remaining[0];
            assert(remaining@.contains(c));
            assert(!all_chapters_done(state.chapters_processed@, total as int));
            RunPhase::AwaitingPlan
        } else if !state.epub_created {
            assert forall|x: usize| x < total implies state.chapters_processed@.contains(x) by {
                assert(!remaining@.contains(x));
            }
            RunPhase::Assembling
        } else {
            assert forall|x: usize| x < total implies state.chapters_processed@.contains(x) by {
                assert(!remaining@.contains(x));
            }
            RunPhase::Completed
        }
    }
}

impl PipelineRun {
    /// Begins (or resumes) a document's run from a loaded checkpoint
    /// state. The run starts at the first stage whose flag is unset.
    pub fn start(state: ProcessingState, total_chapters: usize) -> (r: Self)
        requires
            chapters_sorted(state.chapters_processed@),
            forall|x: usize| state.chapters_processed@.contains(x) ==> x < total_chapters,
        ensures
            run_wf(r),
            r.state@ == state@,
            r.total_chapters == total_chapters,
            r.plan_sections@.len() == 0,
            r.results@.len() == total_chapters,
            forall|j: int| 0 <= j < total_chapters ==> (#[trigger] r.results@[j]) is None,
            r.initially_done@ == state.chapters_processed@,
            r.failure is None,
            r.phase == phase_for(
                state.images_extracted,
                state.text_extracted,
                state.chapters_processed@,
                state.epub_created,
                total_chapters as int,
            ),
    {
        let phase = compute_phase(&state, total_chapters);
        let initially_done = state.chapters_processed.clone();
        let mut results: Vec<Option<ChapterResult>> = Vec::new();
        let mut i: usize = 0;
        while i < total_chapters
            invariant
                i <= total_chapters,
                results@.len() == i,
                forall|j: int| 0 <= j < i ==> (#[trigger] results@[j]) is None,
            decreases total_chapters - i,
        {
            results.push(None);
            i = i + 1;
        }
        PipelineRun {
            state,
            total_chapters,
            plan_sections: Vec::new(),
            results,
            initially_done,
            phase,
            failure: None,
        }
    }

    /// Records that the document's images were extracted.
    pub fn images_done(&mut self)
        requires
            run_wf(*old(self)),
            old(self).phase is ExtractingImages,
        ensures
            run_wf(*final(self)),
            final(self).state.images_extracted,
            final(self).state.text_extracted == old(self).state.text_extracted,
            final(self).state.chapters_processed@ == old(self).state.chapters_processed@,
            final(self).state.epub_created == old(self).state.epub_created,
            final(self).phase == phase_for(
                true,
                old(self).state.text_extracted,
                old(self).state.chapters_processed@,
                old(self).state.epub_created,
                old(self).total_chapters as int,
            ),
            final(self).results@ == old(self).results@,
            final(self).total_chapters == old(self).total_chapters,
            final(self).initially_done@ == old(self).initially_done@,
            final(self).plan_sections@ == old(self).plan_sections@,
    {
        self.state.images_extracted = true;
        self.phase = compute_phase(&self.state, self.total_chapters);
    }

    /// Records that the document's chapter text was extracted.
    pub fn text_done(&mut self)
        requires
            run_wf(*old(self)),
            old(self).phase is ExtractingText,
        ensures
            run_wf(*final(self)),
            final(self).state.text_extracted,
            final(self).state.images_extracted,
            final(self).state.chapters_processed@ == old(self).state.chapters_processed@,
            final(self).state.epub_created == old(self).state.epub_created,
            final(self).phase == phase_for(
                true,
                true,
                old(self).state.chapters_processed@,
                old(self).state.epub_created,
                old(self).total_chapters as int,
            ),
            final(self).results@ == old(self).results@,
            final(self).total_chapters == old(self).total_chapters,
            final(self).initially_done@ == old(self).initially_done@,
            final(self).plan_sections@ == old(self).plan_sections@,
    {
        self.state.text_extracted = true;
        self.phase = compute_phase(&self.state, self.total_chapters);
    }

    /// Receives the model's plan reply. A blank reply is fatal — without a
    /// plan the chapter work has no grounding; otherwise the plan is split
    /// into per-chapter sections and the chapter stage begins. The plan
    /// must be fully received before any chapter worker starts.
    pub fn plan_received(&mut self, response: &str) -> (r: Result<(), SummaryError>)
        requires
            run_wf(*old(self)),
            old(self).phase is AwaitingPlan,
        ensures
            run_wf(*final(self)),
            r is Err <==> is_blank(response@),
            r is Err ==> r->Err_0 == SummaryError::EmptyPlan && final(self).phase is Failed && final(self).failure == Some(SummaryError::EmptyPlan),
            r is Ok ==> str_views(final(self).plan_sections@) == plan_sections_spec(response@)
                && final(self).phase is ProcessingChapters,
            final(self).state@ == old(self).state@,
            final(self).results@ == old(self).results@,
            final(self).total_chapters == old(self).total_chapters,
            final(self).initially_done@ == old(self).initially_done@,
    {
        match validate_plan(response) {
            Ok(plan) => {
                self.plan_sections = split_summary_plan(plan.as_str());
                self.phase = RunPhase::ProcessingChapters;
                Ok(())
            },
            Err(e) => {
                self.phase = RunPhase::Failed;
                self.failure = Some(SummaryError::EmptyPlan);
                Err(SummaryError::EmptyPlan)
            },
        }
    }

    /// The chapters that still need a worker, in increasing order: on a
    /// resumed run, exactly the ones no earlier run completed.
    pub fn pending_chapters(&self) -> (r: Vec<usize>)
        requires
            run_wf(*self),
        ensures
            chapters_sorted(r@),
            forall|x: usize| r@.contains(x) <==> (x < self.total_chapters
                && !self.state.chapters_processed@.contains(x)),
    {
        self.state.remaining_chapters(self.total_chapters)
    }

    /// The plan section that grounds one chapter's prompts: the section at
    /// the chapter's index, or an empty one when the plan has fewer
    /// headings than the document has chapters — summarization proceeds
    /// either way.
    pub fn chapter_plan(&self, index: usize) -> (r: String)
        ensures
            index < self.plan_sections@.len() ==> r@ == self.plan_sections@[index as int]@,
            index >= self.plan_sections@.len() ==> r@ == Seq::<char>::empty(),
    {
        plan_section_for(&self.plan_sections, index)
    }

    /// Records one chapter's collected result. The result is stored before
    /// the chapter is marked processed, in the same step, and the driver
    /// persists the new state before further work, so the checkpoint never
    /// gets ahead of the output.
    pub fn chapter_done(&mut self, index: usize, result: ChapterResult)
        requires
            run_wf(*old(self)),
            old(self).phase is ProcessingChapters,
            index < old(self).total_chapters,
            !old(self).state.chapters_processed@.contains(index),
        ensures
            run_wf(*final(self)),
            final(self).results@[index as int] == Some(result),
            forall|j: int| 0 <= j < old(self).results@.len() && j != index ==> final(self).results@[j] == old(self).results@[j],
            forall|x: usize| final(self).state.chapters_processed@.contains(x) <==> (old(self).state.chapters_processed@.contains(x) || x == index),
            final(self).state.images_extracted == old(self).state.images_extracted,
            final(self).state.text_extracted == old(self).state.text_extracted,
            final(self).state.epub_created == old(self).state.epub_created,
            final(self).phase == (if all_chapters_done(
                final(self).state.chapters_processed@,
                final(self).total_chapters as int,
            ) {
                RunPhase::Assembling
            } else {
                RunPhase::ProcessingChapters
            }),
            final(self).total_chapters == old(self).total_chapters,
            final(self).initially_done@ == old(self).initially_done@,
            final(self).plan_sections@ == old(self).plan_sections@,
    {
        self.results[index] = Some(result);
        self.state.mark_chapter_done(index);
        let remaining = self.state.remaining_chapters(self.total_chapters);
        if remaining.len() == 0 {
            proof {
                assert forall|x: usize| x < self.total_chapters implies self.state.chapters_processed@.contains(
                    x,
                ) by {
                    assert(!remaining@.contains(x));
                }
            }
            self.phase = RunPhase::Assembling;
        } else {
            let c = remaining[0];
            assert(remaining@.contains(c));
            self.phase = RunPhase::ProcessingChapters;
        }
    }

    /// Records that the assembled output was written; the run is complete.
    pub fn output_written(&mut self)
        requires
            run_wf(*old(self)),
            old(self).phase is Assembling,
        ensures
            run_wf(*final(self)),
            final(self).state.epub_created,
            final(self).phase is Completed,
            final(self).state.images_extracted == old(self).state.images_extracted,
            final(self).state.text_extracted == old(self).state.text_extracted,
            final(self).state.chapters_processed@ == old(self).state.chapters_processed@,
            final(self).results@ == old(self).results@,
            final(self).total_chapters == old(self).total_chapters,
    {
        self.state.epub_created = true;
        self.phase = RunPhase::Completed;
    }

    /// Ends the run on a fatal error; the checkpoint keeps what was done,
    /// so a later run resumes from it.
    pub fn abort(&mut self, error: SummaryError)
        requires
            run_wf(*old(self)),
        ensures
            run_wf(*final(self)),
            final(self).phase is Failed,
            final(self).failure == Some(error),
            final(self).state@ == old(self).state@,
            final(self).results@ == old(self).results@,
            final(self).total_chapters == old(self).total_chapters,
    {
        self.phase = RunPhase::Failed;
        self.failure = Some(error);
    }
}

/// The heading of one chapter's rendered section, counting from one.
pub open spec fn chapter_heading(i: int) -> Seq<char> {
    "Chapter "@ + dec_digits((i + 1) as nat)
}

/// One chapter's rendered section, by output format.
pub open spec fn section_text(title: Seq<char>, content: Seq<char>, format: Seq<char>) -> Seq<
    char,
> {
    if format == "markdown"@ {
        "## "@ + title + "\n\n"@ + content + "\n"@
    } else if format == "html"@ {
        "<h2>"@ + title + "</h2>\n\n"@ + content + "\n"@
    } else {
        content
    }
}

/// The output text of the first `upto` chapters: the collected chapters'
/// narratives rendered under their headings, in chapter order; chapters
/// without a collected result contribute nothing.
pub open spec fn rendered_upto(
    rs: Seq<Option<ChapterResult>>,
    format: Seq<char>,
    upto: int,
) -> Seq<char>
    decreases upto,
{
    if upto <= 0 {
        Seq::empty()
    } else {
        rendered_upto(rs, format, upto - 1) + (match rs[upto - 1] {
            Some(r) => section_text(chapter_heading(upto - 1), r@.summary, format),
            None => Seq::empty(),
        })
    }
}

/// The concatenation, in chapter order, of the present renders among the
/// first `upto` slots.
pub open spec fn assembled_text(parts: Seq<Option<String>>, upto: int) -> Seq<char>
    decreases upto,
{
    if upto <= 0 {
        Seq::empty()
    } else {
        assembled_text(parts, upto - 1) + (match parts[upto - 1] {
            Some(s) => s@,
            None => Seq::empty(),
        })
    }
}

/// Concatenates persisted per-chapter renders in chapter order: slot `i`
/// holds chapter `i`'s rendered text, from whichever run produced it, and
/// an absent slot contributes nothing. This is the final re-ordering step
/// of assembly; the driver only reads the slots in and writes the result
/// out.
pub fn assemble_chapter_renders(parts: &Vec<Option<String>>) -> (r: String)
    ensures
        r@ == assembled_text(parts@, parts@.len() as int),
{
    let mut out: Vec<char> = Vec::new();
    let mut i: usize = 0;
    while i < parts.len()
        invariant
            i <= parts@.len(),
            out@ == assembled_text(parts@, i as int),
        decreases parts@.len() - i,
    {
        match &parts[i] {
            Some(rendered) => {
                let rendered_chars = chars_of(rendered.as_str());
                extend_chars(&mut out, &rendered_chars);
            },
            None => {
                assert(out@ + Seq::<char>::empty() =~= out@);
            },
        }
        i = i + 1;
    }
    string_of(&out)
}

impl PipelineRun {
    /// Renders the chapter narratives collected in this run in chapter
    /// order, each under its heading. Chapters without a result in this
    /// run contribute nothing; a resumed run assembles the full output
    /// from the persisted per-chapter renders instead, with
    /// `assemble_chapter_renders`.
    pub fn render_output(&self, format: &str) -> (r: String)
        requires
            run_wf(*self),
        ensures
            r@ == rendered_upto(self.results@, format@, self.total_chapters as int),
    {
        let mut out: Vec<char> = Vec::new();
        let mut i: usize = 0;
        while i < self.total_chapters
            invariant
                run_wf(*self),
                i <= self.total_chapters,
                out@ == rendered_upto(self.results@, format@, i as int),
            decreases self.total_chapters - i,
        {
            match &self.results[i] {
                Some(result) => {
                    let mut title = chars_of("Chapter ");
                    let digits = dec_chars((i as u64) + 1);
                    extend_chars(&mut title, &digits);
                    assert(title@ == chapter_heading(i as int));
                    let title_str = string_of(&title);
                    let piece = format_section(
                        title_str.as_str(),
                        result.summary.as_str(),
                        format,
                    );
                    assert(piece@ == section_text(chapter_heading(i as int), result@.summary, format@));
                    let piece_chars = chars_of(piece.as_str());
                    extend_chars(&mut out, &piece_chars);
                },
                None => {
                    assert(out@ + Seq::<char>::empty() =~= out@);
                },
            }
            i = i + 1;
        }
        string_of(&out)
    }
}

} // verus!
