//! Verified core of an e-book summarization pipeline.
//!
//! The library splits chapter text into token-bounded sections, parses model
//! replies into structured chapter results, tracks resumable per-chapter
//! progress in a checkpoint, and drives the plan-then-summarize protocol as a
//! pure state machine; the surrounding I/O lives outside the library.

use vstd::prelude::*;

pub mod checkpoint;
pub mod chunker;
pub mod cli;
pub mod client;
pub mod ebook;
pub mod errors;
pub mod num;
pub mod orchestrator;
pub mod output;
pub mod parser;
pub mod plan;
pub mod summarizer;
pub mod text;
pub mod worker;

verus! {

/// Number of completion attempts granted to one section before it is skipped.
pub const DEFAULT_MAX_ATTEMPTS: u32 = 3;

/// Default bound on the encoded length of one section of chapter text.
pub const DEFAULT_SECTION_TOKEN_LIMIT: usize = 2000;

/// Default sampling temperature in hundredths; `70` stands for `0.70`.
pub const DEFAULT_TEMPERATURE_HUNDREDTHS: u32 = 70;

} // verus!
