//! The command-line surface, as plain data. The argument parsing itself
//! happens outside the library; these types carry what it yields.

use vstd::prelude::*;

verus! {

/// The parsed command line.
pub struct Cli {
    pub command: Commands,
}

/// The subcommands the tool offers.
pub enum Commands {
    /// Summarize one document.
    Process { file: String, lang: Option<Language> },
}

/// The output languages the tool knows.
#[derive(Clone, Copy, Debug, PartialEq, Eq, PartialOrd, Ord, Structural)]
pub enum Language {
    PtBr,
    En,
}

/// The completion services the tool can call.
#[derive(Clone, Copy, Debug, PartialEq, Eq, PartialOrd, Ord, Structural)]
pub enum AIProvider {
    StackSpot,
    OpenRouter,
}

} // verus!
