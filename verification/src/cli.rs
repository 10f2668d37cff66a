//! The command line's shape and its decisions: which subcommands exist, what
//! `orv version` prints and which exit code each outcome maps to.
//!
//! Parsing the process arguments, printing and the process exit itself stay
//! with the binary; this module holds what they decide on.
use vstd::prelude::*;

verus! {

/// Exit code for a successful run.
pub const EXIT_OK: u8 = 0;

/// Exit code for a program error: the input had diagnostics.
pub const EXIT_FAILURE: u8 = 1;

/// Exit code for an environment or usage error (unreadable file, closed
/// stdout, unknown subcommand).
pub const EXIT_USAGE: u8 = 2;

/// The crate version that `orv version` reports.
pub const VERSION: &'static str = "0.1.0";

/// The `orv` command line.
#[derive(Debug, PartialEq, Eq)]
pub struct Cli {
    pub command: Command,
}

/// Every subcommand the command line exposes.
#[derive(Debug, PartialEq, Eq)]
pub enum Command {
    /// Print the Orvane version.
    Version,
    /// Lex a file and print one line per token (a hidden debugging aid).
    Tokens { path: String },
}

/// How a subcommand ended.
#[derive(Debug, Clone, Copy, PartialEq, Eq, Structural)]
pub enum SubcommandOutcome {
    /// Everything went through.
    Success,
    /// The input had diagnostics.
    Failure,
    /// The environment failed: a file could not be read or output written.
    Usage,
}

/// The exit code of each outcome.
pub open spec fn exit_code_spec(outcome: SubcommandOutcome) -> u8 {
    match outcome {
        SubcommandOutcome::Success => EXIT_OK,
        SubcommandOutcome::Failure => EXIT_FAILURE,
        SubcommandOutcome::Usage => EXIT_USAGE,
    }
}

impl SubcommandOutcome {
    /// The process exit code for this outcome.
    pub fn exit_code(self) -> (code: u8)
        ensures
            code == exit_code_spec(self),
    {
        match self {
            SubcommandOutcome::Success => EXIT_OK,
            SubcommandOutcome::Failure => EXIT_FAILURE,
            SubcommandOutcome::Usage => EXIT_USAGE,
        }
    }
}

/// The outcome of `orv tokens`: a failed write of the token listing is an
/// environment problem, diagnostics make it a program error.
pub open spec fn tokens_outcome_spec(write_failed: bool, diagnostic_count: nat) -> SubcommandOutcome {
    if write_failed {
        SubcommandOutcome::Usage
    } else if diagnostic_count == 0 {
        SubcommandOutcome::Success
    } else {
        SubcommandOutcome::Failure
    }
}

/// Decides how `orv tokens` ends once its listing was written (or not) and
/// the lexer reported `diagnostic_count` diagnostics.
pub fn tokens_outcome(write_failed: bool, diagnostic_count: usize) -> (outcome: SubcommandOutcome)
    ensures
        outcome == tokens_outcome_spec(write_failed, diagnostic_count as nat),
{
    if write_failed {
        SubcommandOutcome::Usage
    } else if diagnostic_count == 0 {
        SubcommandOutcome::Success
    } else {
        SubcommandOutcome::Failure
    }
}

/// `orv <version> (orvane <version>)`.
pub open spec fn version_line_spec(version: Seq<char>) -> Seq<char> {
    "orv "@ + version + " (orvane "@ + version + ")"@
}

/// The single line printed by `orv version`.
pub fn version_line() -> (line: String)
    ensures
        line@ == version_line_spec(VERSION@),
{
    let mut line = String::new();
    line.append("orv ");
    line.append(VERSION);
    line.append(" (orvane ");
    line.append(VERSION);
    line.append(")");
    assert(line@ =~= version_line_spec(VERSION@));
    line
}

} // verus!
