//! Runtime failures.
//!
//! One mechanism for every runtime error: `Failure { kind, message, trace }`.
//! An uncaught failure reaches `main` as a diagnostic and exit code 1.

use vstd::prelude::*;
use crate::span::Span;
use crate::text::{push_str_debug, str_debug_spec, str_eq};

verus! {

/// The kinds of runtime failure.
#[derive(Clone, Copy, PartialEq, Eq, Structural, Debug)]
pub enum FailureKind {
    /// `1 / 0` or `1 % 0` (`R0001`).
    DivisionByZero,
    /// Integer overflow (`R0002`).
    Overflow,
    /// An index past the end of a list or string (`R0003`).
    IndexOutOfBounds,
    /// `assert` failed.
    AssertionFailed,
    /// A map lookup for a missing key.
    MissingKey,
    /// The call stack exceeded the maximum depth (`R0004`).
    StackOverflow,
    /// A runtime operation that is not supported.
    Unsupported,
    /// Internal control flow (`break`, `continue`, `return`) travelling
    /// through the error channel; never reported to the user.
    Flow,
}

impl FailureKind {
    pub open spec fn name(self) -> Seq<char> {
        match self {
            FailureKind::DivisionByZero => "DivisionByZero"@,
            FailureKind::Overflow => "Overflow"@,
            FailureKind::IndexOutOfBounds => "IndexOutOfBounds"@,
            FailureKind::AssertionFailed => "AssertionFailed"@,
            FailureKind::MissingKey => "MissingKey"@,
            FailureKind::StackOverflow => "StackOverflow"@,
            FailureKind::Unsupported => "Unsupported"@,
            FailureKind::Flow => "Flow"@,
        }
    }

    pub open spec fn code_of(self) -> Seq<char> {
        match self {
            FailureKind::DivisionByZero => "R0001"@,
            FailureKind::Overflow => "R0002"@,
            FailureKind::IndexOutOfBounds => "R0003"@,
            FailureKind::AssertionFailed => "R0001"@,
            FailureKind::MissingKey => "R0003"@,
            FailureKind::StackOverflow => "R0004"@,
            FailureKind::Unsupported => "R0010"@,
            FailureKind::Flow => "R0010"@,
        }
    }

    /// The stable name used in messages.
    pub fn as_str(self) -> (s: &'static str)
        ensures
            s@ == self.name(),
    {
        match self {
            FailureKind::DivisionByZero => "DivisionByZero",
            FailureKind::Overflow => "Overflow",
            FailureKind::IndexOutOfBounds => "IndexOutOfBounds",
            FailureKind::AssertionFailed => "AssertionFailed",
            FailureKind::MissingKey => "MissingKey",
            FailureKind::StackOverflow => "StackOverflow",
            FailureKind::Unsupported => "Unsupported",
            FailureKind::Flow => "Flow",
        }
    }

    /// The `Rxxxx` diagnostic code.
    pub fn code(self) -> (s: &'static str)
        ensures
            s@ == self.code_of(),
    {
        match self {
            FailureKind::DivisionByZero => "R0001",
            FailureKind::Overflow => "R0002",
            FailureKind::IndexOutOfBounds => "R0003",
            FailureKind::AssertionFailed => "R0001",
            FailureKind::MissingKey => "R0003",
            FailureKind::StackOverflow => "R0004",
            FailureKind::Unsupported => "R0010",
            FailureKind::Flow => "R0010",
        }
    }
}

/// One frame of the call stack.
#[derive(Clone, Debug)]
pub struct Frame {
    /// The function name, or `<main>`.
    pub function: String,
    /// Where the call happened.
    pub span: Span,
}

/// A runtime failure.
#[derive(Clone, Debug)]
pub struct Failure {
    /// A stable machine-readable kind, e.g. `DivisionByZero`.
    pub kind: FailureKind,
    /// A human-readable message.
    pub message: String,
    /// The call stack at the point of failure, innermost last.
    pub trace: Vec<Frame>,
    /// Where it happened.
    pub span: Span,
}

impl Failure {
    /// Creates a failure with no stack.
    pub fn new(kind: FailureKind, message: &str, span: Span) -> (f: Failure)
        ensures
            f.kind == kind,
            f.message@ == message@,
            f.trace@.len() == 0,
            f.span == span,
    {
        Failure { kind, message: message.to_owned(), trace: Vec::new(), span }
    }

    /// Attaches a call stack.
    pub fn with_trace(self, trace: Vec<Frame>) -> (f: Failure)
        ensures
            f == with_trace_spec(self, trace),
    {
        let mut f = self;
        f.trace = trace;
        f
    }

    /// Structural equality, used by `Result` values: same kind and message;
    /// the trace and the span do not count.
    pub fn equals(&self, other: &Failure) -> (b: bool)
        ensures
            b == failure_eq(*self, *other),
    {
        self.kind == other.kind && str_eq(self.message.as_str(), other.message.as_str())
    }
}

/// The failure with its trace replaced.
pub open spec fn with_trace_spec(f: Failure, trace: Vec<Frame>) -> Failure {
    Failure { trace, ..f }
}

/// Whether two failures are equal as values: same kind, same message.
pub open spec fn failure_eq(a: Failure, b: Failure) -> bool {
    a.kind == b.kind && a.message@ == b.message@
}

/// The rendering `Failure(kind: "...", message: "...")`, each part in std's
/// `Debug` form.
pub open spec fn render_spec(kind: FailureKind, message: Seq<char>) -> Seq<char> {
    "Failure(kind: "@ + str_debug_spec(kind.name()) + ", message: "@ + str_debug_spec(message) + ")"@
}

/// The structured rendering used inside `Err(...)` and in diagnostics.
pub fn render(failure: &Failure) -> (s: String)
    ensures
        s@ == render_spec(failure.kind, failure.message@),
{
    let mut s = String::new();
    s.append("Failure(kind: ");
    push_str_debug(&mut s, failure.kind.as_str());
    s.append(", message: ");
    push_str_debug(&mut s, failure.message.as_str());
    s.append(")");
    assert(s@ =~= render_spec(failure.kind, failure.message@));
    s
}

/// Attaching a trace never changes what a failure equals; equality is
/// reflexive and symmetric.
pub proof fn law_equality_ignores_trace(a: Failure, b: Failure, trace: Vec<Frame>)
    ensures
        failure_eq(with_trace_spec(a, trace), b) == failure_eq(a, b),
        failure_eq(a, a),
        failure_eq(a, b) == failure_eq(b, a),
{
}

/// Distinct failure kinds carry distinct names, so a rendered failure tells
/// its kind.
pub proof fn law_failure_names_distinct(a: FailureKind, b: FailureKind)
    ensures
        a.name() == b.name() ==> a == b,
{
    reveal_strlit("DivisionByZero"); reveal_strlit("Overflow"); reveal_strlit("IndexOutOfBounds");
    reveal_strlit("AssertionFailed"); reveal_strlit("MissingKey"); reveal_strlit("StackOverflow");
    reveal_strlit("Unsupported"); reveal_strlit("Flow");
    if a.name() == b.name() {
        let n = a.name();
        assert(n.len() == b.name().len());
        assert(n[0] == b.name()[0]);
        assert(n[1] == b.name()[1]);
    }
}

} // verus!
