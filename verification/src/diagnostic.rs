//! User-facing diagnostics: a stable code, a message, a primary span, optional
//! secondary labels and an optional help sentence.

use vstd::prelude::*;
use vstd::utf8::*;
use crate::source::{SourceMap, line_col_spec};
use crate::span::{FileId, Span};
use crate::text::{nat_text, push_u64};

verus! {

/// Diagnostic severity; only errors block the pipeline.
#[derive(Clone, Copy, PartialEq, Eq, Debug)]
pub enum Severity {
    Error,
    Warning,
}

impl Severity {
    /// Whether this severity blocks the pipeline.
    pub fn is_error(self) -> (b: bool)
        ensures
            b == (self == Severity::Error),
    {
        match self {
            Severity::Error => true,
            Severity::Warning => false,
        }
    }

    /// The stable lowercase name of a severity.
    pub open spec fn spec_name(self) -> Seq<char> {
        match self {
            Severity::Error => "error"@,
            Severity::Warning => "warning"@,
        }
    }

    /// Stable lowercase name, used in golden output.
    pub fn as_str(self) -> (s: &'static str)
        ensures
            s@ == self.spec_name(),
    {
        match self {
            Severity::Error => "error",
            Severity::Warning => "warning",
        }
    }
}

/// A secondary location attached to a diagnostic, with its own message.
#[derive(Clone, PartialEq, Eq, Debug)]
pub struct Label {
    pub span: Span,
    pub message: String,
}

impl Label {
    /// Creates a label.
    pub fn new(span: Span, message: &str) -> (label: Label)
        ensures
            label.span == span,
            label.message@ == message@,
    {
        Label { span, message: message.to_owned() }
    }
}

/// A compiler or runtime diagnostic.
#[derive(Clone, PartialEq, Eq, Debug)]
pub struct Diagnostic {
    /// Stable code such as `E0001`.
    pub code: &'static str,
    pub severity: Severity,
    pub message: String,
    pub primary: Span,
    pub labels: Vec<Label>,
    pub help: Option<String>,
}

/// The mathematical model of a label.
pub struct LabelV {
    pub span: Span,
    pub message: Seq<char>,
}

impl View for Label {
    type V = LabelV;

    open spec fn view(&self) -> LabelV {
        LabelV { span: self.span, message: self.message@ }
    }
}

/// The mathematical model of a diagnostic.
pub struct DiagV {
    pub code: Seq<char>,
    pub severity: Severity,
    pub message: Seq<char>,
    pub primary: Span,
    pub labels: Seq<LabelV>,
    pub help: Option<Seq<char>>,
}

impl View for Diagnostic {
    type V = DiagV;

    open spec fn view(&self) -> DiagV {
        DiagV {
            code: self.code@,
            severity: self.severity,
            message: self.message@,
            primary: self.primary,
            labels: self.labels@.map_values(|l: Label| l@),
            help: match self.help {
                Some(h) => Some(h@),
                None => None,
            },
        }
    }
}

/// The models of a list of diagnostics.
pub open spec fn diags_view(ds: Seq<Diagnostic>) -> Seq<DiagV> {
    ds.map_values(|d: Diagnostic| d@)
}

/// The model of `Diagnostic::error(code, message, primary)`.
pub open spec fn error_v(code: Seq<char>, message: Seq<char>, primary: Span) -> DiagV {
    DiagV { code, severity: Severity::Error, message, primary, labels: Seq::empty(), help: None }
}

/// The model of `d.with_help(help)`.
pub open spec fn with_help_v(d: DiagV, help: Seq<char>) -> DiagV {
    DiagV { help: Some(help), ..d }
}

/// The model of `d.with_label(span, message)`.
pub open spec fn with_label_v(d: DiagV, span: Span, message: Seq<char>) -> DiagV {
    DiagV { labels: d.labels.push(LabelV { span, message }), ..d }
}

/// The single-line test form `CODE:line:column: message`.
pub open spec fn compact_spec(code: Seq<char>, line: nat, col: nat, message: Seq<char>) -> Seq<char> {
    code + seq![':'] + nat_text(line) + seq![':'] + nat_text(col) + seq![':', ' '] + message
}

/// The line and column reported for a diagnostic: `(0, 0)` when its file is
/// not in the map.
pub open spec fn reported_position(sources: SourceMap, primary: Span) -> (nat, nat) {
    if (primary.file.0 as int) < sources.files@.len() {
        let bytes = sources.files@[primary.file.0 as int].scanned();
        let off = if (primary.start as int) < bytes.len() { primary.start as int } else { bytes.len() as int };
        let lc = line_col_spec(bytes, off);
        ((lc.0 as usize) as nat, (lc.1 as usize) as nat)
    } else {
        (0, 0)
    }
}

impl Diagnostic {
    /// Creates an error diagnostic with a single primary span.
    pub fn error(code: &'static str, message: &str, primary: Span) -> (d: Diagnostic)
        ensures
            d.code == code,
            d.severity == Severity::Error,
            d.message@ == message@,
            d.primary == primary,
            d.labels@.len() == 0,
            d.help.is_none(),
            d@ == error_v(code@, message@, primary),
    {
        let d = Diagnostic {
            code,
            severity: Severity::Error,
            message: message.to_owned(),
            primary,
            labels: Vec::new(),
            help: None,
        };
        assert(d@.labels =~= Seq::<LabelV>::empty());
        d
    }

    /// Creates a warning diagnostic with a single primary span.
    pub fn warning(code: &'static str, message: &str, primary: Span) -> (d: Diagnostic)
        ensures
            d.code == code,
            d.severity == Severity::Warning,
            d.message@ == message@,
            d.primary == primary,
            d.labels@.len() == 0,
            d.help.is_none(),
    {
        let mut d = Self::error(code, message, primary);
        d.severity = Severity::Warning;
        d
    }

    /// Adds a secondary label.
    pub fn with_label(self, span: Span, message: &str) -> (d: Diagnostic)
        ensures
            d.code == self.code,
            d.severity == self.severity,
            d.message == self.message,
            d.primary == self.primary,
            d.labels@.len() == self.labels@.len() + 1,
            d.labels@.take(self.labels@.len() as int) == self.labels@,
            d.labels@.last().span == span,
            d.labels@.last().message@ == message@,
            d.help == self.help,
            d@ == with_label_v(self@, span, message@),
    {
        let mut d = self;
        d.labels.push(Label::new(span, message));
        assert(d.labels@.take(self.labels@.len() as int) =~= self.labels@);
        assert(d@.labels =~= self@.labels.push(LabelV { span, message: message@ }));
        d
    }

    /// Sets the help sentence.
    pub fn with_help(self, help: &str) -> (d: Diagnostic)
        ensures
            d.code == self.code,
            d.severity == self.severity,
            d.message == self.message,
            d.primary == self.primary,
            d.labels == self.labels,
            d.help.is_some(),
            d.help.unwrap()@ == help@,
            d@ == with_help_v(self@, help@),
    {
        let mut d = self;
        d.help = Some(help.to_owned());
        d
    }

    /// The file the primary span points into.
    pub fn file(&self) -> (id: FileId)
        ensures
            id == self.primary.file,
    {
        self.primary.file
    }

    /// Renders the stable single-line form `CODE:line:column: message`.
    ///
    /// The line and column are 1-based (columns in characters); a file that is
    /// not in `sources` reports `0:0`.
    pub fn render_compact(&self, sources: &SourceMap) -> (s: String)
        ensures
            s@ == compact_spec(self.code@, reported_position(*sources, self.primary).0,
                reported_position(*sources, self.primary).1, self.message@),
    {
        let (line, column) = match sources.file(self.primary.file) {
            Some(file) => file.line_col(self.primary.start),
            None => (0, 0),
        };
        let mut out = String::from_str(self.code);
        out.append(":");
        push_u64(&mut out, line as u64);
        out.append(":");
        push_u64(&mut out, column as u64);
        out.append(": ");
        out.append(self.message.as_str());
        proof {
            reveal_strlit(":");
            reveal_strlit(": ");
        }
        assert(out@ =~= compact_spec(self.code@, reported_position(*sources, self.primary).0,
                reported_position(*sources, self.primary).1, self.message@));
        out
    }

    /// Renders one compact line per diagnostic, each ending in `\n`.
    pub fn render_compact_all(sources: &SourceMap, diagnostics: &[Diagnostic]) -> (s: String)
        ensures
            s@ == compact_all_spec(*sources, diagnostics@),
    {
        let mut out = String::new();
        let mut i: usize = 0;
        while i < diagnostics.len()
            invariant
                i <= diagnostics@.len(),
                out@ == compact_all_spec(*sources, diagnostics@.take(i as int)),
            decreases diagnostics@.len() - i,
        {
            let line = diagnostics[i].render_compact(sources);
            out.append(line.as_str());
            out.append("\n");
            proof {
                reveal_strlit("\n");
                assert(diagnostics@.take(i + 1).drop_last() =~= diagnostics@.take(i as int));
            }
            i = i + 1;
        }
        assert(diagnostics@.take(diagnostics@.len() as int) =~= diagnostics@);
        out
    }
}

/// The compact rendering of one diagnostic.
pub open spec fn compact_one(sources: SourceMap, d: Diagnostic) -> Seq<char> {
    compact_spec(d.code@, reported_position(sources, d.primary).0,
        reported_position(sources, d.primary).1, d.message@)
}

/// One compact line per diagnostic, each followed by `\n`.
pub open spec fn compact_all_spec(sources: SourceMap, ds: Seq<Diagnostic>) -> Seq<char>
    decreases ds.len(),
{
    if ds.len() == 0 {
        Seq::empty()
    } else {
        compact_all_spec(sources, ds.drop_last()) + compact_one(sources, ds.last()) + seq!['\n']
    }
}

} // verus!
