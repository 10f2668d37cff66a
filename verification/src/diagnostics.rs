//! Aggregating diagnostics from the pipeline stages.
//!
//! The lexer runs first and may report errors while still producing
//! best-effort tokens, so later stages find follow-up problems in the same
//! region. [`Diagnostics::new`] takes the lexical diagnostics, and
//! [`Diagnostics::extend_suppressed`] drops any later diagnostic whose primary
//! span intersects a lexical one.

use vstd::prelude::*;
use crate::diagnostic::{Diagnostic, Severity};
use crate::span::Span;

verus! {

/// Whether `span` touches the primary span of one of the lexical diagnostics.
pub open spec fn suppressed_by(keys: Seq<Span>, span: Span) -> bool {
    exists|i: int| 0 <= i < keys.len() && span.spec_intersects(#[trigger] keys[i])
}

/// The later diagnostics that survive suppression, in their order.
pub open spec fn surviving(keys: Seq<Span>, later: Seq<Diagnostic>) -> Seq<Diagnostic>
    decreases later.len(),
{
    if later.len() == 0 {
        Seq::empty()
    } else if suppressed_by(keys, later.last().primary) {
        surviving(keys, later.drop_last())
    } else {
        surviving(keys, later.drop_last()).push(later.last())
    }
}

/// What suppression keeps of the later diagnostics: none that touches a
/// lexical span, in their own order, and all of them when none does.
pub proof fn law_suppression(keys: Seq<Span>, later: Seq<Diagnostic>)
    ensures
        forall|k: int| 0 <= k < surviving(keys, later).len()
            ==> !suppressed_by(keys, #[trigger] surviving(keys, later)[k].primary),
        surviving(keys, later).len() <= later.len(),
        (forall|k: int| 0 <= k < later.len() ==> !suppressed_by(keys, #[trigger] later[k].primary))
            ==> surviving(keys, later) == later,
    decreases later.len(),
{
    if later.len() > 0 {
        let rest = later.drop_last();
        law_suppression(keys, rest);
        let s = surviving(keys, rest);
        if !suppressed_by(keys, later.last().primary) {
            assert forall|k: int| 0 <= k < s.push(later.last()).len()
                implies !suppressed_by(keys, #[trigger] s.push(later.last())[k].primary) by {
                if k < s.len() {
                    assert(s.push(later.last())[k] == s[k]);
                }
            }
        }
        if forall|k: int| 0 <= k < later.len() ==> !suppressed_by(keys, #[trigger] later[k].primary) {
            assert forall|k: int| 0 <= k < rest.len() implies !suppressed_by(keys, #[trigger] rest[k].primary) by {
                assert(rest[k] == later[k]);
            }
            assert(!suppressed_by(keys, later[later.len() - 1].primary));
            assert(later =~= rest.push(later.last()));
        }
    }
}

/// Diagnostics from every stage that has run, in emission order.
///
/// Lexical diagnostics always come first.
#[derive(Clone, Debug)]
pub struct Diagnostics {
    diagnostics: Vec<Diagnostic>,
    lexical_spans: Vec<Span>,
}

impl Diagnostics {
    /// The retained diagnostics, in emission order.
    pub closed spec fn kept(self) -> Seq<Diagnostic> {
        self.diagnostics@
    }

    /// The primary spans of the lexical diagnostics (the suppression keys).
    pub closed spec fn keys(self) -> Seq<Span> {
        self.lexical_spans@
    }

    /// Starts an aggregation with the lexical diagnostics, all of which are
    /// kept and become suppression keys.
    pub fn new(lexical: Vec<Diagnostic>) -> (all: Diagnostics)
        ensures
            all.kept() == lexical@,
            all.keys() == lexical@.map_values(|d: Diagnostic| d.primary),
    {
        let mut spans: Vec<Span> = Vec::new();
        let mut i: usize = 0;
        while i < lexical.len()
            invariant
                i <= lexical@.len(),
                spans@ == lexical@.take(i as int).map_values(|d: Diagnostic| d.primary),
            decreases lexical@.len() - i,
        {
            spans.push(lexical[i].primary);
            assert(lexical@.take(i + 1).map_values(|d: Diagnostic| d.primary)
                =~= lexical@.take(i as int).map_values(|d: Diagnostic| d.primary).push(lexical@[i as int].primary));
            i = i + 1;
        }
        assert(lexical@.take(lexical@.len() as int) =~= lexical@);
        Diagnostics { diagnostics: lexical, lexical_spans: spans }
    }

    /// Adds diagnostics from a later stage, dropping each one whose primary
    /// span intersects a lexical primary span.
    pub fn extend_suppressed(&mut self, later: Vec<Diagnostic>)
        ensures
            final(self).keys() == old(self).keys(),
            final(self).kept() == old(self).kept() + surviving(old(self).keys(), later@),
    {
        let ghost start = self.diagnostics@;
        let mut i: usize = 0;
        let mut later = later;
        let ghost all_later = later@;
        let total = later.len();
        while later.len() > 0
            invariant
                i <= all_later.len(),
                all_later.len() == total,
                i + later@.len() == all_later.len(),
                later@ == all_later.skip(i as int),
                self.lexical_spans@ == old(self).lexical_spans@,
                self.diagnostics@ == start + surviving(old(self).lexical_spans@, all_later.take(i as int)),
            decreases later@.len(),
        {
            let diagnostic = later.remove(0);
            assert(diagnostic == all_later[i as int]);
            assert(all_later.take(i + 1).drop_last() =~= all_later.take(i as int));
            if !self.is_suppressed(diagnostic.primary) {
                self.diagnostics.push(diagnostic);
                assert(self.diagnostics@ =~= start + surviving(old(self).lexical_spans@, all_later.take(i + 1)));
            }
            i = i + 1;
        }
        assert(all_later.take(all_later.len() as int) =~= all_later);
    }

    /// Whether a span is suppressed by a lexical diagnostic.
    pub fn is_suppressed(&self, span: Span) -> (b: bool)
        ensures
            b == suppressed_by(self.keys(), span),
    {
        let mut i: usize = 0;
        while i < self.lexical_spans.len()
            invariant
                i <= self.lexical_spans@.len(),
                forall|k: int| 0 <= k < i ==> !span.spec_intersects(#[trigger] self.lexical_spans@[k]),
            decreases self.lexical_spans@.len() - i,
        {
            if span.intersects(self.lexical_spans[i]) {
                return true;
            }
            i = i + 1;
        }
        false
    }

    /// Whether any retained diagnostic is an error (warnings do not count).
    pub fn has_errors(&self) -> (b: bool)
        ensures
            b == exists|i: int| 0 <= i < self.kept().len() && #[trigger] self.kept()[i].severity == Severity::Error,
    {
        let mut i: usize = 0;
        while i < self.diagnostics.len()
            invariant
                i <= self.diagnostics@.len(),
                forall|k: int| 0 <= k < i ==> #[trigger] self.diagnostics@[k].severity != Severity::Error,
            decreases self.diagnostics@.len() - i,
        {
            if self.diagnostics[i].severity.is_error() {
                return true;
            }
            i = i + 1;
        }
        false
    }

    /// The retained diagnostics, in emission order.
    pub fn as_slice(&self) -> (s: &[Diagnostic])
        ensures
            s@ == self.kept(),
    {
        self.diagnostics.as_slice()
    }

    /// The retained diagnostics, consuming the aggregation.
    pub fn into_vec(self) -> (v: Vec<Diagnostic>)
        ensures
            v@ == self.kept(),
    {
        self.diagnostics
    }

    /// Number of retained diagnostics.
    pub fn len(&self) -> (n: usize)
        ensures
            n == self.kept().len(),
    {
        self.diagnostics.len()
    }

    /// Whether no diagnostic survived.
    pub fn is_empty(&self) -> (b: bool)
        ensures
            b == (self.kept().len() == 0),
    {
        self.diagnostics.len() == 0
    }
}

} // verus!
