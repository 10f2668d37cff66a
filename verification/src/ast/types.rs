//! Type annotations and patterns.

use vstd::prelude::*;
use crate::span::Span;
use super::expr::Literal;

verus! {

/// A type annotation.
#[derive(PartialEq, Debug)]
pub struct Type {
    pub kind: TypeKind,
    pub span: Span,
}

impl Type {
    /// Creates a type node.
    pub fn new(kind: TypeKind, span: Span) -> (t: Type)
        ensures
            t.kind == kind,
            t.span == span,
    {
        Type { kind, span }
    }
}

/// The type forms.
#[derive(PartialEq, Debug)]
pub enum TypeKind {
    /// A named type, possibly generic: `Int`, `Str`, `List<Int>`, `User`.
    Named { name: String, args: Vec<Type> },
    /// `T?` — an optional.
    Optional(Box<Type>),
    /// `()` — Unit.
    Unit,
    /// `(A, B)` — a tuple of two or more.
    Tuple(Vec<Type>),
    /// `fn(A) -> B`.
    Fn { params: Vec<Type>, ret: Box<Type> },
    /// `Py` — the host dynamic type (parsed, not usable yet).
    Py,
}

/// A pattern.
#[derive(PartialEq, Debug)]
pub struct Pattern {
    pub kind: PatternKind,
    pub span: Span,
}

impl Pattern {
    /// Creates a pattern node.
    pub fn new(kind: PatternKind, span: Span) -> (p: Pattern)
        ensures
            p.kind == kind,
            p.span == span,
    {
        Pattern { kind, span }
    }
}

/// The pattern forms.
#[derive(PartialEq, Debug)]
pub enum PatternKind {
    /// `_` — matches anything, binds nothing.
    Wildcard,
    /// A literal pattern, compared structurally.
    Literal(Literal),
    /// A bare identifier: binds the whole value.
    Bind(String),
    /// `Name(p1, p2)` — a variant or `data` constructor pattern.
    Variant { name: String, fields: Vec<Pattern> },
}

} // verus!
