//! Expressions.

use vstd::prelude::*;
use crate::lexer::token::FloatValue;
use crate::span::Span;
use super::stmt::Block;
use super::types::{Pattern, Type};

verus! {

/// An expression.
#[derive(PartialEq, Debug)]
pub struct Expr {
    pub kind: ExprKind,
    pub span: Span,
}

impl Expr {
    /// Creates an expression node.
    pub fn new(kind: ExprKind, span: Span) -> (e: Expr)
        ensures
            e.kind == kind,
            e.span == span,
    {
        Expr { kind, span }
    }
}

/// One piece of a string literal in the AST.
///
/// An interpolated `{expr}` is parsed into an [`Expr`]; when the string token
/// had a lexical error its text is kept verbatim as [`StrSegment::Raw`] and is
/// never evaluated.
#[derive(PartialEq, Debug)]
pub enum StrSegment {
    /// Literal text with escapes already resolved.
    Lit(String),
    /// An interpolated `{expr}`, parsed; `src` is the text between the braces.
    Expr { src: String, expr: Box<Expr> },
    /// An interpolated `{expr}` kept verbatim.
    Raw(String),
}

impl StrSegment {
    /// The source text of an interpolation (parsed or raw); `None` for a
    /// literal part.
    pub fn interpolation_src(&self) -> (s: Option<&str>)
        ensures
            match self {
                StrSegment::Expr { src, .. } => s matches Some(t) && t@ == src@,
                StrSegment::Raw(src) => s matches Some(t) && t@ == src@,
                StrSegment::Lit(_) => s.is_none(),
            },
    {
        match self {
            StrSegment::Expr { src, .. } => Some(src.as_str()),
            StrSegment::Raw(src) => Some(src.as_str()),
            StrSegment::Lit(_) => None,
        }
    }
}

/// The expression forms.
#[derive(PartialEq, Debug)]
pub enum ExprKind {
    /// A literal.
    Literal(Literal),
    /// A bare identifier, including the contextual `py`.
    Ident(String),
    /// `( expr )`.
    Paren(Box<Expr>),
    /// `{ ... }` — a block, whose value is its last expression.
    Block(Block),
    /// `expr.IDENT` — field access.
    Field { receiver: Box<Expr>, name: String },
    /// `expr?.IDENT` — optional field access.
    OptionalField { receiver: Box<Expr>, name: String },
    /// `expr(arg, ...)` — a call.
    Call { callee: Box<Expr>, args: Vec<Arg> },
    /// `expr[index]` — indexing.
    Index { receiver: Box<Expr>, index: Box<Expr> },
    /// A prefix operator: `-x` or `not x`.
    Unary { op: UnaryOp, operand: Box<Expr> },
    /// A binary operator application.
    Binary { op: BinaryOp, left: Box<Expr>, right: Box<Expr> },
    /// `expr as Type` — an explicit cast.
    Cast { expr: Box<Expr>, ty: Type },
    /// `(a, b)` — a tuple of two or more elements.
    Tuple(Vec<Expr>),
    /// `[a, b, c]` — a list literal.
    List(Vec<Expr>),
    /// `#{k: v, ...}` — a map literal.
    MapLit(Vec<(Expr, Expr)>),
    /// `if cond { .. } else ..` — an expression.
    If { condition: Box<Expr>, then_block: Block, else_branch: Option<Box<Expr>> },
    /// `match scrutinee { arms }` — an expression.
    Match { scrutinee: Box<Expr>, arms: Vec<MatchArm> },
    /// `try expr` — evaluates to a `Result<T, Failure>` and never propagates.
    Try(Box<Expr>),
    /// `fail expr` — raises a `Failure`.
    Fail(Box<Expr>),
    /// `IDENT => expr` or `(a, b) => expr` — a lambda; the body may be a block.
    Lambda { params: Vec<String>, body: Box<Expr> },
}

impl ExprKind {
    /// The receiver of a postfix form (field, optional field, call, index),
    /// if this kind is one.
    pub fn receiver(&self) -> (r: Option<&Expr>)
        ensures
            match self {
                ExprKind::Field { receiver, .. } => r == Some(&**receiver),
                ExprKind::OptionalField { receiver, .. } => r == Some(&**receiver),
                ExprKind::Call { callee, .. } => r == Some(&**callee),
                ExprKind::Index { receiver, .. } => r == Some(&**receiver),
                _ => r.is_none(),
            },
    {
        match self {
            ExprKind::Field { receiver, .. } => Some(&**receiver),
            ExprKind::OptionalField { receiver, .. } => Some(&**receiver),
            ExprKind::Call { callee, .. } => Some(&**callee),
            ExprKind::Index { receiver, .. } => Some(&**receiver),
            _ => None,
        }
    }
}

/// A call argument, optionally named (`timeout: 3`).
#[derive(PartialEq, Debug)]
pub struct Arg {
    /// The parameter name for a named argument.
    pub name: Option<String>,
    pub value: Expr,
    pub span: Span,
}

/// A prefix operator.
#[derive(Clone, Copy, PartialEq, Eq, Structural, Debug)]
pub enum UnaryOp {
    /// `-`
    Neg,
    /// `not`
    Not,
}

impl UnaryOp {
    pub open spec fn spelling(self) -> Seq<char> {
        match self {
            UnaryOp::Neg => "-"@,
            UnaryOp::Not => "not"@,
        }
    }

    /// The source spelling.
    pub fn as_str(self) -> (s: &'static str)
        ensures
            s@ == self.spelling(),
    {
        match self {
            UnaryOp::Neg => "-",
            UnaryOp::Not => "not",
        }
    }
}

/// A binary operator.
#[derive(Clone, Copy, PartialEq, Eq, Structural, Debug)]
pub enum BinaryOp {
    /// `??`
    Coalesce,
    /// `or`
    Or,
    /// `and`
    And,
    /// `==`
    Eq,
    /// `!=`
    NotEq,
    /// `<`
    Lt,
    /// `<=`
    Le,
    /// `>`
    Gt,
    /// `>=`
    Ge,
    /// `..`
    Range,
    /// `..=`
    RangeInclusive,
    /// `+`
    Add,
    /// `-`
    Sub,
    /// `*`
    Mul,
    /// `/`
    Div,
    /// `%`
    Rem,
}

impl BinaryOp {
    pub open spec fn spelling(self) -> Seq<char> {
        match self {
            BinaryOp::Coalesce => "??"@,
            BinaryOp::Or => "or"@,
            BinaryOp::And => "and"@,
            BinaryOp::Eq => "=="@,
            BinaryOp::NotEq => "!="@,
            BinaryOp::Lt => "<"@,
            BinaryOp::Le => "<="@,
            BinaryOp::Gt => ">"@,
            BinaryOp::Ge => ">="@,
            BinaryOp::Range => ".."@,
            BinaryOp::RangeInclusive => "..="@,
            BinaryOp::Add => "+"@,
            BinaryOp::Sub => "-"@,
            BinaryOp::Mul => "*"@,
            BinaryOp::Div => "/"@,
            BinaryOp::Rem => "%"@,
        }
    }

    pub open spec fn spec_is_comparison(self) -> bool {
        self is Eq || self is NotEq || self is Lt || self is Le || self is Gt || self is Ge
    }

    pub open spec fn spec_is_range(self) -> bool {
        self is Range || self is RangeInclusive
    }

    /// The source spelling.
    pub fn as_str(self) -> (s: &'static str)
        ensures
            s@ == self.spelling(),
    {
        match self {
            BinaryOp::Coalesce => "??",
            BinaryOp::Or => "or",
            BinaryOp::And => "and",
            BinaryOp::Eq => "==",
            BinaryOp::NotEq => "!=",
            BinaryOp::Lt => "<",
            BinaryOp::Le => "<=",
            BinaryOp::Gt => ">",
            BinaryOp::Ge => ">=",
            BinaryOp::Range => "..",
            BinaryOp::RangeInclusive => "..=",
            BinaryOp::Add => "+",
            BinaryOp::Sub => "-",
            BinaryOp::Mul => "*",
            BinaryOp::Div => "/",
            BinaryOp::Rem => "%",
        }
    }

    /// Whether this is a comparison (non-associative).
    pub fn is_comparison(self) -> (b: bool)
        ensures
            b == self.spec_is_comparison(),
    {
        match self {
            BinaryOp::Eq | BinaryOp::NotEq | BinaryOp::Lt | BinaryOp::Le | BinaryOp::Gt | BinaryOp::Ge => true,
            _ => false,
        }
    }

    /// Whether this is a range operator (non-associative).
    pub fn is_range(self) -> (b: bool)
        ensures
            b == self.spec_is_range(),
    {
        match self {
            BinaryOp::Range | BinaryOp::RangeInclusive => true,
            _ => false,
        }
    }
}

/// One arm of a `match`.
#[derive(PartialEq, Debug)]
pub struct MatchArm {
    pub pattern: Pattern,
    /// The `if` guard, when present.
    pub guard: Option<Expr>,
    pub body: Expr,
    pub span: Span,
}

/// A literal value.
#[derive(PartialEq, Debug)]
pub enum Literal {
    /// An integer literal, already parsed to `i64` by the lexer.
    Int(i64),
    /// A float literal, with the value the lexer was handed.
    Float(FloatValue),
    /// A string literal, split into literal and interpolated parts.
    Str(Vec<StrSegment>),
    /// `true` / `false`.
    Bool(bool),
    /// The `none` literal.
    NoneLit,
}

} // verus!
