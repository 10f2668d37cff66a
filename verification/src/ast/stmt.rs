//! Statements and blocks.

use vstd::prelude::*;
use crate::span::Span;
use super::expr::Expr;
use super::types::{Pattern, Type};

verus! {

/// A `{ ... }` block.
///
/// A block's value is that of its last expression, if the last statement is
/// an expression.
#[derive(PartialEq, Debug)]
pub struct Block {
    /// Statements in source order.
    pub statements: Vec<Stmt>,
    /// Span of the whole block, including both braces.
    pub span: Span,
}

impl Block {
    /// Creates an empty block with the given span.
    pub fn new(span: Span) -> (b: Block)
        ensures
            b.statements@.len() == 0,
            b.span == span,
    {
        Block { statements: Vec::new(), span }
    }

    /// The trailing expression, when the block ends in one.
    pub fn tail_expr(&self) -> (e: Option<&Expr>)
        ensures
            e == (if self.statements@.len() > 0 && self.statements@.last().kind is Expr {
                Some(&self.statements@.last().kind->Expr_0)
            } else {
                None
            }),
    {
        let n = self.statements.len();
        if n == 0 {
            return None;
        }
        match &self.statements[n - 1].kind {
            StmtKind::Expr(expr) => Some(expr),
            _ => None,
        }
    }
}

/// A statement.
#[derive(PartialEq, Debug)]
pub struct Stmt {
    pub kind: StmtKind,
    pub span: Span,
}

impl Stmt {
    /// Creates a statement node.
    pub fn new(kind: StmtKind, span: Span) -> (s: Stmt)
        ensures
            s.kind == kind,
            s.span == span,
    {
        Stmt { kind, span }
    }
}

/// The statement forms.
#[derive(PartialEq, Debug)]
pub enum StmtKind {
    /// `let [mut] pattern [: Type] = expr`.
    Let { pattern: Pattern, mutable: bool, ty: Option<Type>, value: Expr },
    /// `lvalue (= | += | -= | *= | /=) expr`.
    Assign { target: Expr, op: AssignOp, value: Expr },
    /// `while cond block`.
    While { condition: Expr, body: Block },
    /// `for pattern in iterable block`.
    For { pattern: Pattern, iterable: Expr, body: Block },
    /// `return [expr]`.
    Return(Option<Expr>),
    /// `break`.
    Break,
    /// `continue`.
    Continue,
    /// `fail expr` used as a statement.
    Fail(Expr),
    /// An expression evaluated for its value or effects.
    Expr(Expr),
}

/// The assignment operators.
#[derive(Clone, Copy, PartialEq, Eq, Structural, Debug)]
pub enum AssignOp {
    /// `=`
    Assign,
    /// `+=`
    Add,
    /// `-=`
    Sub,
    /// `*=`
    Mul,
    /// `/=`
    Div,
}

impl AssignOp {
    pub open spec fn spelling(self) -> Seq<char> {
        match self {
            AssignOp::Assign => "="@,
            AssignOp::Add => "+="@,
            AssignOp::Sub => "-="@,
            AssignOp::Mul => "*="@,
            AssignOp::Div => "/="@,
        }
    }

    /// The source spelling.
    pub fn as_str(self) -> (s: &'static str)
        ensures
            s@ == self.spelling(),
    {
        match self {
            AssignOp::Assign => "=",
            AssignOp::Add => "+=",
            AssignOp::Sub => "-=",
            AssignOp::Mul => "*=",
            AssignOp::Div => "/=",
        }
    }
}

} // verus!
