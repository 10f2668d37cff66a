//! The abstract syntax tree.
//!
//! Every node carries a [`Span`](crate::span::Span).
//!
//! Layout:
//! * [`expr`] — expressions;
//! * [`stmt`] — statements and blocks;
//! * [`item`] — top-level items and the program root;
//! * [`types`] — type annotations and patterns.

pub mod expr;
pub mod item;
pub mod stmt;
pub mod types;

pub use expr::{Arg, BinaryOp, Expr, ExprKind, Literal, MatchArm, StrSegment, UnaryOp};
pub use item::{DataDecl, EnumDecl, FieldDecl, FnDecl, Item, ItemKind, Param, Program, UseDecl, VariantDecl};
pub use stmt::{AssignOp, Block, Stmt, StmtKind};
pub use types::{Pattern, PatternKind, Type, TypeKind};
