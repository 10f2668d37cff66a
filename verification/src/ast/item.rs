//! Items and the program root.

use vstd::prelude::*;
use crate::span::Span;
use super::expr::Expr;
use super::stmt::Block;
use super::types::Type;

verus! {

/// A whole source file.
#[derive(PartialEq, Debug)]
pub struct Program {
    pub items: Vec<Item>,
    pub span: Span,
}

/// A top-level item.
#[derive(PartialEq, Debug)]
pub struct Item {
    pub kind: ItemKind,
    pub span: Span,
}

impl Item {
    /// Creates an item node.
    pub fn new(kind: ItemKind, span: Span) -> (i: Item)
        ensures
            i.kind == kind,
            i.span == span,
    {
        Item { kind, span }
    }
}

/// The item forms.
#[derive(PartialEq, Debug)]
pub enum ItemKind {
    /// `[pub] fn NAME(params) [-> Type] block`.
    Fn(FnDecl),
    /// `[pub] data NAME { field, ... }`.
    Data(DataDecl),
    /// `[pub] enum NAME { Variant, ... }`.
    Enum(EnumDecl),
    /// `use path [as IDENT]` — a file module import.
    Use(UseDecl),
}

/// A `fn` declaration.
#[derive(PartialEq, Debug)]
pub struct FnDecl {
    pub name: String,
    pub params: Vec<Param>,
    /// The annotated return type, if any. Absent means `()`.
    pub ret: Option<Type>,
    pub body: Block,
    pub public: bool,
    /// Span of the signature, from `fn` through the return type.
    pub signature_span: Span,
}

/// A function parameter.
#[derive(PartialEq, Debug)]
pub struct Param {
    pub name: String,
    pub ty: Type,
    /// A default value, when present.
    pub default: Option<Expr>,
    pub span: Span,
}

/// A `data` declaration.
#[derive(PartialEq, Debug)]
pub struct DataDecl {
    pub name: String,
    pub fields: Vec<FieldDecl>,
    pub public: bool,
    pub span: Span,
}

/// A field of a `data` declaration.
#[derive(PartialEq, Debug)]
pub struct FieldDecl {
    pub name: String,
    pub ty: Type,
    /// A default value, when present.
    pub default: Option<Expr>,
    pub span: Span,
}

/// An `enum` declaration.
#[derive(PartialEq, Debug)]
pub struct EnumDecl {
    pub name: String,
    pub variants: Vec<VariantDecl>,
    pub public: bool,
    pub span: Span,
}

/// A variant of an `enum`.
#[derive(PartialEq, Debug)]
pub struct VariantDecl {
    pub name: String,
    /// Positional payload types, empty for a unit variant.
    pub payload: Vec<Type>,
    pub span: Span,
}

/// A minimal `use` declaration (file modules only).
#[derive(PartialEq, Debug)]
pub struct UseDecl {
    /// The dotted path, e.g. `["util", "math"]`.
    pub path: Vec<String>,
    /// The `as` alias, when present.
    pub alias: Option<String>,
    pub span: Span,
}

} // verus!
