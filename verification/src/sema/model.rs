//! The type checker's behaviour as a function of the program.
//!
//! Checking threads one state through the program: the diagnostics so far,
//! the scopes, the known function signatures and user types, the declared
//! names, the return type of the function being checked and the type
//! expected of the expression being checked. Each function here is one step
//! of [`super::check::Checker`], which is proved to take exactly these steps.

use vstd::prelude::*;
use crate::ast::expr::{Arg, BinaryOp, Expr, ExprKind, Literal, MatchArm, UnaryOp};
use crate::ast::item::{DataDecl, EnumDecl, FieldDecl, FnDecl, Item, ItemKind, Param, VariantDecl};
use crate::ast::stmt::{Block, Stmt, StmtKind};
use crate::ast::types::{Pattern, PatternKind, Type as AstType};
use crate::diagnostic::{DiagV, error_v};
use crate::span::Span;
use crate::text::nat_text;
use super::scopes::{SymV, declare_spec, lookup_spec};
use super::ty::{TyV, resolve_spec, ty_debug, ty_name};

verus! {

// --- State ------------------------------------------------------------------------

/// The model of a declared user type.
pub enum UserTypeV {
    /// A `data` type with named fields, in declaration order.
    Data(Seq<(Seq<char>, TyV)>),
    /// An `enum` with its variants, in declaration order.
    Enum(Seq<VariantV>),
}

/// The model of an enum variant.
pub struct VariantV {
    pub name: Seq<char>,
    pub payload: Seq<TyV>,
}

/// The checker's state.
pub struct CheckerV {
    pub diags: Seq<DiagV>,
    pub scopes: Seq<Seq<SymV>>,
    /// Top-level function signatures, by name.
    pub functions: Seq<(Seq<char>, TyV)>,
    /// Declared `data`/`enum` types, by name.
    pub user_types: Seq<(Seq<char>, UserTypeV)>,
    /// The user-declared top-level names, in order.
    pub declarations: Seq<Seq<char>>,
    /// The return type of the function whose body is being checked.
    pub current_return: Option<TyV>,
    /// The type expected of the expression being checked (for lambdas).
    pub expected: Option<TyV>,
}

/// The entry of `t` named `name`, the first one if several.
pub open spec fn table_get<X>(t: Seq<(Seq<char>, X)>, name: Seq<char>) -> Option<X>
    decreases t.len(),
{
    if t.len() == 0 {
        None
    } else if t[0].0 == name {
        Some(t[0].1)
    } else {
        table_get(t.drop_first(), name)
    }
}

/// The index of the first entry of `t` named `name`, or `t.len()`.
pub open spec fn table_index<X>(t: Seq<(Seq<char>, X)>, name: Seq<char>) -> int
    decreases t.len(),
{
    if t.len() == 0 {
        0
    } else if t[0].0 == name {
        0
    } else {
        1 + table_index(t.drop_first(), name)
    }
}

/// `t` with the entry for `name` set to `x`: replaced in place when there is
/// one, appended otherwise (what a map's insert does to its contents).
pub open spec fn table_put<X>(t: Seq<(Seq<char>, X)>, name: Seq<char>, x: X) -> Seq<(Seq<char>, X)> {
    let i = table_index(t, name);
    if i < t.len() {
        t.update(i, (name, x))
    } else {
        t.push((name, x))
    }
}

/// Reporting an error.
pub open spec fn err(s: CheckerV, code: Seq<char>, msg: Seq<char>, span: Span) -> CheckerV {
    CheckerV { diags: s.diags.push(error_v(code, msg, span)), ..s }
}

pub open spec fn push_scope(s: CheckerV) -> CheckerV {
    CheckerV { scopes: s.scopes.push(Seq::empty()), ..s }
}

pub open spec fn pop_scope(s: CheckerV) -> CheckerV {
    CheckerV { scopes: if s.scopes.len() > 1 { s.scopes.drop_last() } else { s.scopes }, ..s }
}

/// Declaring a symbol in the innermost scope; the flag says whether it was new.
pub open spec fn declare(s: CheckerV, name: Seq<char>, ty: TyV, mutable: bool) -> (CheckerV, bool) {
    let r = declare_spec(s.scopes, SymV { name, ty, mutable });
    (CheckerV { scopes: r.0, ..s }, r.1)
}

/// `` `text` `` — text between backticks.
pub open spec fn ticked(text: Seq<char>) -> Seq<char> {
    seq!['`'] + text + seq!['`']
}

// --- Compatibility ------------------------------------------------------------------

/// Whether each type of `fs` may be used where the matching type of `es` is
/// needed.
pub open spec fn all_assignable(es: Seq<TyV>, fs: Seq<TyV>) -> bool
    decreases es,
{
    if es.len() == 0 {
        true
    } else {
        all_assignable(es.drop_last(), fs.drop_last()) && assignable_spec(es.last(), fs.last())
    }
}

/// Whether a value of type `f` may be used where `e` is needed.
///
/// `Unknown` is compatible both ways; a value may be used where its optional
/// is expected; containers compare element-wise.
pub open spec fn assignable_spec(e: TyV, f: TyV) -> bool
    decreases e,
{
    if e is Unknown || f is Unknown {
        true
    } else if e == f {
        true
    } else {
        match (e, f) {
            (TyV::Optional(ei), TyV::Optional(fi)) => assignable_spec(*ei, *fi),
            (TyV::Optional(ei), _) => assignable_spec(*ei, f),
            (TyV::List(ei), TyV::List(fi)) => assignable_spec(*ei, *fi),
            (TyV::MapOf(ek, ev), TyV::MapOf(fk, fv)) => assignable_spec(*ek, *fk) && assignable_spec(*ev, *fv),
            (TyV::Result(ei), TyV::Result(fi)) => assignable_spec(*ei, *fi),
            (TyV::Tuple(es), TyV::Tuple(fs)) => es.len() == fs.len() && all_assignable(es, fs),
            _ => false,
        }
    }
}

/// The `E0301` mismatch message; when the two names print the same, the
/// internal forms are added to tell them apart.
pub open spec fn mismatch_msg(e: TyV, f: TyV) -> Seq<char> {
    let et = ty_name(e);
    let ft = ty_name(f);
    let base = "expected "@ + ticked(et) + ", found "@ + ticked(ft);
    if et == ft && e != f {
        base + " ("@ + ty_debug(e) + " vs "@ + ty_debug(f) + ")"@
    } else {
        base
    }
}

pub open spec fn mismatch(s: CheckerV, e: TyV, f: TyV, span: Span) -> CheckerV {
    err(s, "E0301"@, mismatch_msg(e, f), span)
}

/// The join of two branch types, reporting when they disagree.
pub open spec fn unify_spec(s: CheckerV, l: TyV, r: TyV, span: Span) -> (CheckerV, TyV) {
    if l is Unknown {
        (s, r)
    } else if r is Unknown {
        (s, l)
    } else if assignable_spec(l, r) {
        (s, l)
    } else if assignable_spec(r, l) {
        (s, r)
    } else if (l is Int || l is Float) && (r is Int || r is Float) {
        (s, TyV::Float)
    } else {
        (mismatch(s, l, r, span), TyV::Unknown)
    }
}

/// Requiring a condition to be `Bool` (there is no truthiness).
pub open spec fn require_bool_spec(s: CheckerV, t: TyV, span: Span) -> CheckerV {
    if !(t is Bool) && !(t is Unknown) {
        err(s, "E0312"@, "condition must be `Bool`, found "@ + ticked(ty_name(t)), span)
    } else {
        s
    }
}

/// Map keys are `Int`, `Str` or `Bool` (or an already-failed `Unknown`).
pub open spec fn valid_map_key(t: TyV) -> bool {
    t is Int || t is Str || t is Bool || t is Unknown
}

/// `Int as Float`, a cast to the same type, and anything involving
/// `Unknown` are allowed.
pub open spec fn cast_allowed_spec(src: TyV, tgt: TyV) -> bool {
    src is Unknown || tgt is Unknown || src == tgt || (src is Int && tgt is Float)
}

/// Whether two types may be compared with `<` and friends.
pub open spec fn comparable_spec(l: TyV, r: TyV) -> bool {
    l is Unknown || r is Unknown || ((l is Int || l is Float) && (r is Int || r is Float)) || (l is Str && r is Str)
}

pub open spec fn is_num(t: TyV) -> bool {
    t is Int || t is Float
}

/// The result of an arithmetic operation: `Float` when either side is
/// `Float`, `Int` otherwise.
pub open spec fn numeric_spec(s: CheckerV, l: TyV, r: TyV, span: Span) -> (CheckerV, TyV) {
    if l is Unknown || r is Unknown {
        (s, TyV::Unknown)
    } else if !is_num(l) {
        (err(s, "E0301"@, ticked(ty_name(l)) + " is not numeric"@, span), TyV::Unknown)
    } else if !is_num(r) {
        (err(s, "E0301"@, ticked(ty_name(r)) + " is not numeric"@, span), TyV::Unknown)
    } else if l is Float || r is Float {
        (s, TyV::Float)
    } else {
        (s, TyV::Int)
    }
}

/// Requiring `t` to be `Int` (or `Unknown`).
pub open spec fn require_int(s: CheckerV, t: TyV, span: Span) -> CheckerV {
    if !(t is Int || t is Unknown) {
        mismatch(s, TyV::Int, t, span)
    } else {
        s
    }
}

pub open spec fn unary_spec(s: CheckerV, op: UnaryOp, t: TyV, span: Span) -> (CheckerV, TyV) {
    match op {
        UnaryOp::Neg => if !is_num(t) && !(t is Unknown) {
            (err(s, "E0301"@, "cannot negate "@ + ticked(ty_name(t)), span), TyV::Unknown)
        } else {
            (s, t)
        },
        UnaryOp::Not => if !(t is Bool) && !(t is Unknown) {
            (err(s, "E0301"@, "`not` expects `Bool`, found "@ + ticked(ty_name(t)), span), TyV::Unknown)
        } else {
            (s, TyV::Bool)
        },
    }
}

/// Requiring `t` to be `Bool` (or `Unknown`) as an operand of `and`/`or`.
pub open spec fn require_bool_operand(s: CheckerV, t: TyV, span: Span) -> CheckerV {
    if !(t is Bool) && !(t is Unknown) {
        mismatch(s, TyV::Bool, t, span)
    } else {
        s
    }
}

/// Requiring `t` to be `Str` (or `Unknown`) as an operand of a concatenation.
pub open spec fn require_str_operand(s: CheckerV, t: TyV, span: Span) -> CheckerV {
    if !(t is Str || t is Unknown) {
        mismatch(s, TyV::Str, t, span)
    } else {
        s
    }
}

pub open spec fn binary_spec(s: CheckerV, op: BinaryOp, l: TyV, r: TyV, span: Span) -> (CheckerV, TyV) {
    match op {
        BinaryOp::Coalesce => match l {
            TyV::Optional(inner) => if !assignable_spec(*inner, r) {
                (mismatch(s, *inner, r, span), *inner)
            } else {
                (s, *inner)
            },
            TyV::Unknown => (s, TyV::Unknown),
            _ => if !assignable_spec(l, r) {
                (mismatch(s, l, r, span), l)
            } else {
                (s, l)
            },
        },
        BinaryOp::Or | BinaryOp::And =>
            (require_bool_operand(require_bool_operand(s, l, span), r, span), TyV::Bool),
        BinaryOp::Eq | BinaryOp::NotEq => if !assignable_spec(l, r) && !assignable_spec(r, l) {
            (mismatch(s, l, r, span), TyV::Bool)
        } else {
            (s, TyV::Bool)
        },
        BinaryOp::Lt | BinaryOp::Le | BinaryOp::Gt | BinaryOp::Ge => if !comparable_spec(l, r) {
            (mismatch(s, l, r, span), TyV::Bool)
        } else {
            (s, TyV::Bool)
        },
        BinaryOp::Range | BinaryOp::RangeInclusive =>
            (require_int(require_int(s, l, span), r, span), TyV::List(Box::new(TyV::Int))),
        BinaryOp::Add => if l is Str || r is Str {
            (require_str_operand(require_str_operand(s, l, span), r, span), TyV::Str)
        } else {
            numeric_spec(s, l, r, span)
        },
        _ => numeric_spec(s, l, r, span),
    }
}

/// The type of `receiver[index]`.
pub open spec fn index_spec(s: CheckerV, recv: TyV, idx: TyV, span: Span) -> (CheckerV, TyV) {
    match recv {
        TyV::List(e) => (require_int(s, idx, span), *e),
        TyV::MapOf(k, v) => if !assignable_spec(*k, idx) {
            (mismatch(s, *k, idx, span), *v)
        } else {
            (s, *v)
        },
        TyV::Str => (require_int(s, idx, span), TyV::Str),
        TyV::Unknown => (s, TyV::Unknown),
        _ => (err(s, "E0303"@, ticked(ty_name(recv)) + " cannot be indexed"@, span), TyV::Unknown),
    }
}

/// The element type iterated by `for`.
pub open spec fn element_spec(s: CheckerV, t: TyV, span: Span) -> (CheckerV, TyV) {
    match t {
        TyV::List(e) => (s, *e),
        TyV::MapOf(k, _) => (s, *k),
        TyV::Unknown => (s, TyV::Unknown),
        _ => (err(s, "E0301"@, ticked(ty_name(t)) + " is not iterable"@, span), TyV::Unknown),
    }
}

/// The type of a literal; a string is always `Str`.
pub open spec fn literal_ty(l: Literal) -> TyV {
    match l {
        Literal::Int(_) => TyV::Int,
        Literal::Float(_) => TyV::Float,
        Literal::Bool(_) => TyV::Bool,
        Literal::NoneLit => TyV::Optional(Box::new(TyV::Unknown)),
        Literal::Str(_) => TyV::Str,
    }
}

/// The first variant called `name` in `vs`.
pub open spec fn find_variant_in(vs: Seq<VariantV>, name: Seq<char>) -> Option<VariantV>
    decreases vs.len(),
{
    if vs.len() == 0 {
        None
    } else if vs[0].name == name {
        Some(vs[0])
    } else {
        find_variant_in(vs.drop_first(), name)
    }
}

/// The enum (in declaration order) with a variant called `name`, and that
/// variant's payload.
pub open spec fn find_variant_spec(uts: Seq<(Seq<char>, UserTypeV)>, name: Seq<char>) -> Option<(Seq<char>, Seq<TyV>)>
    decreases uts.len(),
{
    if uts.len() == 0 {
        None
    } else {
        match uts[0].1 {
            UserTypeV::Enum(vs) => match find_variant_in(vs, name) {
                Some(v) => Some((uts[0].0, v.payload)),
                None => find_variant_spec(uts.drop_first(), name),
            },
            UserTypeV::Data(_) => find_variant_spec(uts.drop_first(), name),
        }
    }
}

/// The type of a name: a binding in scope, then a user type, then an enum
/// variant (a constructor function, or the value itself for a unit variant).
pub open spec fn ident_spec(s: CheckerV, name: Seq<char>, span: Span) -> (CheckerV, TyV) {
    match lookup_spec(s.scopes, name) {
        Some(sym) => (s, sym.ty),
        None => match table_get(s.user_types, name) {
            Some(UserTypeV::Data(_)) => (s, TyV::Data(name)),
            Some(UserTypeV::Enum(_)) => (s, TyV::Enum(name)),
            None => match find_variant_spec(s.user_types, name) {
                Some((e, payload)) => if payload.len() == 0 {
                    (s, TyV::Enum(e))
                } else {
                    (s, TyV::Fn(payload, Box::new(TyV::Enum(e))))
                },
                None => (err(s, "E0201"@, "undefined name "@ + ticked(name), span), TyV::Unknown),
            },
        },
    }
}

/// The first field called `name` in `fields`.
pub open spec fn find_field(fields: Seq<(Seq<char>, TyV)>, name: Seq<char>) -> Option<TyV>
    decreases fields.len(),
{
    if fields.len() == 0 {
        None
    } else if fields[0].0 == name {
        Some(fields[0].1)
    } else {
        find_field(fields.drop_first(), name)
    }
}

/// The type of `receiver.name`.
pub open spec fn field_spec(s: CheckerV, recv: TyV, name: Seq<char>, span: Span) -> (CheckerV, TyV) {
    match recv {
        TyV::Data(tn) => match table_get(s.user_types, tn) {
            Some(UserTypeV::Data(fields)) => match find_field(fields, name) {
                Some(t) => (s, t),
                None => (err(s, "E0304"@, ticked(tn) + " has no field "@ + ticked(name), span), TyV::Unknown),
            },
            _ => (s, TyV::Unknown),
        },
        TyV::Unknown => (s, TyV::Unknown),
        _ => (err(s, "E0304"@, ticked(ty_name(recv)) + " has no field "@ + ticked(name), span), TyV::Unknown),
    }
}

// --- User types in annotations --------------------------------------------------------

pub open spec fn resolve_users(s: CheckerV, ts: Seq<TyV>, span: Span) -> (CheckerV, Seq<TyV>)
    decreases ts,
{
    if ts.len() == 0 {
        (s, Seq::empty())
    } else {
        let (s1, done) = resolve_users(s, ts.drop_last(), span);
        let (s2, t) = resolve_user_spec(s1, ts.last(), span);
        (s2, done.push(t))
    }
}

/// Telling `data` and `enum` names apart inside a resolved annotation,
/// recursively; an undeclared name is `E0201`.
pub open spec fn resolve_user_spec(s: CheckerV, t: TyV, span: Span) -> (CheckerV, TyV)
    decreases t,
{
    match t {
        TyV::Data(name) => match table_get(s.user_types, name) {
            Some(UserTypeV::Data(_)) => (s, TyV::Data(name)),
            Some(UserTypeV::Enum(_)) => (s, TyV::Enum(name)),
            None => (err(s, "E0201"@, "undefined type "@ + ticked(name), span), TyV::Unknown),
        },
        TyV::List(e) => {
            let (s1, e1) = resolve_user_spec(s, *e, span);
            (s1, TyV::List(Box::new(e1)))
        },
        TyV::Optional(i) => {
            let (s1, i1) = resolve_user_spec(s, *i, span);
            (s1, TyV::Optional(Box::new(i1)))
        },
        TyV::Result(o) => {
            let (s1, o1) = resolve_user_spec(s, *o, span);
            (s1, TyV::Result(Box::new(o1)))
        },
        TyV::MapOf(k, v) => {
            let (s1, k1) = resolve_user_spec(s, *k, span);
            let (s2, v1) = resolve_user_spec(s1, *v, span);
            (s2, TyV::MapOf(Box::new(k1), Box::new(v1)))
        },
        TyV::Tuple(es) => {
            let (s1, es1) = resolve_users(s, es, span);
            (s1, TyV::Tuple(es1))
        },
        TyV::Fn(ps, r) => {
            let (s1, ps1) = resolve_users(s, ps, span);
            let (s2, r1) = resolve_user_spec(s1, *r, span);
            (s2, TyV::Fn(ps1, Box::new(r1)))
        },
        _ => (s, t),
    }
}

/// Resolving an annotation fully; a malformed one reports `code` with `msg`
/// at the annotation and is `Unknown`.
pub open spec fn annotation_spec(s: CheckerV, a: AstType, code: Seq<char>, msg: Seq<char>) -> (CheckerV, TyV) {
    match resolve_spec(a) {
        Ok(r) => resolve_user_spec(s, r, a.span),
        Err(_) => (err(s, code, msg, a.span), TyV::Unknown),
    }
}

// --- Declarations ---------------------------------------------------------------------

/// Recording a user-declared top-level name; a repeated one is `E0202`.
pub open spec fn declare_name_spec(s: CheckerV, name: Seq<char>, span: Span) -> (CheckerV, bool) {
    if s.declarations.contains(name) {
        (err(s, "E0202"@, ticked(name) + " is defined more than once"@, span), false)
    } else {
        (CheckerV { declarations: s.declarations.push(name), ..s }, true)
    }
}

pub open spec fn has_field_named(fields: Seq<(Seq<char>, TyV)>, name: Seq<char>) -> bool {
    exists|i: int| 0 <= i < fields.len() && #[trigger] fields[i].0 == name
}

/// The fields of a `data` declaration; a repeated field is `E0202` and
/// dropped.
pub open spec fn data_fields_spec(s: CheckerV, dname: Seq<char>, fs: Seq<FieldDecl>) -> (CheckerV, Seq<(Seq<char>, TyV)>)
    decreases fs.len(),
{
    if fs.len() == 0 {
        (s, Seq::empty())
    } else {
        let (s1, acc) = data_fields_spec(s, dname, fs.drop_last());
        let f = fs.last();
        let (s2, t) = annotation_spec(s1, f.ty, "E0301"@, "invalid type annotation for field "@ + ticked(f.name@));
        if has_field_named(acc, f.name@) {
            (err(s2, "E0202"@, "duplicate field "@ + ticked(f.name@) + " in "@ + ticked(dname), f.span), acc)
        } else {
            (s2, acc.push((f.name@, t)))
        }
    }
}

/// Resolving a variant's payload types; stops at the first malformed one.
pub open spec fn payload_spec(s: CheckerV, ts: Seq<AstType>) -> (CheckerV, Seq<TyV>, bool)
    decreases ts.len(),
{
    if ts.len() == 0 {
        (s, Seq::empty(), true)
    } else {
        let (s1, acc, ok) = payload_spec(s, ts.drop_last());
        if !ok {
            (s1, acc, false)
        } else {
            match resolve_spec(ts.last()) {
                Ok(r) => {
                    let (s2, t) = resolve_user_spec(s1, r, ts.last().span);
                    (s2, acc.push(t), true)
                },
                Err(_) => (s1, acc, false),
            }
        }
    }
}

pub open spec fn has_variant_named(vs: Seq<VariantV>, name: Seq<char>) -> bool {
    exists|i: int| 0 <= i < vs.len() && #[trigger] vs[i].name == name
}

/// The variants of an `enum` declaration; a malformed payload is `E0301`
/// and a repeated variant `E0202`, both dropped.
pub open spec fn enum_variants_spec(s: CheckerV, ename: Seq<char>, vs: Seq<VariantDecl>) -> (CheckerV, Seq<VariantV>)
    decreases vs.len(),
{
    if vs.len() == 0 {
        (s, Seq::empty())
    } else {
        let (s1, acc) = enum_variants_spec(s, ename, vs.drop_last());
        let v = vs.last();
        let (s2, payload, ok) = payload_spec(s1, v.payload@);
        if !ok {
            (err(s2, "E0301"@, "invalid payload type for variant "@ + ticked(v.name@), v.span), acc)
        } else if has_variant_named(acc, v.name@) {
            (err(s2, "E0202"@, "duplicate variant "@ + ticked(v.name@) + " in "@ + ticked(ename), v.span), acc)
        } else {
            (s2, acc.push(VariantV { name: v.name@, payload }))
        }
    }
}

/// Recording every `data`/`enum` and the shape of its fields.
pub open spec fn collect_user_types_spec(s: CheckerV, items: Seq<Item>) -> CheckerV
    decreases items.len(),
{
    if items.len() == 0 {
        s
    } else {
        let s1 = collect_user_types_spec(s, items.drop_last());
        let item = items.last();
        match item.kind {
            ItemKind::Data(decl) => {
                let (s2, ok) = declare_name_spec(s1, decl.name@, item.span);
                if !ok {
                    s2
                } else {
                    let (s3, fields) = data_fields_spec(s2, decl.name@, decl.fields@);
                    CheckerV { user_types: table_put(s3.user_types, decl.name@, UserTypeV::Data(fields)), ..s3 }
                }
            },
            ItemKind::Enum(decl) => {
                let (s2, ok) = declare_name_spec(s1, decl.name@, item.span);
                if !ok {
                    s2
                } else {
                    let (s3, variants) = enum_variants_spec(s2, decl.name@, decl.variants@);
                    CheckerV { user_types: table_put(s3.user_types, decl.name@, UserTypeV::Enum(variants)), ..s3 }
                }
            },
            _ => s1,
        }
    }
}

pub open spec fn param_types_spec(s: CheckerV, ps: Seq<Param>) -> (CheckerV, Seq<TyV>)
    decreases ps.len(),
{
    if ps.len() == 0 {
        (s, Seq::empty())
    } else {
        let (s1, acc) = param_types_spec(s, ps.drop_last());
        let p = ps.last();
        let (s2, t) = annotation_spec(s1, p.ty, "E0301"@, "invalid type annotation for parameter "@ + ticked(p.name@));
        (s2, acc.push(t))
    }
}

/// The `fn(params) -> ret` type of a declaration; no annotation means `()`.
pub open spec fn fn_signature_spec(s: CheckerV, decl: FnDecl) -> (CheckerV, TyV) {
    let (s1, ps) = param_types_spec(s, decl.params@);
    let (s2, r) = match decl.ret {
        Some(a) => annotation_spec(s1, a, "E0301"@, "invalid return type annotation"@),
        None => (s1, TyV::Unit),
    };
    (s2, TyV::Fn(ps, Box::new(r)))
}

/// Recording every function signature and declaring it in the global scope.
pub open spec fn collect_signatures_spec(s: CheckerV, items: Seq<Item>) -> CheckerV
    decreases items.len(),
{
    if items.len() == 0 {
        s
    } else {
        let s1 = collect_signatures_spec(s, items.drop_last());
        let item = items.last();
        match item.kind {
            ItemKind::Fn(decl) => {
                let (s2, ok) = declare_name_spec(s1, decl.name@, item.span);
                if !ok {
                    s2
                } else {
                    let (s3, sig) = fn_signature_spec(s2, decl);
                    let s4 = CheckerV { functions: table_put(s3.functions, decl.name@, sig), ..s3 };
                    let t = match table_get(s4.functions, decl.name@) {
                        Some(t) => t,
                        None => TyV::Unknown,
                    };
                    declare(s4, decl.name@, t, false).0
                }
            },
            _ => s1,
        }
    }
}

/// Declaring one prelude function: recorded as a signature and bound in the
/// global scope.
pub open spec fn install_one(s: CheckerV, name: Seq<char>, ps: Seq<TyV>, r: TyV) -> CheckerV {
    let sig = TyV::Fn(ps, Box::new(r));
    let s1 = CheckerV { functions: table_put(s.functions, name, sig), ..s };
    declare(s1, name, sig, false).0
}

/// The fields of the builtin `Failure` type.
pub open spec fn failure_fields() -> Seq<(Seq<char>, TyV)> {
    seq![("kind"@, TyV::Str), ("message"@, TyV::Str), ("trace"@, TyV::List(Box::new(TyV::Str)))]
}

/// Declaring the implicit prelude and the builtin `Failure` type.
///
/// `print`, `len`, `str`, `int` and `float` take anything; `assert` takes a
/// `Bool`; `range` two `Int`s; `Ok` and `Err` build results.
pub open spec fn install_prelude_spec(s: CheckerV) -> CheckerV {
    let s0 = CheckerV { user_types: table_put(s.user_types, "Failure"@, UserTypeV::Data(failure_fields())), ..s };
    let s1 = install_one(s0, "print"@, seq![TyV::Unknown], TyV::Unit);
    let s2 = install_one(s1, "len"@, seq![TyV::Unknown], TyV::Int);
    let s3 = install_one(s2, "str"@, seq![TyV::Unknown], TyV::Str);
    let s4 = install_one(s3, "int"@, seq![TyV::Unknown], TyV::Int);
    let s5 = install_one(s4, "float"@, seq![TyV::Unknown], TyV::Float);
    let s6 = install_one(s5, "assert"@, seq![TyV::Bool], TyV::Unit);
    let s7 = install_one(s6, "range"@, seq![TyV::Int, TyV::Int], TyV::List(Box::new(TyV::Int)));
    let s8 = install_one(s7, "Ok"@, seq![TyV::Unknown], TyV::Result(Box::new(TyV::Unknown)));
    install_one(s8, "Err"@, seq![TyV::Unknown], TyV::Result(Box::new(TyV::Unknown)))
}

// --- Expressions and statements -------------------------------------------------------

/// Checking `e` with `exp` as the expected type, restoring the previous one.
pub open spec fn cx_expected(s: CheckerV, e: Expr, exp: Option<TyV>) -> (CheckerV, TyV)
    decreases e, 4nat,
{
    let (s1, t) = cx(CheckerV { expected: exp, ..s }, e);
    (CheckerV { expected: s.expected, ..s1 }, t)
}

pub open spec fn cx_tuple(s: CheckerV, es: Seq<Expr>) -> (CheckerV, Seq<TyV>)
    decreases es, 0nat,
{
    if es.len() == 0 {
        (s, Seq::empty())
    } else {
        let (s1, acc) = cx_tuple(s, es.drop_last());
        let (s2, t) = cx(s1, es.last());
        (s2, acc.push(t))
    }
}

/// The elements of a list literal, unified left to right.
pub open spec fn cx_list(s: CheckerV, es: Seq<Expr>) -> (CheckerV, Option<TyV>)
    decreases es, 0nat,
{
    if es.len() == 0 {
        (s, None)
    } else {
        let (s1, acc) = cx_list(s, es.drop_last());
        let (s2, found) = cx(s1, es.last());
        match acc {
            None => (s2, Some(found)),
            Some(prev) => {
                let (s3, u) = unify_spec(s2, prev, found, es.last().span);
                (s3, Some(u))
            },
        }
    }
}

/// The entries of a map literal: keys checked for validity, keys and values
/// unified left to right.
pub open spec fn cx_map(s: CheckerV, es: Seq<(Expr, Expr)>) -> (CheckerV, Option<TyV>, Option<TyV>)
    decreases es, 0nat,
{
    if es.len() == 0 {
        (s, None, None)
    } else {
        let (s1, kacc, vacc) = cx_map(s, es.drop_last());
        let (key, value) = es.last();
        let (s2, fk) = cx(s1, key);
        let s3 = if !valid_map_key(fk) {
            err(s2, "E0301"@, "map keys must be `Int`, `Str` or `Bool`, found "@ + ticked(ty_name(fk)), key.span)
        } else {
            s2
        };
        let (s4, fv) = cx(s3, value);
        let (s5, k2) = match kacc {
            None => (s4, fk),
            Some(prev) => unify_spec(s4, prev, fk, key.span),
        };
        let (s6, v2) = match vacc {
            None => (s5, fv),
            Some(prev) => unify_spec(s5, prev, fv, value.span),
        };
        (s6, Some(k2), Some(v2))
    }
}

/// The arms of a `match`, unified left to right.
pub open spec fn cx_arms(s: CheckerV, arms: Seq<MatchArm>, scrutinee: TyV) -> (CheckerV, Option<TyV>)
    decreases arms, 0nat,
{
    if arms.len() == 0 {
        (s, None)
    } else {
        let (s1, acc) = cx_arms(s, arms.drop_last(), scrutinee);
        let arm = arms.last();
        let s2 = check_pattern_spec(s1, arm.pattern, scrutinee);
        let s3 = match arm.guard {
            Some(g) => {
                let (s_g, gt) = cx(s2, g);
                require_bool_spec(s_g, gt, g.span)
            },
            None => s2,
        };
        let (s4, at) = cx(s3, arm.body);
        match acc {
            None => (s4, Some(at)),
            Some(prev) => {
                let (s5, u) = unify_spec(s4, prev, at, arm.body.span);
                (s5, Some(u))
            },
        }
    }
}

/// The arguments of a call, checked against the parameters by position.
pub open spec fn cx_call_args(s: CheckerV, args: Seq<Arg>, params: Seq<TyV>) -> CheckerV
    decreases args, 0nat,
{
    if args.len() == 0 {
        s
    } else {
        let s1 = cx_call_args(s, args.drop_last(), params);
        let index = args.len() - 1;
        let a = args.last();
        let exp = if index < params.len() { Some(params[index]) } else { None };
        let (s2, found) = cx_expected(s1, a.value, exp);
        match exp {
            Some(e) => if !assignable_spec(e, found) { mismatch(s2, e, found, a.value.span) } else { s2 },
            None => s2,
        }
    }
}

/// Checking only the arguments, when the callee already failed.
pub open spec fn cx_args_plain(s: CheckerV, args: Seq<Arg>) -> CheckerV
    decreases args, 0nat,
{
    if args.len() == 0 {
        s
    } else {
        let s1 = cx_args_plain(s, args.drop_last());
        cx(s1, args.last().value).0
    }
}

/// The arguments of a `data` construction: named ones by field name,
/// positional ones by position.
pub open spec fn cx_construct_args(s: CheckerV, name: Seq<char>, fields: Seq<(Seq<char>, TyV)>, args: Seq<Arg>) -> CheckerV
    decreases args, 0nat,
{
    if args.len() == 0 {
        s
    } else {
        let s1 = cx_construct_args(s, name, fields, args.drop_last());
        let index = args.len() - 1;
        let a = args.last();
        let exp = match a.name {
            Some(f) => find_field(fields, f@),
            None => if index < fields.len() { Some(fields[index].1) } else { None },
        };
        let (s2, found) = cx_expected(s1, a.value, exp);
        match exp {
            Some(e) => if !assignable_spec(e, found) { mismatch(s2, e, found, a.value.span) } else { s2 },
            None => {
                let label = match a.name {
                    Some(f) => f@,
                    None => nat_text(index as nat),
                };
                err(s2, "E0304"@, ticked(name) + " has no field "@ + ticked(label), a.value.span)
            },
        }
    }
}

/// The message of an argument-count mismatch.
pub open spec fn arity_msg(expected: nat, given: nat) -> Seq<char> {
    "this function takes "@ + nat_text(expected) + " argument(s) but "@ + nat_text(given) + " were given"@
}

/// The type of a call; a callee that names a user type constructs a value.
pub open spec fn cx_call(s: CheckerV, e: Expr) -> (CheckerV, TyV)
    decreases e, 2nat,
{
    match e.kind {
        ExprKind::Call { callee, args } => {
            let span = e.span;
            let user = match callee.kind {
                ExprKind::Ident(name) => match table_get(s.user_types, name@) {
                    Some(u) => Some((name@, u)),
                    None => None,
                },
                _ => None,
            };
            match user {
                Some((name, UserTypeV::Data(fields))) => {
                    let s1 = if args@.len() > fields.len() {
                        err(s, "E0302"@, ticked(name) + " has "@ + nat_text(fields.len()) + " field(s) but "@
                            + nat_text(args@.len()) + " argument(s) were given"@, span)
                    } else {
                        s
                    };
                    (cx_construct_args(s1, name, fields, args@), TyV::Data(name))
                },
                Some((name, UserTypeV::Enum(_))) =>
                    (err(s, "E0303"@, ticked(name) + " is an enum; construct a variant instead"@, span), TyV::Unknown),
                None => {
                    let (s1, ct) = cx(s, *callee);
                    match ct {
                        TyV::Fn(params, ret) => {
                            let s2 = if args@.len() != params.len() {
                                err(s1, "E0302"@, arity_msg(params.len(), args@.len()), span)
                            } else {
                                s1
                            };
                            (cx_call_args(s2, args@, params), *ret)
                        },
                        TyV::Unknown => (cx_args_plain(s1, args@), TyV::Unknown),
                        _ => (err(s1, "E0303"@, ticked(ty_name(ct)) + " is not callable"@, callee.span), TyV::Unknown),
                    }
                },
            }
        },
        _ => (s, TyV::Unknown),
    }
}

/// Declaring the lambda's parameters with the expected parameter types.
pub open spec fn lambda_params(s: CheckerV, names: Seq<String>, tys: Seq<TyV>, span: Span) -> CheckerV
    decreases names.len(),
{
    if names.len() == 0 {
        s
    } else {
        let s1 = lambda_params(s, names.drop_last(), tys, span);
        let i = names.len() - 1;
        let (s2, ok) = declare(s1, names.last()@, tys[i], false);
        if !ok {
            err(s2, "E0202"@, "duplicate parameter "@ + ticked(names.last()@), span)
        } else {
            s2
        }
    }
}

/// Checking a lambda against the type expected of it: without an expected
/// function type it is `E0310`, with the wrong arity `E0302`.
pub open spec fn cx_lambda(s: CheckerV, e: Expr, expected: Option<TyV>) -> (CheckerV, TyV)
    decreases e, 2nat,
{
    match e.kind {
        ExprKind::Lambda { params, body } => {
            let span = e.span;
            match expected {
                Some(TyV::Fn(eps, eret)) => if eps.len() != params@.len() {
                    (err(s, "E0302"@, "this function type takes "@ + nat_text(eps.len())
                        + " parameter(s) but the lambda has "@ + nat_text(params@.len()), span), TyV::Unknown)
                } else {
                    let s1 = lambda_params(push_scope(s), params@, eps, span);
                    let (s2, found) = cx_expected(s1, *body, Some(*eret));
                    let s3 = pop_scope(s2);
                    let s4 = if !assignable_spec(*eret, found) { mismatch(s3, *eret, found, body.span) } else { s3 };
                    (s4, TyV::Fn(eps, eret))
                },
                _ => (err(s, "E0310"@, "cannot infer the type of this lambda without an expected function type"@, span),
                    TyV::Unknown),
            }
        },
        _ => (s, TyV::Unknown),
    }
}

/// The type of an expression, and the state after checking it.
pub open spec fn cx(s: CheckerV, e: Expr) -> (CheckerV, TyV)
    decreases e, 3nat,
{
    match e.kind {
        ExprKind::Literal(l) => (s, literal_ty(l)),
        ExprKind::Ident(name) => ident_spec(s, name@, e.span),
        ExprKind::Paren(inner) => cx(s, *inner),
        ExprKind::Block(b) => {
            let (s1, t) = cx_block(s, b);
            (s1, match t { Some(t) => t, None => TyV::Unit })
        },
        ExprKind::Field { receiver, name } => {
            let (s1, rt) = cx(s, *receiver);
            field_spec(s1, rt, name@, e.span)
        },
        ExprKind::OptionalField { receiver, name } => {
            let (s1, rt) = cx(s, *receiver);
            let inner = match rt { TyV::Optional(i) => *i, _ => rt };
            let (s2, ft) = field_spec(s1, inner, name@, e.span);
            (s2, TyV::Optional(Box::new(ft)))
        },
        ExprKind::Call { .. } => cx_call(s, e),
        ExprKind::Index { receiver, index } => {
            let (s1, rt) = cx(s, *receiver);
            let (s2, it) = cx(s1, *index);
            index_spec(s2, rt, it, e.span)
        },
        ExprKind::Unary { op, operand } => {
            let (s1, t) = cx(s, *operand);
            unary_spec(s1, op, t, e.span)
        },
        ExprKind::Binary { op, left, right } => {
            let (s1, lt) = cx(s, *left);
            let (s2, rt) = cx(s1, *right);
            binary_spec(s2, op, lt, rt, e.span)
        },
        ExprKind::Cast { expr, ty } => {
            let (s1, src) = cx(s, *expr);
            match resolve_spec(ty) {
                Ok(r) => {
                    let (s2, tgt) = resolve_user_spec(s1, r, ty.span);
                    if !cast_allowed_spec(src, tgt) {
                        (err(s2, "E0311"@, "cannot cast "@ + ticked(ty_name(src)) + " to "@ + ticked(ty_name(tgt)), e.span), tgt)
                    } else {
                        (s2, tgt)
                    }
                },
                Err(_) => (err(s1, "E0311"@, "invalid cast target type"@, ty.span), TyV::Unknown),
            }
        },
        ExprKind::Tuple(es) => {
            let (s1, ts) = cx_tuple(s, es@);
            (s1, TyV::Tuple(ts))
        },
        ExprKind::List(es) => {
            let (s1, t) = cx_list(s, es@);
            (s1, TyV::List(Box::new(match t { Some(t) => t, None => TyV::Unknown })))
        },
        ExprKind::MapLit(entries) => {
            let (s1, k, v) = cx_map(s, entries@);
            (s1, TyV::MapOf(Box::new(match k { Some(t) => t, None => TyV::Unknown }),
                Box::new(match v { Some(t) => t, None => TyV::Unknown })))
        },
        ExprKind::If { condition, then_block, else_branch } => {
            let (s1, ct) = cx(s, *condition);
            let s2 = require_bool_spec(s1, ct, condition.span);
            let (s3, tt) = cx_block(s2, then_block);
            let then_ty = match tt { Some(t) => t, None => TyV::Unit };
            match else_branch {
                Some(b) => {
                    let (s4, et) = cx(s3, *b);
                    unify_spec(s4, then_ty, et, b.span)
                },
                None => (s3, TyV::Unit),
            }
        },
        ExprKind::Match { scrutinee, arms } => {
            let (s1, st) = cx(s, *scrutinee);
            let (s2, r) = cx_arms(s1, arms@, st);
            (s2, match r { Some(t) => t, None => TyV::Unknown })
        },
        ExprKind::Try(inner) => {
            let (s1, t) = cx(s, *inner);
            (s1, TyV::Result(Box::new(t)))
        },
        ExprKind::Fail(_) => (err(s, "E0407"@, "`fail` is not supported in 0.1.0-alpha"@, e.span), TyV::Unknown),
        ExprKind::Lambda { .. } => cx_lambda(s, e, s.expected),
    }
}

/// Checking a block in a fresh scope; its type is that of its trailing
/// expression, if any.
pub open spec fn cx_block(s: CheckerV, b: Block) -> (CheckerV, Option<TyV>)
    decreases b, 1nat,
{
    let (s1, t) = cx_stmts(push_scope(s), b.statements@);
    (pop_scope(s1), t)
}

/// Checking statements in order; the result is that of the last one.
pub open spec fn cx_stmts(s: CheckerV, ss: Seq<Stmt>) -> (CheckerV, Option<TyV>)
    decreases ss, 0nat,
{
    if ss.len() == 0 {
        (s, None)
    } else {
        let (s1, _) = cx_stmts(s, ss.drop_last());
        cx_stmt(s1, ss.last())
    }
}

/// Declaring what `let` binds.
pub open spec fn declare_pattern_spec(s: CheckerV, p: Pattern, t: TyV, mutable: bool) -> CheckerV {
    match p.kind {
        PatternKind::Bind(name) => {
            let (s1, ok) = declare(s, name@, t, mutable);
            if !ok { err(s1, "E0202"@, "duplicate definition of "@ + ticked(name@), p.span) } else { s1 }
        },
        _ => s,
    }
}

/// Checking that an assignment target is a mutable binding or an index.
pub open spec fn assign_target_spec(s: CheckerV, target: Expr, span: Span) -> CheckerV {
    match target.kind {
        ExprKind::Ident(name) => match lookup_spec(s.scopes, name@) {
            Some(sym) => if !sym.mutable {
                err(s, "E0230"@, "cannot assign to immutable "@ + ticked(name@), span)
            } else {
                s
            },
            None => s,
        },
        ExprKind::Index { .. } => s,
        ExprKind::Field { .. } => s,
        ExprKind::OptionalField { name, .. } => err(s, "E0231"@, "cannot assign to optional field "@ + ticked(name@), span),
        _ => err(s, "E0230"@, "invalid assignment target"@, span),
    }
}

/// Checking a statement; only an expression statement has a type.
pub open spec fn cx_stmt(s: CheckerV, st: Stmt) -> (CheckerV, Option<TyV>)
    decreases st, 0nat,
{
    match st.kind {
        StmtKind::Let { pattern, mutable, ty, value } => {
            let (s1, ann) = match ty {
                Some(a) => {
                    let (s_a, t) = annotation_spec(s, a, "E0301"@, "invalid type annotation"@);
                    (s_a, Some(t))
                },
                None => (s, None),
            };
            let (s2, found) = cx_expected(s1, value, ann);
            let expected = match ann { Some(t) => t, None => found };
            let s3 = if !assignable_spec(expected, found) { mismatch(s2, expected, found, value.span) } else { s2 };
            (declare_pattern_spec(s3, pattern, expected, mutable), None)
        },
        StmtKind::Assign { target, value, .. } => {
            let (s1, found) = cx(s, value);
            let (s2, expected) = cx(s1, target);
            let s3 = assign_target_spec(s2, target, st.span);
            (if !assignable_spec(expected, found) { mismatch(s3, expected, found, value.span) } else { s3 }, None)
        },
        StmtKind::While { condition, body } => {
            let (s1, ct) = cx(s, condition);
            let s2 = require_bool_spec(s1, ct, condition.span);
            (cx_block(s2, body).0, None)
        },
        StmtKind::For { pattern, iterable, body } => {
            let (s1, it) = cx(s, iterable);
            let (s2, elem) = element_spec(s1, it, iterable.span);
            let s3 = declare_pattern_spec(push_scope(s2), pattern, elem, false);
            let (s4, _) = cx_stmts(s3, body.statements@);
            (pop_scope(s4), None)
        },
        StmtKind::Return(value) => {
            let (s1, found) = match value {
                Some(v) => cx_expected(s, v, s.current_return),
                None => (s, TyV::Unit),
            };
            let expected = match s1.current_return { Some(t) => t, None => TyV::Unit };
            let span = match value { Some(v) => v.span, None => st.span };
            (if !(expected is Unknown) && !assignable_spec(expected, found) { mismatch(s1, expected, found, span) } else { s1 },
                None)
        },
        StmtKind::Break => (s, None),
        StmtKind::Continue => (s, None),
        StmtKind::Fail(v) => (cx(s, v).0, None),
        StmtKind::Expr(e) => {
            let (s1, t) = cx(s, e);
            (s1, Some(t))
        },
    }
}

// --- Patterns ---------------------------------------------------------------------------

/// Checking that a unit-variant pattern belongs to the scrutinee's enum.
pub open spec fn unit_variant_pattern_spec(s: CheckerV, name: Seq<char>, scrutinee: TyV, span: Span) -> CheckerV {
    match scrutinee {
        TyV::Enum(en) => {
            let belongs = match table_get(s.user_types, en) {
                Some(UserTypeV::Enum(vs)) => has_variant_named(vs, name),
                _ => false,
            };
            if !belongs { err(s, "E0321"@, ticked(en) + " has no variant "@ + ticked(name), span) } else { s }
        },
        TyV::Unknown => s,
        _ => err(s, "E0301"@, ticked(ty_name(scrutinee)) + " is not an enum, so "@ + ticked(name)
            + " is not a variant"@, span),
    }
}

pub open spec fn check_subpatterns(s: CheckerV, ps: Seq<Pattern>, payload: Seq<TyV>) -> CheckerV
    decreases ps,
{
    if ps.len() == 0 {
        s
    } else {
        let s1 = check_subpatterns(s, ps.drop_last(), payload);
        let i = ps.len() - 1;
        let t = if i < payload.len() { payload[i] } else { TyV::Unknown };
        check_pattern_spec(s1, ps.last(), t)
    }
}

/// Checking a pattern against the scrutinee's type.
///
/// A bare name that matches a declared variant is a variant pattern;
/// anything else binds the value.
pub open spec fn check_pattern_spec(s: CheckerV, p: Pattern, scrutinee: TyV) -> CheckerV
    decreases p,
{
    match p.kind {
        PatternKind::Wildcard => s,
        PatternKind::Bind(name) => match find_variant_spec(s.user_types, name@) {
            Some((_, payload)) => if payload.len() == 0 {
                unit_variant_pattern_spec(s, name@, scrutinee, p.span)
            } else {
                err(s, "E0302"@, "variant "@ + ticked(name@) + " has "@ + nat_text(payload.len())
                    + " field(s) but none were bound"@, p.span)
            },
            None => declare(s, name@, scrutinee, false).0,
        },
        PatternKind::Literal(l) => {
            let lt = literal_ty(l);
            if !assignable_spec(scrutinee, lt) && !assignable_spec(lt, scrutinee) {
                mismatch(s, scrutinee, lt, p.span)
            } else {
                s
            }
        },
        PatternKind::Variant { name, fields } => {
            let payload = match scrutinee {
                TyV::Enum(en) => match table_get(s.user_types, en) {
                    Some(UserTypeV::Enum(vs)) => match find_variant_in(vs, name@) {
                        Some(v) => Some(v.payload),
                        None => None,
                    },
                    _ => None,
                },
                _ => None,
            };
            match payload {
                Some(pl) => {
                    let s1 = if pl.len() != fields@.len() {
                        err(s, "E0302"@, "variant "@ + ticked(name@) + " has "@ + nat_text(pl.len())
                            + " field(s) but "@ + nat_text(fields@.len()) + " were bound"@, p.span)
                    } else {
                        s
                    };
                    check_subpatterns(s1, fields@, pl)
                },
                None => if !(scrutinee is Unknown) {
                    err(s, "E0321"@, ticked(ty_name(scrutinee)) + " has no variant "@ + ticked(name@), p.span)
                } else {
                    s
                },
            }
        },
    }
}

// --- Items --------------------------------------------------------------------------------

/// Checking the default values of a `data` declaration's fields.
pub open spec fn data_defaults_spec(s: CheckerV, dname: Seq<char>, fs: Seq<FieldDecl>) -> CheckerV
    decreases fs.len(),
{
    if fs.len() == 0 {
        s
    } else {
        let s1 = data_defaults_spec(s, dname, fs.drop_last());
        let f = fs.last();
        match f.default {
            None => s1,
            Some(d) => {
                let expected = match table_get(s1.user_types, dname) {
                    Some(UserTypeV::Data(fields)) => match find_field(fields, f.name@) {
                        Some(t) => t,
                        None => TyV::Unknown,
                    },
                    _ => TyV::Unknown,
                };
                let (s2, found) = cx(s1, d);
                if !assignable_spec(expected, found) { mismatch(s2, expected, found, d.span) } else { s2 }
            },
        }
    }
}

/// Declaring a function's parameters and checking their defaults.
pub open spec fn fn_params_spec(s: CheckerV, ps: Seq<Param>, sig: TyV) -> CheckerV
    decreases ps.len(),
{
    if ps.len() == 0 {
        s
    } else {
        let s1 = fn_params_spec(s, ps.drop_last(), sig);
        let index = ps.len() - 1;
        let p = ps.last();
        let t = match sig {
            TyV::Fn(params, _) => if index < params.len() { params[index] } else { TyV::Unknown },
            _ => TyV::Unknown,
        };
        let (s2, ok) = declare(s1, p.name@, t, false);
        let s3 = if !ok { err(s2, "E0202"@, "duplicate parameter "@ + ticked(p.name@), p.span) } else { s2 };
        match p.default {
            Some(d) => {
                let (s4, found) = cx(s3, d);
                if !assignable_spec(t, found) { mismatch(s4, t, found, d.span) } else { s4 }
            },
            None => s3,
        }
    }
}

/// Checking one function body in a fresh scope: it must produce the
/// declared return type when it ends in an expression.
pub open spec fn check_fn_spec(s: CheckerV, decl: FnDecl) -> CheckerV {
    let sig = match table_get(s.functions, decl.name@) { Some(t) => t, None => TyV::Unknown };
    let ret = match sig { TyV::Fn(_, r) => *r, _ => TyV::Unit };
    let s1 = fn_params_spec(push_scope(s), decl.params@, sig);
    let prev = s1.current_return;
    let (s2, body) = cx_block(CheckerV { current_return: Some(ret), ..s1 }, decl.body);
    let s3 = pop_scope(CheckerV { current_return: prev, ..s2 });
    match body {
        Some(t) => if !(ret is Unknown) && !(ret is Unit) && !assignable_spec(ret, t) {
            mismatch(s3, ret, t, decl.body.span)
        } else {
            s3
        },
        None => s3,
    }
}

/// Checking every function body and every `data` default.
pub open spec fn check_items_spec(s: CheckerV, items: Seq<Item>) -> CheckerV
    decreases items.len(),
{
    if items.len() == 0 {
        s
    } else {
        let s1 = check_items_spec(s, items.drop_last());
        match items.last().kind {
            ItemKind::Fn(decl) => check_fn_spec(s1, decl),
            ItemKind::Data(decl) => data_defaults_spec(s1, decl.name@, decl.fields@),
            _ => s1,
        }
    }
}

/// A fresh checker.
pub open spec fn initial_state() -> CheckerV {
    CheckerV {
        diags: Seq::empty(),
        scopes: seq![Seq::empty()],
        functions: Seq::empty(),
        user_types: Seq::empty(),
        declarations: Seq::empty(),
        current_return: None,
        expected: None,
    }
}

/// Checking a whole program: the prelude, then user types, then signatures,
/// then bodies.
pub open spec fn check_program_spec(s: CheckerV, items: Seq<Item>) -> CheckerV {
    let s1 = install_prelude_spec(s);
    let s2 = collect_user_types_spec(s1, items);
    let s3 = collect_signatures_spec(s2, items);
    check_items_spec(s3, items)
}

} // verus!
