//! Name resolution and type checking.
//!
//! * One cause, one diagnostic: a failed sub-expression becomes
//!   [`Ty::Unknown`], which is compatible with everything, so `1 + f(unknown)`
//!   reports the undefined name once.
//! * Determinism: scopes and tables are ordered vectors, so diagnostics come
//!   out in source order.
//!
//! Every step is proved to compute the corresponding function of
//! [`super::model`].

use vstd::prelude::*;
use crate::ast::expr::{Arg, BinaryOp, Expr, ExprKind, Literal, MatchArm, UnaryOp};
use crate::ast::item::{DataDecl, EnumDecl, FieldDecl, FnDecl, Item, ItemKind, Param, Program};
use crate::ast::stmt::{Block, Stmt, StmtKind};
use crate::ast::types::{Pattern, PatternKind, Type as AstType};
use crate::diagnostic::{DiagV, Diagnostic, Severity, diags_view, error_v};
use crate::span::Span;
use crate::text::{nat_text, push_u64, str_eq};
use super::model::{CheckerV, UserTypeV, VariantV, table_get, table_index, table_put, err, push_scope,
    pop_scope, declare, ticked, all_assignable, assignable_spec, mismatch_msg, mismatch, unify_spec,
    require_bool_spec, valid_map_key, cast_allowed_spec, comparable_spec, is_num, numeric_spec, require_int,
    unary_spec, require_bool_operand, require_str_operand, binary_spec, index_spec, element_spec, literal_ty,
    find_variant_in, find_variant_spec, ident_spec, find_field, field_spec, resolve_users, resolve_user_spec,
    annotation_spec, declare_name_spec, has_field_named, data_fields_spec, payload_spec, has_variant_named,
    enum_variants_spec, collect_user_types_spec, param_types_spec, fn_signature_spec,
    collect_signatures_spec, install_one, failure_fields, install_prelude_spec, cx_expected,
    cx_tuple, cx_list, cx_map, cx_arms, cx_call_args, cx_args_plain, cx_construct_args, arity_msg, cx_call,
    lambda_params, cx_lambda, cx, cx_block, cx_stmts, declare_pattern_spec, assign_target_spec, cx_stmt,
    unit_variant_pattern_spec, check_subpatterns, check_pattern_spec, data_defaults_spec, fn_params_spec,
    check_fn_spec, check_items_spec, initial_state, check_program_spec};
use super::scopes::{Scopes, Symbol, SymV, declare_spec, lookup_spec};
use super::ty::{Ty, TyV, duplicate_all, lemma_tys_view_index, lemma_tys_view_len, lemma_tys_view_push,
    lemma_tys_view_take, push_debug, push_name, resolve_spec, resolve_type, resolved_view, ty_debug, ty_eq,
    ty_name, tys_view};

verus! {

// --- Tables ---------------------------------------------------------------------------

/// A declared user type.
#[derive(PartialEq, Debug)]
pub enum UserType {
    /// A `data` type with named fields, in declaration order.
    Data { fields: Vec<(String, Ty)> },
    /// An `enum` with its variants, in declaration order.
    Enum { variants: Vec<EnumVariant> },
}

/// One variant of an enum.
#[derive(PartialEq, Debug)]
pub struct EnumVariant {
    pub name: String,
    pub payload: Vec<Ty>,
}

pub open spec fn fields_view(fs: Seq<(String, Ty)>) -> Seq<(Seq<char>, TyV)> {
    fs.map_values(|f: (String, Ty)| (f.0@, f.1@))
}

pub open spec fn variant_view(v: EnumVariant) -> VariantV {
    VariantV { name: v.name@, payload: tys_view(v.payload@) }
}

pub open spec fn variants_view(vs: Seq<EnumVariant>) -> Seq<VariantV> {
    vs.map_values(|v: EnumVariant| variant_view(v))
}

impl View for UserType {
    type V = UserTypeV;

    open spec fn view(&self) -> UserTypeV {
        match self {
            UserType::Data { fields } => UserTypeV::Data(fields_view(fields@)),
            UserType::Enum { variants } => UserTypeV::Enum(variants_view(variants@)),
        }
    }
}

pub open spec fn user_types_view(us: Seq<(String, UserType)>) -> Seq<(Seq<char>, UserTypeV)> {
    us.map_values(|u: (String, UserType)| (u.0@, u.1@))
}

pub open spec fn opt_ty_view(o: Option<Ty>) -> Option<TyV> {
    match o {
        Some(t) => Some(t@),
        None => None,
    }
}

/// A copy of a list of fields.
fn duplicate_fields(fs: &Vec<(String, Ty)>) -> (r: Vec<(String, Ty)>)
    ensures
        fields_view(r@) == fields_view(fs@),
{
    let mut r: Vec<(String, Ty)> = Vec::new();
    let mut i: usize = 0;
    while i < fs.len()
        invariant
            i <= fs@.len(),
            fields_view(r@) == fields_view(fs@.take(i as int)),
        decreases fs@.len() - i,
    {
        let f = &fs[i];
        let name = f.0.clone();
        let ty = f.1.duplicate();
        let ghost r0 = r@;
        r.push((name, ty));
        proof {
            assert(fs@.take(i + 1) =~= fs@.take(i as int).push(fs@[i as int]));
            assert(fields_view(r@) =~= fields_view(r0).push((fs@[i as int].0@, fs@[i as int].1@)));
            assert(fields_view(fs@.take(i + 1)) =~= fields_view(fs@.take(i as int)).push((fs@[i as int].0@, fs@[i as int].1@)));
        }
        i = i + 1;
    }
    assert(fs@.take(i as int) =~= fs@);
    r
}

impl EnumVariant {
    /// A copy of this variant.
    pub fn duplicate(&self) -> (r: EnumVariant)
        ensures
            variant_view(r) == variant_view(*self),
    {
        EnumVariant { name: self.name.clone(), payload: duplicate_all(&self.payload) }
    }
}

impl UserType {
    /// A copy of this user type.
    pub fn duplicate(&self) -> (r: UserType)
        ensures
            r@ == self@,
    {
        match self {
            UserType::Data { fields } => UserType::Data { fields: duplicate_fields(fields) },
            UserType::Enum { variants } => {
                let mut r: Vec<EnumVariant> = Vec::new();
                let mut i: usize = 0;
                while i < variants.len()
                    invariant
                        i <= variants@.len(),
                        variants_view(r@) == variants_view(variants@.take(i as int)),
                    decreases variants@.len() - i,
                {
                    let v = variants[i].duplicate();
                    let ghost r0 = r@;
                    r.push(v);
                    proof {
                        assert(variants@.take(i + 1) =~= variants@.take(i as int).push(variants@[i as int]));
                        assert(variants_view(r@) =~= variants_view(r0).push(variant_view(variants@[i as int])));
                        assert(variants_view(variants@.take(i + 1))
                            =~= variants_view(variants@.take(i as int)).push(variant_view(variants@[i as int])));
                    }
                    i = i + 1;
                }
                assert(variants@.take(i as int) =~= variants@);
                UserType::Enum { variants: r }
            },
        }
    }
}

/// The index of the first entry named `name`, or the table's length.
fn table_find<X>(t: &Vec<(String, X)>, name: &str) -> (i: usize)
    ensures
        i as int == table_index(t@.map_values(|e: (String, X)| (e.0@, ())), name@),
        i <= t@.len(),
        i < t@.len() ==> t@[i as int].0@ == name@,
{
    let ghost keys = t@.map_values(|e: (String, X)| (e.0@, ()));
    let mut i: usize = 0;
    assert(keys.skip(0) =~= keys);
    while i < t.len()
        invariant
            i <= t@.len(),
            keys == t@.map_values(|e: (String, X)| (e.0@, ())),
            table_index(keys, name@) == i + table_index(keys.skip(i as int), name@),
        decreases t@.len() - i,
    {
        proof {
            assert(keys.skip(i as int)[0] == keys[i as int]);
            assert(keys.skip(i as int).drop_first() =~= keys.skip(i + 1));
        }
        if str_eq(t[i].0.as_str(), name) {
            return i;
        }
        i = i + 1;
    }
    assert(keys.skip(i as int).len() == 0);
    i
}

/// `table_index` only looks at the keys.
proof fn lemma_table_index_keys<X, Y>(a: Seq<(Seq<char>, X)>, b: Seq<(Seq<char>, Y)>, name: Seq<char>)
    requires
        a.len() == b.len(),
        forall|k: int| 0 <= k < a.len() ==> #[trigger] a[k].0 == b[k].0,
    ensures
        table_index(a, name) == table_index(b, name),
    decreases a.len(),
{
    if a.len() > 0 && a[0].0 != name {
        assert(a[0].0 == b[0].0);
        assert forall|k: int| 0 <= k < a.drop_first().len() implies #[trigger] a.drop_first()[k].0 == b.drop_first()[k].0 by {
            assert(a[k + 1].0 == b[k + 1].0);
        }
        lemma_table_index_keys(a.drop_first(), b.drop_first(), name);
    } else if a.len() > 0 {
        assert(a[0].0 == b[0].0);
    }
}

/// The first entry named `name` is the one at its index.
proof fn lemma_table_get_index<X>(t: Seq<(Seq<char>, X)>, name: Seq<char>)
    ensures
        0 <= table_index(t, name) <= t.len(),
        table_index(t, name) < t.len() ==> t[table_index(t, name)].0 == name
            && table_get(t, name) == Some(t[table_index(t, name)].1),
        table_index(t, name) == t.len() ==> table_get(t, name).is_none(),
    decreases t.len(),
{
    if t.len() > 0 && t[0].0 != name {
        lemma_table_get_index(t.drop_first(), name);
    }
}

// --- The checker --------------------------------------------------------------------

/// The result of checking a program.
#[derive(Debug)]
pub struct CheckResult {
    /// Diagnostics in source order.
    pub diagnostics: Vec<Diagnostic>,
    /// The type of each top-level function, by name, in declaration order
    /// (the prelude first).
    pub functions: Vec<(String, Ty)>,
}

impl CheckResult {
    /// Whether any error was reported.
    pub fn has_errors(&self) -> (b: bool)
        ensures
            b == exists|i: int| 0 <= i < self.diagnostics@.len() && (#[trigger] self.diagnostics@[i]).severity == Severity::Error,
    {
        let mut i: usize = 0;
        while i < self.diagnostics.len()
            invariant
                i <= self.diagnostics@.len(),
                forall|k: int| 0 <= k < i ==> (#[trigger] self.diagnostics@[k]).severity != Severity::Error,
            decreases self.diagnostics@.len() - i,
        {
            if self.diagnostics[i].severity.is_error() {
                return true;
            }
            i = i + 1;
        }
        false
    }
}

/// Checks a whole program: names first, then types.
///
/// Two passes are needed because a function may call one declared later, and
/// a `data` type may be mentioned before its declaration.
pub struct Checker {
    diagnostics: Vec<Diagnostic>,
    scopes: Scopes,
    /// Signatures of top-level functions, filled by the first pass.
    functions: Vec<(String, Ty)>,
    /// User-declared `data`/`enum` types.
    user_types: Vec<(String, UserType)>,
    /// Where each declared name was defined.
    declarations: Vec<(String, Span)>,
    /// The return type of the function whose body is being checked.
    current_return: Option<Ty>,
    /// The type expected of the expression being checked (for lambdas).
    expected: Option<Ty>,
}

impl View for Checker {
    type V = CheckerV;

    closed spec fn view(&self) -> CheckerV {
        CheckerV {
            diags: diags_view(self.diagnostics@),
            scopes: self.scopes@,
            functions: fields_view(self.functions@),
            user_types: user_types_view(self.user_types@),
            declarations: self.declarations@.map_values(|d: (String, Span)| d.0@),
            current_return: opt_ty_view(self.current_return),
            expected: opt_ty_view(self.expected),
        }
    }
}

impl Checker {
    /// Creates an empty checker.
    pub fn new() -> (c: Checker)
        ensures
            c@ == initial_state(),
    {
        let c = Checker {
            diagnostics: Vec::new(),
            scopes: Scopes::new(),
            functions: Vec::new(),
            user_types: Vec::new(),
            declarations: Vec::new(),
            current_return: None,
            expected: None,
        };
        assert(c@.diags =~= Seq::<DiagV>::empty());
        assert(c@.functions =~= Seq::<(Seq<char>, TyV)>::empty());
        assert(c@.user_types =~= Seq::<(Seq<char>, UserTypeV)>::empty());
        assert(c@.declarations =~= Seq::<Seq<char>>::empty());
        c
    }

    /// Pushes an error diagnostic.
    fn error(&mut self, code: &'static str, message: &str, span: Span)
        ensures
            final(self)@ == err(old(self)@, code@, message@, span),
    {
        self.diagnostics.push(Diagnostic::error(code, message, span));
        assert(diags_view(self.diagnostics@) =~= diags_view(old(self).diagnostics@).push(error_v(code@, message@, span)));
    }

    /// Whether a value of type `found` may be used where `expected` is needed.
    ///
    /// `Unknown` is compatible in both directions: it means "a mistake was
    /// already reported".
    pub fn assignable(&self, expected: &Ty, found: &Ty) -> (b: bool)
        ensures
            b == assignable_spec(expected@, found@),
        decreases *expected,
    {
        if expected.is_unknown() || found.is_unknown() {
            return true;
        }
        if ty_eq(expected, found) {
            return true;
        }
        match (expected, found) {
            (Ty::Optional(ei), Ty::Optional(fi)) => self.assignable(ei, fi),
            (Ty::Optional(ei), _) => self.assignable(ei, found),
            (Ty::List(ei), Ty::List(fi)) => self.assignable(ei, fi),
            (Ty::MapOf(ek, ev), Ty::MapOf(fk, fv)) => self.assignable(ek, fk) && self.assignable(ev, fv),
            (Ty::Result(ei), Ty::Result(fi)) => self.assignable(ei, fi),
            (Ty::Tuple(es), Ty::Tuple(fs)) => {
                proof {
                    lemma_tys_view_len(es@);
                    lemma_tys_view_len(fs@);
                }
                es.len() == fs.len() && self.all_assignable(es, fs)
            },
            _ => false,
        }
    }

    /// Whether each of `fs` may be used where the matching one of `es` is
    /// needed.
    fn all_assignable(&self, es: &Vec<Ty>, fs: &Vec<Ty>) -> (b: bool)
        requires
            es@.len() == fs@.len(),
        ensures
            b == all_assignable(tys_view(es@), tys_view(fs@)),
        decreases es@,
    {
        proof {
            lemma_tys_view_len(es@);
            lemma_tys_view_len(fs@);
        }
        let mut i: usize = 0;
        while i < es.len()
            invariant
                i <= es@.len(),
                es@.len() == fs@.len(),
                tys_view(es@).len() == es@.len(),
                tys_view(fs@).len() == fs@.len(),
                all_assignable(tys_view(es@.take(i as int)), tys_view(fs@.take(i as int))),
            decreases es@.len() - i,
        {
            proof {
                assert(decreases_to!(es@ => es@[i as int]));
            }
            let ok = self.assignable(&es[i], &fs[i]);
            proof {
                lemma_tys_view_push(es@.take(i as int), es@[i as int]);
                lemma_tys_view_push(fs@.take(i as int), fs@[i as int]);
                assert(es@.take(i + 1) =~= es@.take(i as int).push(es@[i as int]));
                assert(fs@.take(i + 1) =~= fs@.take(i as int).push(fs@[i as int]));
                lemma_tys_view_len(es@.take(i as int));
                lemma_tys_view_len(fs@.take(i as int));
                let a = tys_view(es@.take(i + 1));
                let b = tys_view(fs@.take(i + 1));
                assert(a.drop_last() =~= tys_view(es@.take(i as int)));
                assert(b.drop_last() =~= tys_view(fs@.take(i as int)));
                lemma_tys_view_take(es@, i + 1);
                lemma_tys_view_take(fs@, i + 1);
            }
            if !ok {
                proof {
                    lemma_all_assignable_prefix(tys_view(es@), tys_view(fs@), i + 1);
                }
                return false;
            }
            i = i + 1;
        }
        assert(es@.take(i as int) =~= es@);
        assert(fs@.take(i as int) =~= fs@);
        true
    }
}

/// A list fails to be assignable when a prefix of it fails.
proof fn lemma_all_assignable_prefix(es: Seq<TyV>, fs: Seq<TyV>, k: int)
    requires
        0 <= k <= es.len(),
        es.len() == fs.len(),
        !all_assignable(es.take(k), fs.take(k)),
    ensures
        !all_assignable(es, fs),
    decreases es.len() - k,
{
    if k < es.len() {
        assert(es.take(k + 1).drop_last() =~= es.take(k));
        assert(fs.take(k + 1).drop_last() =~= fs.take(k));
        lemma_all_assignable_prefix(es, fs, k + 1);
    } else {
        assert(es.take(k) =~= es);
        assert(fs.take(k) =~= fs);
    }
}

// --- Messages ------------------------------------------------------------------------

/// Appends `` `text` ``.
fn push_ticked(out: &mut String, text: &str)
    ensures
        final(out)@ == old(out)@ + ticked(text@),
{
    crate::text::push_char(out, '`');
    out.append(text);
    crate::text::push_char(out, '`');
    assert(out@ =~= old(out)@ + ticked(text@));
}

/// Appends the name of `t` between backticks.
fn push_ticked_ty(out: &mut String, t: &Ty)
    ensures
        final(out)@ == old(out)@ + ticked(ty_name(t@)),
{
    crate::text::push_char(out, '`');
    push_name(out, t);
    crate::text::push_char(out, '`');
    assert(out@ =~= old(out)@ + ticked(ty_name(t@)));
}

/// `prefix` followed by the name of `t` between backticks.
fn msg_ty(prefix: &str, t: &Ty) -> (m: String)
    ensures
        m@ == prefix@ + ticked(ty_name(t@)),
{
    let mut m = String::new();
    m.append(prefix);
    push_ticked_ty(&mut m, t);
    assert(m@ =~= prefix@ + ticked(ty_name(t@)));
    m
}

/// The name of `t` between backticks followed by `suffix`.
fn msg_ty_then(t: &Ty, suffix: &str) -> (m: String)
    ensures
        m@ == ticked(ty_name(t@)) + suffix@,
{
    let mut m = String::new();
    push_ticked_ty(&mut m, t);
    m.append(suffix);
    assert(m@ =~= ticked(ty_name(t@)) + suffix@);
    m
}

/// `prefix` followed by `text` between backticks.
fn msg_name(prefix: &str, text: &str) -> (m: String)
    ensures
        m@ == prefix@ + ticked(text@),
{
    let mut m = String::new();
    m.append(prefix);
    push_ticked(&mut m, text);
    assert(m@ =~= prefix@ + ticked(text@));
    m
}

/// `text` between backticks followed by `suffix`.
fn msg_name_then(text: &str, suffix: &str) -> (m: String)
    ensures
        m@ == ticked(text@) + suffix@,
{
    let mut m = String::new();
    push_ticked(&mut m, text);
    m.append(suffix);
    assert(m@ =~= ticked(text@) + suffix@);
    m
}

/// `a` between backticks, `mid`, then `b` between backticks.
fn msg_two(a: &str, mid: &str, b: &str) -> (m: String)
    ensures
        m@ == ticked(a@) + mid@ + ticked(b@),
{
    let mut m = String::new();
    push_ticked(&mut m, a);
    m.append(mid);
    push_ticked(&mut m, b);
    assert(m@ =~= ticked(a@) + mid@ + ticked(b@));
    m
}

impl Checker {
    /// Reports a type mismatch; when both names print the same, the
    /// internal forms are added.
    fn type_mismatch(&mut self, expected: &Ty, found: &Ty, span: Span)
        ensures
            final(self)@ == mismatch(old(self)@, expected@, found@, span),
    {
        let et = expected.name();
        let ft = found.name();
        let mut m = String::new();
        m.append("expected ");
        push_ticked(&mut m, et.as_str());
        m.append(", found ");
        push_ticked(&mut m, ft.as_str());
        let ghost base = m@;
        if str_eq(et.as_str(), ft.as_str()) && !ty_eq(expected, found) {
            m.append(" (");
            push_debug(&mut m, expected);
            m.append(" vs ");
            push_debug(&mut m, found);
            m.append(")");
        }
        assert(m@ =~= mismatch_msg(expected@, found@));
        self.error("E0301", m.as_str(), span);
    }

    /// The join of two branch types, reporting when they disagree.
    fn unify(&mut self, left: &Ty, right: &Ty, span: Span) -> (t: Ty)
        ensures
            (final(self)@, t@) == unify_spec(old(self)@, left@, right@, span),
    {
        if left.is_unknown() {
            return right.duplicate();
        }
        if right.is_unknown() {
            return left.duplicate();
        }
        if self.assignable(left, right) {
            return left.duplicate();
        }
        if self.assignable(right, left) {
            return right.duplicate();
        }
        if left.is_numeric() && right.is_numeric() {
            return Ty::Float;
        }
        self.type_mismatch(left, right, span);
        Ty::Unknown
    }

    /// Requires a condition to be `Bool`.
    fn require_bool(&mut self, ty: &Ty, span: Span)
        ensures
            final(self)@ == require_bool_spec(old(self)@, ty@, span),
    {
        if !ty.is_bool() && !ty.is_unknown() {
            let m = msg_ty("condition must be `Bool`, found ", ty);
            self.error("E0312", m.as_str(), span);
        }
    }

    /// Whether `ty` can be a `Map` key.
    fn is_valid_map_key(&self, ty: &Ty) -> (b: bool)
        ensures
            b == valid_map_key(ty@),
    {
        match ty {
            Ty::Int | Ty::Str | Ty::Bool | Ty::Unknown => true,
            _ => false,
        }
    }

    /// Whether `source as target` is an allowed conversion.
    fn cast_allowed(&self, source: &Ty, target: &Ty) -> (b: bool)
        ensures
            b == cast_allowed_spec(source@, target@),
    {
        if source.is_unknown() || target.is_unknown() {
            return true;
        }
        if ty_eq(source, target) {
            return true;
        }
        match (source, target) {
            (Ty::Int, Ty::Float) => true,
            _ => false,
        }
    }

    /// Whether two types may be compared with `<` and friends.
    fn comparable(&self, left: &Ty, right: &Ty) -> (b: bool)
        ensures
            b == comparable_spec(left@, right@),
    {
        left.is_unknown() || right.is_unknown() || (left.is_numeric() && right.is_numeric())
            || (matches!(left, Ty::Str) && matches!(right, Ty::Str))
    }

    /// The result of an arithmetic operation on two operands.
    fn numeric_result(&mut self, left: &Ty, right: &Ty, span: Span) -> (t: Ty)
        ensures
            (final(self)@, t@) == numeric_spec(old(self)@, left@, right@, span),
    {
        if left.is_unknown() || right.is_unknown() {
            return Ty::Unknown;
        }
        if !left.is_numeric() {
            let m = msg_ty_then(left, " is not numeric");
            self.error("E0301", m.as_str(), span);
            return Ty::Unknown;
        }
        if !right.is_numeric() {
            let m = msg_ty_then(right, " is not numeric");
            self.error("E0301", m.as_str(), span);
            return Ty::Unknown;
        }
        if matches!(left, Ty::Float) || matches!(right, Ty::Float) {
            Ty::Float
        } else {
            Ty::Int
        }
    }

    /// Requires `t` to be `Int` (or `Unknown`).
    fn require_int(&mut self, t: &Ty, span: Span)
        ensures
            final(self)@ == require_int(old(self)@, t@, span),
    {
        if !matches!(t, Ty::Int | Ty::Unknown) {
            self.type_mismatch(&Ty::Int, t, span);
        }
    }

    /// The type of a prefix operation.
    fn unary_type(&mut self, op: UnaryOp, operand: &Ty, span: Span) -> (t: Ty)
        ensures
            (final(self)@, t@) == unary_spec(old(self)@, op, operand@, span),
    {
        match op {
            UnaryOp::Neg => {
                if !operand.is_numeric() && !operand.is_unknown() {
                    let m = msg_ty("cannot negate ", operand);
                    self.error("E0301", m.as_str(), span);
                    return Ty::Unknown;
                }
                operand.duplicate()
            },
            UnaryOp::Not => {
                if !operand.is_bool() && !operand.is_unknown() {
                    let m = msg_ty("`not` expects `Bool`, found ", operand);
                    self.error("E0301", m.as_str(), span);
                    return Ty::Unknown;
                }
                Ty::Bool
            },
        }
    }

    /// The type of a binary operation.
    fn binary_type(&mut self, op: BinaryOp, left: &Ty, right: &Ty, span: Span) -> (t: Ty)
        ensures
            (final(self)@, t@) == binary_spec(old(self)@, op, left@, right@, span),
    {
        match op {
            BinaryOp::Coalesce => {
                match left {
                    Ty::Optional(inner) => {
                        if !self.assignable(inner, right) {
                            self.type_mismatch(inner, right, span);
                        }
                        inner.duplicate()
                    },
                    Ty::Unknown => Ty::Unknown,
                    _ => {
                        if !self.assignable(left, right) {
                            self.type_mismatch(left, right, span);
                        }
                        left.duplicate()
                    },
                }
            },
            BinaryOp::Or | BinaryOp::And => {
                if !left.is_bool() && !left.is_unknown() {
                    self.type_mismatch(&Ty::Bool, left, span);
                }
                if !right.is_bool() && !right.is_unknown() {
                    self.type_mismatch(&Ty::Bool, right, span);
                }
                Ty::Bool
            },
            BinaryOp::Eq | BinaryOp::NotEq => {
                if !self.assignable(left, right) && !self.assignable(right, left) {
                    self.type_mismatch(left, right, span);
                }
                Ty::Bool
            },
            BinaryOp::Lt | BinaryOp::Le | BinaryOp::Gt | BinaryOp::Ge => {
                if !self.comparable(left, right) {
                    self.type_mismatch(left, right, span);
                }
                Ty::Bool
            },
            BinaryOp::Range | BinaryOp::RangeInclusive => {
                self.require_int(left, span);
                self.require_int(right, span);
                proof {
                    reveal_with_fuel(super::ty::ty_view, 2);
                }
                Ty::List(Box::new(Ty::Int))
            },
            BinaryOp::Add => {
                if matches!(left, Ty::Str) || matches!(right, Ty::Str) {
                    if !matches!(left, Ty::Str | Ty::Unknown) {
                        self.type_mismatch(&Ty::Str, left, span);
                    }
                    if !matches!(right, Ty::Str | Ty::Unknown) {
                        self.type_mismatch(&Ty::Str, right, span);
                    }
                    return Ty::Str;
                }
                self.numeric_result(left, right, span)
            },
            BinaryOp::Sub | BinaryOp::Mul | BinaryOp::Div | BinaryOp::Rem => self.numeric_result(left, right, span),
        }
    }

    /// The type of `receiver[index]`.
    fn index_type(&mut self, receiver: &Ty, index: &Ty, span: Span) -> (t: Ty)
        ensures
            (final(self)@, t@) == index_spec(old(self)@, receiver@, index@, span),
    {
        match receiver {
            Ty::List(element) => {
                self.require_int(index, span);
                element.duplicate()
            },
            Ty::MapOf(key, value) => {
                if !self.assignable(key, index) {
                    self.type_mismatch(key, index, span);
                }
                value.duplicate()
            },
            Ty::Str => {
                self.require_int(index, span);
                Ty::Str
            },
            Ty::Unknown => Ty::Unknown,
            _ => {
                let m = msg_ty_then(receiver, " cannot be indexed");
                self.error("E0303", m.as_str(), span);
                Ty::Unknown
            },
        }
    }

    /// The element type iterated by `for`.
    fn element_type(&mut self, ty: &Ty, span: Span) -> (t: Ty)
        ensures
            (final(self)@, t@) == element_spec(old(self)@, ty@, span),
    {
        match ty {
            Ty::List(element) => element.duplicate(),
            Ty::MapOf(key, _) => key.duplicate(),
            Ty::Unknown => Ty::Unknown,
            _ => {
                let m = msg_ty_then(ty, " is not iterable");
                self.error("E0301", m.as_str(), span);
                Ty::Unknown
            },
        }
    }

    /// The type of a literal.
    fn literal_type(&self, literal: &Literal) -> (t: Ty)
        ensures
            t@ == literal_ty(*literal),
    {
        proof {
            reveal_with_fuel(super::ty::ty_view, 2);
        }
        match literal {
            Literal::Int(_) => Ty::Int,
            Literal::Float(_) => Ty::Float,
            Literal::Bool(_) => Ty::Bool,
            Literal::NoneLit => Ty::Optional(Box::new(Ty::Unknown)),
            Literal::Str(_) => Ty::Str,
        }
    }
}

impl Checker {
    /// The index of the user type named `name`, or the table's length.
    fn find_user_type(&self, name: &str) -> (i: usize)
        ensures
            i <= self.user_types@.len(),
            i < self.user_types@.len() ==> self.user_types@[i as int].0@ == name@
                && table_get(self@.user_types, name@) == Some(self.user_types@[i as int].1@),
            i == self.user_types@.len() ==> table_get(self@.user_types, name@).is_none(),
            i as int == table_index(self@.user_types, name@),
    {
        let i = table_find(&self.user_types, name);
        proof {
            let keys = self.user_types@.map_values(|e: (String, UserType)| (e.0@, ()));
            lemma_table_index_keys(keys, self@.user_types, name@);
            lemma_table_get_index(self@.user_types, name@);
        }
        i
    }

    /// The index of the function named `name`, or the table's length.
    fn find_function(&self, name: &str) -> (i: usize)
        ensures
            i <= self.functions@.len(),
            i < self.functions@.len() ==> self.functions@[i as int].0@ == name@
                && table_get(self@.functions, name@) == Some(self.functions@[i as int].1@),
            i == self.functions@.len() ==> table_get(self@.functions, name@).is_none(),
            i as int == table_index(self@.functions, name@),
    {
        let i = table_find(&self.functions, name);
        proof {
            let keys = self.functions@.map_values(|e: (String, Ty)| (e.0@, ()));
            lemma_table_index_keys(keys, self@.functions, name@);
            lemma_table_get_index(self@.functions, name@);
        }
        i
    }

    /// Sets the user type called `name`.
    fn put_user_type(&mut self, name: String, u: UserType)
        ensures
            final(self)@ == (CheckerV { user_types: table_put(old(self)@.user_types, name@, u@), ..old(self)@ }),
    {
        let i = self.find_user_type(name.as_str());
        let ghost nv = name@;
        let ghost uv = u@;
        if i < self.user_types.len() {
            self.user_types.set(i, (name, u));
            assert(user_types_view(self.user_types@) =~= old(self)@.user_types.update(i as int, (nv, uv)));
        } else {
            self.user_types.push((name, u));
            assert(user_types_view(self.user_types@) =~= old(self)@.user_types.push((nv, uv)));
        }
    }

    /// Sets the signature of the function called `name`.
    fn put_function(&mut self, name: String, t: Ty)
        ensures
            final(self)@ == (CheckerV { functions: table_put(old(self)@.functions, name@, t@), ..old(self)@ }),
    {
        let i = self.find_function(name.as_str());
        let ghost nv = name@;
        let ghost tv = t@;
        if i < self.functions.len() {
            self.functions.set(i, (name, t));
            assert(fields_view(self.functions@) =~= old(self)@.functions.update(i as int, (nv, tv)));
        } else {
            self.functions.push((name, t));
            assert(fields_view(self.functions@) =~= old(self)@.functions.push((nv, tv)));
        }
    }

    /// Declares a symbol in the innermost scope.
    fn declare_symbol(&mut self, name: String, ty: Ty, mutable: bool) -> (ok: bool)
        ensures
            (final(self)@, ok) == declare(old(self)@, name@, ty@, mutable),
    {
        self.scopes.declare(Symbol { name, ty, mutable })
    }

    fn push_scope(&mut self)
        ensures
            final(self)@ == push_scope(old(self)@),
    {
        self.scopes.push();
    }

    fn pop_scope(&mut self)
        ensures
            final(self)@ == pop_scope(old(self)@),
    {
        self.scopes.pop();
    }

    /// Finds a variant by name across the declared enums, in declaration
    /// order: the enum it belongs to and its payload types.
    fn find_variant(&self, name: &str) -> (r: Option<(String, Vec<Ty>)>)
        ensures
            match (r, find_variant_spec(self@.user_types, name@)) {
                (Some(x), Some(y)) => x.0@ == y.0 && tys_view(x.1@) == y.1,
                (None, None) => true,
                _ => false,
            },
    {
        let ghost us = self@.user_types;
        let mut i: usize = 0;
        assert(us.skip(0) =~= us);
        while i < self.user_types.len()
            invariant
                i <= self.user_types@.len(),
                us == self@.user_types,
                us.len() == self.user_types@.len(),
                find_variant_spec(us, name@) == find_variant_spec(us.skip(i as int), name@),
            decreases self.user_types@.len() - i,
        {
            let entry = &self.user_types[i];
            proof {
                assert(us.skip(i as int)[0] == (entry.0@, entry.1@));
                assert(us.skip(i as int).drop_first() =~= us.skip(i + 1));
            }
            match &entry.1 {
                UserType::Enum { variants } => {
                    let ghost vs = variants_view(variants@);
                    let mut j: usize = 0;
                    assert(vs.skip(0) =~= vs);
                    while j < variants.len()
                        invariant
                            j <= variants@.len(),
                            vs == variants_view(variants@),
                            vs.len() == variants@.len(),
                            find_variant_in(vs, name@) == find_variant_in(vs.skip(j as int), name@),
                            i < us.len(),
                            us == self@.user_types,
                            find_variant_spec(us, name@) == find_variant_spec(us.skip(i as int), name@),
                            us.skip(i as int)[0] == (entry.0@, UserTypeV::Enum(vs)),
                        decreases variants@.len() - j,
                    {
                        proof {
                            assert(vs.skip(j as int)[0] == variant_view(variants@[j as int]));
                            assert(vs.skip(j as int).drop_first() =~= vs.skip(j + 1));
                        }
                        if str_eq(variants[j].name.as_str(), name) {
                            return Some((entry.0.clone(), duplicate_all(&variants[j].payload)));
                        }
                        j = j + 1;
                    }
                    assert(vs.skip(j as int).len() == 0);
                },
                UserType::Data { .. } => {},
            }
            i = i + 1;
        }
        assert(us.skip(i as int).len() == 0);
        None
    }

    /// The type of a name: a binding, a user type, or an enum variant.
    fn ident_type(&mut self, name: &String, span: Span) -> (t: Ty)
        ensures
            (final(self)@, t@) == ident_spec(old(self)@, name@, span),
    {
        match self.scopes.lookup(name.as_str()) {
            Some(symbol) => {
                return symbol.ty.duplicate();
            },
            None => {},
        }
        let i = self.find_user_type(name.as_str());
        if i < self.user_types.len() {
            return match &self.user_types[i].1 {
                UserType::Data { .. } => Ty::Data(name.clone()),
                UserType::Enum { .. } => Ty::Enum(name.clone()),
            };
        }
        match self.find_variant(name.as_str()) {
            Some((enum_name, payload)) => {
                proof {
                    lemma_tys_view_len(payload@);
                    reveal_with_fuel(super::ty::ty_view, 2);
                }
                if payload.len() == 0 {
                    return Ty::Enum(enum_name);
                }
                Ty::Fn { params: payload, ret: Box::new(Ty::Enum(enum_name)) }
            },
            None => {
                let m = msg_name("undefined name ", name.as_str());
                self.error("E0201", m.as_str(), span);
                Ty::Unknown
            },
        }
    }

    /// The type of `receiver.name`.
    fn field_type(&mut self, receiver: &Ty, name: &String, span: Span) -> (t: Ty)
        ensures
            (final(self)@, t@) == field_spec(old(self)@, receiver@, name@, span),
    {
        match receiver {
            Ty::Data(tname) => {
                let i = self.find_user_type(tname.as_str());
                if i == self.user_types.len() {
                    return Ty::Unknown;
                }
                match &self.user_types[i].1 {
                    UserType::Data { fields } => {
                        let ghost fv = fields_view(fields@);
                        let mut j: usize = 0;
                        assert(fv.skip(0) =~= fv);
                        while j < fields.len()
                            invariant
                                j <= fields@.len(),
                                fv == fields_view(fields@),
                                fv.len() == fields@.len(),
                                find_field(fv, name@) == find_field(fv.skip(j as int), name@),
                                table_get(self@.user_types, tname@) == Some(UserTypeV::Data(fv)),
                                self@ == old(self)@,
                                receiver@ == TyV::Data(tname@),
                            decreases fields@.len() - j,
                        {
                            proof {
                                assert(fv.skip(j as int)[0] == (fields@[j as int].0@, fields@[j as int].1@));
                                assert(fv.skip(j as int).drop_first() =~= fv.skip(j + 1));
                            }
                            if str_eq(fields[j].0.as_str(), name.as_str()) {
                                assert(find_field(fv, name@) == Some(fields@[j as int].1@));
                                return fields[j].1.duplicate();
                            }
                            j = j + 1;
                        }
                        assert(fv.skip(j as int).len() == 0);
                        let mut m = msg_name_then(tname.as_str(), " has no field ");
                        push_ticked(&mut m, name.as_str());
                        self.error("E0304", m.as_str(), span);
                        Ty::Unknown
                    },
                    UserType::Enum { .. } => Ty::Unknown,
                }
            },
            Ty::Unknown => Ty::Unknown,
            _ => {
                let mut m = msg_ty_then(receiver, " has no field ");
                push_ticked(&mut m, name.as_str());
                self.error("E0304", m.as_str(), span);
                Ty::Unknown
            },
        }
    }

    /// Resolves user type names inside a list of types, in order.
    fn resolve_users(&mut self, ts: &Vec<Ty>, span: Span) -> (r: Vec<Ty>)
        ensures
            (final(self)@, tys_view(r@)) == resolve_users(old(self)@, tys_view(ts@), span),
        decreases ts@,
    {
        let mut out: Vec<Ty> = Vec::new();
        let mut i: usize = 0;
        proof {
            lemma_tys_view_len(ts@);
        }
        while i < ts.len()
            invariant
                i <= ts@.len(),
                (self@, tys_view(out@)) == resolve_users(old(self)@, tys_view(ts@.take(i as int)), span),
            decreases ts@.len() - i,
        {
            proof {
                assert(decreases_to!(ts@ => ts@[i as int]));
            }
            let t = self.resolve_user_type(&ts[i], span);
            let ghost o0 = out@;
            out.push(t);
            proof {
                lemma_tys_view_push(o0, t);
                lemma_tys_view_push(ts@.take(i as int), ts@[i as int]);
                assert(ts@.take(i + 1) =~= ts@.take(i as int).push(ts@[i as int]));
                assert(tys_view(ts@.take(i + 1)).drop_last() =~= tys_view(ts@.take(i as int)));
            }
            i = i + 1;
        }
        assert(ts@.take(i as int) =~= ts@);
        out
    }

    /// Resolves user type names against the declarations, recursively:
    /// `data` stays `Data`, `enum` becomes `Enum`, and an undeclared name is
    /// `E0201`.
    fn resolve_user_type(&mut self, ty: &Ty, span: Span) -> (t: Ty)
        ensures
            (final(self)@, t@) == resolve_user_spec(old(self)@, ty@, span),
        decreases *ty,
    {
        match ty {
            Ty::Data(name) => {
                let i = self.find_user_type(name.as_str());
                if i < self.user_types.len() {
                    match &self.user_types[i].1 {
                        UserType::Data { .. } => Ty::Data(name.clone()),
                        UserType::Enum { .. } => Ty::Enum(name.clone()),
                    }
                } else {
                    let m = msg_name("undefined type ", name.as_str());
                    self.error("E0201", m.as_str(), span);
                    Ty::Unknown
                }
            },
            Ty::List(e) => Ty::List(Box::new(self.resolve_user_type(e, span))),
            Ty::Optional(i) => Ty::Optional(Box::new(self.resolve_user_type(i, span))),
            Ty::Result(o) => Ty::Result(Box::new(self.resolve_user_type(o, span))),
            Ty::MapOf(k, v) => {
                let k1 = self.resolve_user_type(k, span);
                let v1 = self.resolve_user_type(v, span);
                Ty::MapOf(Box::new(k1), Box::new(v1))
            },
            Ty::Tuple(es) => Ty::Tuple(self.resolve_users(es, span)),
            Ty::Fn { params, ret } => {
                let ps = self.resolve_users(params, span);
                let r = self.resolve_user_type(ret, span);
                Ty::Fn { params: ps, ret: Box::new(r) }
            },
            _ => ty.duplicate(),
        }
    }

    /// Resolves an annotation fully; a malformed one reports `code` with
    /// `message` at the annotation and is `Unknown`.
    fn annotation(&mut self, a: &AstType, code: &'static str, message: &str) -> (t: Ty)
        ensures
            (final(self)@, t@) == annotation_spec(old(self)@, *a, code@, message@),
    {
        match resolve_type(a) {
            Ok(r) => self.resolve_user_type(&r, a.span),
            Err(_) => {
                self.error(code, message, a.span);
                Ty::Unknown
            },
        }
    }

    /// Records a declaration name, reporting `E0202` on a duplicate.
    fn declare_name(&mut self, name: &String, span: Span) -> (ok: bool)
        ensures
            (final(self)@, ok) == declare_name_spec(old(self)@, name@, span),
    {
        let ghost ds = self@.declarations;
        let mut i: usize = 0;
        while i < self.declarations.len()
            invariant
                i <= self.declarations@.len(),
                self@ == old(self)@,
                ds == self@.declarations,
                ds.len() == self.declarations@.len(),
                forall|k: int| 0 <= k < i ==> ds[k] != name@,
            decreases self.declarations@.len() - i,
        {
            if str_eq(self.declarations[i].0.as_str(), name.as_str()) {
                assert(ds[i as int] == name@);
                assert(ds.contains(name@));
                let m = msg_name_then(name.as_str(), " is defined more than once");
                self.error("E0202", m.as_str(), span);
                return false;
            }
            i = i + 1;
        }
        assert(!ds.contains(name@));
        self.declarations.push((name.clone(), span));
        assert(self@.declarations =~= ds.push(name@));
        true
    }
}

impl Checker {
    /// Field names and types of a `data` declaration; a repeated field is
    /// reported and dropped.
    fn data_fields(&mut self, decl: &DataDecl) -> (r: Vec<(String, Ty)>)
        ensures
            (final(self)@, fields_view(r@)) == data_fields_spec(old(self)@, decl.name@, decl.fields@),
    {
        let mut fields: Vec<(String, Ty)> = Vec::new();
        let mut i: usize = 0;
        while i < decl.fields.len()
            invariant
                i <= decl.fields@.len(),
                (self@, fields_view(fields@)) == data_fields_spec(old(self)@, decl.name@, decl.fields@.take(i as int)),
            decreases decl.fields@.len() - i,
        {
            let field = &decl.fields[i];
            proof {
                let t = decl.fields@.take(i + 1);
                assert(t.drop_last() =~= decl.fields@.take(i as int));
                assert(t.last() == decl.fields@[i as int]);
            }
            let m = msg_name("invalid type annotation for field ", field.name.as_str());
            let ty = self.annotation(&field.ty, "E0301", m.as_str());
            let ghost fv = fields_view(fields@);
            let mut dup = false;
            let mut j: usize = 0;
            while j < fields.len()
                invariant
                    j <= fields@.len(),
                    fv == fields_view(fields@),
                    !dup ==> forall|k: int| 0 <= k < j ==> fv[k].0 != field.name@,
                    dup ==> has_field_named(fv, field.name@),
                decreases fields@.len() - j,
            {
                if str_eq(fields[j].0.as_str(), field.name.as_str()) {
                    assert(fv[j as int].0 == field.name@);
                    dup = true;
                }
                j = j + 1;
            }
            if dup {
                let mut m2 = msg_name("duplicate field ", field.name.as_str());
                m2.append(" in ");
                push_ticked(&mut m2, decl.name.as_str());
                assert(m2@ =~= "duplicate field "@ + ticked(field.name@) + " in "@ + ticked(decl.name@));
                self.error("E0202", m2.as_str(), field.span);
            } else {
                assert(!has_field_named(fv, field.name@));
                let ghost f0 = fields@;
                fields.push((field.name.clone(), ty));
                assert(fields_view(fields@) =~= fields_view(f0).push((field.name@, ty@)));
            }
            i = i + 1;
        }
        assert(decl.fields@.take(i as int) =~= decl.fields@);
        fields
    }

    /// Variants of an `enum` declaration; a malformed payload or a repeated
    /// variant is reported and dropped.
    fn enum_variants(&mut self, decl: &EnumDecl) -> (r: Vec<EnumVariant>)
        ensures
            (final(self)@, variants_view(r@)) == enum_variants_spec(old(self)@, decl.name@, decl.variants@),
    {
        let mut variants: Vec<EnumVariant> = Vec::new();
        let mut i: usize = 0;
        while i < decl.variants.len()
            invariant
                i <= decl.variants@.len(),
                (self@, variants_view(variants@)) == enum_variants_spec(old(self)@, decl.name@, decl.variants@.take(i as int)),
            decreases decl.variants@.len() - i,
        {
            let variant = &decl.variants[i];
            proof {
                let t = decl.variants@.take(i + 1);
                assert(t.drop_last() =~= decl.variants@.take(i as int));
                assert(t.last() == decl.variants@[i as int]);
            }
            let ghost s1 = self@;
            let mut payload: Vec<Ty> = Vec::new();
            let mut failed = false;
            let mut j: usize = 0;
            while j < variant.payload.len()
                invariant_except_break
                    j <= variant.payload@.len(),
                    (self@, tys_view(payload@), !failed) == payload_spec(s1, variant.payload@.take(j as int)),
                    !failed,
                ensures
                    failed ==> (self@, tys_view(payload@), false) == payload_spec(s1, variant.payload@),
                    !failed ==> j == variant.payload@.len()
                        && (self@, tys_view(payload@), true) == payload_spec(s1, variant.payload@.take(j as int)),
                decreases variant.payload@.len() - j,
            {
                let ty = &variant.payload[j];
                proof {
                    let t = variant.payload@.take(j + 1);
                    assert(t.drop_last() =~= variant.payload@.take(j as int));
                    assert(t.last() == variant.payload@[j as int]);
                }
                match resolve_type(ty) {
                    Ok(resolved) => {
                        let r = self.resolve_user_type(&resolved, ty.span);
                        let ghost p0 = payload@;
                        payload.push(r);
                        proof {
                            lemma_tys_view_push(p0, r);
                        }
                    },
                    Err(_) => {
                        failed = true;
                        proof {
                            lemma_payload_stops(s1, variant.payload@, j as int + 1);
                        }
                        break;
                    },
                }
                j = j + 1;
            }
            proof {
                if !failed {
                    assert(variant.payload@.take(j as int) =~= variant.payload@);
                }
            }
            if failed {
                let m = msg_name("invalid payload type for variant ", variant.name.as_str());
                self.error("E0301", m.as_str(), variant.span);
                i = i + 1;
                continue;
            }
            let ghost vv = variants_view(variants@);
            let mut dup = false;
            let mut k: usize = 0;
            while k < variants.len()
                invariant
                    k <= variants@.len(),
                    vv == variants_view(variants@),
                    !dup ==> forall|q: int| 0 <= q < k ==> vv[q].name != variant.name@,
                    dup ==> has_variant_named(vv, variant.name@),
                decreases variants@.len() - k,
            {
                if str_eq(variants[k].name.as_str(), variant.name.as_str()) {
                    assert(vv[k as int].name == variant.name@);
                    dup = true;
                }
                k = k + 1;
            }
            if dup {
                let mut m2 = msg_name("duplicate variant ", variant.name.as_str());
                m2.append(" in ");
                push_ticked(&mut m2, decl.name.as_str());
                assert(m2@ =~= "duplicate variant "@ + ticked(variant.name@) + " in "@ + ticked(decl.name@));
                self.error("E0202", m2.as_str(), variant.span);
            } else {
                assert(!has_variant_named(vv, variant.name@));
                let ghost v0 = variants@;
                let ev = EnumVariant { name: variant.name.clone(), payload };
                variants.push(ev);
                assert(variants_view(variants@) =~= variants_view(v0).push(variant_view(ev)));
            }
            i = i + 1;
        }
        assert(decl.variants@.take(i as int) =~= decl.variants@);
        variants
    }

    /// Records every `data`/`enum` and the shape of its fields.
    fn collect_user_types(&mut self, program: &Program)
        ensures
            final(self)@ == collect_user_types_spec(old(self)@, program.items@),
    {
        let mut i: usize = 0;
        while i < program.items.len()
            invariant
                i <= program.items@.len(),
                self@ == collect_user_types_spec(old(self)@, program.items@.take(i as int)),
            decreases program.items@.len() - i,
        {
            let item = &program.items[i];
            proof {
                let t = program.items@.take(i + 1);
                assert(t.drop_last() =~= program.items@.take(i as int));
                assert(t.last() == program.items@[i as int]);
            }
            match &item.kind {
                ItemKind::Data(decl) => {
                    if self.declare_name(&decl.name, item.span) {
                        let fields = self.data_fields(decl);
                        self.put_user_type(decl.name.clone(), UserType::Data { fields });
                    }
                },
                ItemKind::Enum(decl) => {
                    if self.declare_name(&decl.name, item.span) {
                        let variants = self.enum_variants(decl);
                        self.put_user_type(decl.name.clone(), UserType::Enum { variants });
                    }
                },
                _ => {},
            }
            i = i + 1;
        }
        assert(program.items@.take(i as int) =~= program.items@);
    }

    /// The `fn(params) -> ret` type of a declaration.
    fn fn_signature(&mut self, decl: &FnDecl) -> (t: Ty)
        ensures
            (final(self)@, t@) == fn_signature_spec(old(self)@, *decl),
    {
        let mut params: Vec<Ty> = Vec::new();
        let mut i: usize = 0;
        while i < decl.params.len()
            invariant
                i <= decl.params@.len(),
                (self@, tys_view(params@)) == param_types_spec(old(self)@, decl.params@.take(i as int)),
            decreases decl.params@.len() - i,
        {
            let param = &decl.params[i];
            proof {
                let t = decl.params@.take(i + 1);
                assert(t.drop_last() =~= decl.params@.take(i as int));
                assert(t.last() == decl.params@[i as int]);
            }
            let m = msg_name("invalid type annotation for parameter ", param.name.as_str());
            let t = self.annotation(&param.ty, "E0301", m.as_str());
            let ghost p0 = params@;
            params.push(t);
            proof {
                lemma_tys_view_push(p0, t);
            }
            i = i + 1;
        }
        assert(decl.params@.take(i as int) =~= decl.params@);
        let ret = match &decl.ret {
            Some(annotation) => self.annotation(annotation, "E0301", "invalid return type annotation"),
            None => Ty::Unit,
        };
        Ty::Fn { params, ret: Box::new(ret) }
    }

    /// Records every function signature so calls can be checked in pass 2.
    fn collect_signatures(&mut self, program: &Program)
        ensures
            final(self)@ == collect_signatures_spec(old(self)@, program.items@),
    {
        let mut i: usize = 0;
        while i < program.items.len()
            invariant
                i <= program.items@.len(),
                self@ == collect_signatures_spec(old(self)@, program.items@.take(i as int)),
            decreases program.items@.len() - i,
        {
            let item = &program.items[i];
            proof {
                let t = program.items@.take(i + 1);
                assert(t.drop_last() =~= program.items@.take(i as int));
                assert(t.last() == program.items@[i as int]);
            }
            match &item.kind {
                ItemKind::Fn(decl) => {
                    if self.declare_name(&decl.name, item.span) {
                        let signature = self.fn_signature(decl);
                        self.put_function(decl.name.clone(), signature);
                        let k = self.find_function(decl.name.as_str());
                        let ty = if k < self.functions.len() { self.functions[k].1.duplicate() } else { Ty::Unknown };
                        self.declare_symbol(decl.name.clone(), ty, false);
                    }
                },
                _ => {},
            }
            i = i + 1;
        }
        assert(program.items@.take(i as int) =~= program.items@);
    }

    /// Declares one prelude function.
    fn install_one(&mut self, name: &str, params: Vec<Ty>, ret: Ty)
        ensures
            final(self)@ == install_one(old(self)@, name@, tys_view(params@), ret@),
    {
        let signature = Ty::Fn { params, ret: Box::new(ret) };
        let copy = signature.duplicate();
        self.put_function(String::from_str(name), signature);
        self.declare_symbol(String::from_str(name), copy, false);
    }

    /// Declares the implicit prelude and the builtin `Failure` type.
    fn install_prelude(&mut self)
        ensures
            final(self)@ == install_prelude_spec(old(self)@),
    {
        proof {
            reveal_with_fuel(super::ty::ty_view, 2);
            reveal_with_fuel(super::ty::tys_view, 3);
        }
        let mut fields: Vec<(String, Ty)> = Vec::new();
        fields.push((String::from_str("kind"), Ty::Str));
        fields.push((String::from_str("message"), Ty::Str));
        fields.push((String::from_str("trace"), Ty::List(Box::new(Ty::Str))));
        assert(fields_view(fields@) =~= failure_fields());
        self.put_user_type(String::from_str("Failure"), UserType::Data { fields });
        let any = vec![Ty::Unknown];
        assert(tys_view(any@) =~= seq![TyV::Unknown]);
        self.install_one("print", any, Ty::Unit);
        let any = vec![Ty::Unknown];
        assert(tys_view(any@) =~= seq![TyV::Unknown]);
        self.install_one("len", any, Ty::Int);
        let any = vec![Ty::Unknown];
        assert(tys_view(any@) =~= seq![TyV::Unknown]);
        self.install_one("str", any, Ty::Str);
        let any = vec![Ty::Unknown];
        assert(tys_view(any@) =~= seq![TyV::Unknown]);
        self.install_one("int", any, Ty::Int);
        let any = vec![Ty::Unknown];
        assert(tys_view(any@) =~= seq![TyV::Unknown]);
        self.install_one("float", any, Ty::Float);
        let b = vec![Ty::Bool];
        assert(tys_view(b@) =~= seq![TyV::Bool]);
        self.install_one("assert", b, Ty::Unit);
        let ii = vec![Ty::Int, Ty::Int];
        assert(tys_view(ii@) =~= seq![TyV::Int, TyV::Int]) by {
            assert(ii@.drop_last() =~= seq![Ty::Int]);
        }
        self.install_one("range", ii, Ty::List(Box::new(Ty::Int)));
        let any = vec![Ty::Unknown];
        assert(tys_view(any@) =~= seq![TyV::Unknown]);
        self.install_one("Ok", any, Ty::Result(Box::new(Ty::Unknown)));
        let any = vec![Ty::Unknown];
        assert(tys_view(any@) =~= seq![TyV::Unknown]);
        self.install_one("Err", any, Ty::Result(Box::new(Ty::Unknown)));
    }
}

/// Once a payload type fails to resolve, the rest is not looked at.
proof fn lemma_payload_stops(s: CheckerV, ts: Seq<AstType>, k: int)
    requires
        0 <= k <= ts.len(),
        !payload_spec(s, ts.take(k)).2,
    ensures
        payload_spec(s, ts) == payload_spec(s, ts.take(k)),
    decreases ts.len() - k,
{
    if k < ts.len() {
        assert(ts.take(k + 1).drop_last() =~= ts.take(k));
        lemma_payload_stops(s, ts, k + 1);
    } else {
        assert(ts.take(k) =~= ts);
    }
}

/// Whether `vs` has a variant called `name`, and the first one's payload.
fn find_variant_named(vs: &Vec<EnumVariant>, name: &str) -> (r: Option<Vec<Ty>>)
    ensures
        match (r, find_variant_in(variants_view(vs@), name@)) {
            (Some(p), Some(v)) => tys_view(p@) == v.payload,
            (None, None) => true,
            _ => false,
        },
        r.is_some() == has_variant_named(variants_view(vs@), name@),
{
    let ghost vv = variants_view(vs@);
    let mut j: usize = 0;
    assert(vv.skip(0) =~= vv);
    while j < vs.len()
        invariant
            j <= vs@.len(),
            vv == variants_view(vs@),
            vv.len() == vs@.len(),
            find_variant_in(vv, name@) == find_variant_in(vv.skip(j as int), name@),
            forall|q: int| 0 <= q < j ==> vv[q].name != name@,
        decreases vs@.len() - j,
    {
        proof {
            assert(vv.skip(j as int)[0] == variant_view(vs@[j as int]));
            assert(vv.skip(j as int).drop_first() =~= vv.skip(j + 1));
        }
        if str_eq(vs[j].name.as_str(), name) {
            assert(vv[j as int].name == name@);
            return Some(duplicate_all(&vs[j].payload));
        }
        j = j + 1;
    }
    assert(vv.skip(j as int).len() == 0);
    None
}

impl Checker {
    /// Checks that a unit-variant pattern belongs to the scrutinee's enum.
    fn check_unit_variant_pattern(&mut self, name: &String, scrutinee: &Ty, span: Span)
        ensures
            final(self)@ == unit_variant_pattern_spec(old(self)@, name@, scrutinee@, span),
    {
        match scrutinee {
            Ty::Enum(en) => {
                let i = self.find_user_type(en.as_str());
                let belongs = if i < self.user_types.len() {
                    match &self.user_types[i].1 {
                        UserType::Enum { variants } => find_variant_named(variants, name.as_str()).is_some(),
                        UserType::Data { .. } => false,
                    }
                } else {
                    false
                };
                if !belongs {
                    let m = msg_two(en.as_str(), " has no variant ", name.as_str());
                    self.error("E0321", m.as_str(), span);
                }
            },
            Ty::Unknown => {},
            _ => {
                let mut m = msg_ty_then(scrutinee, " is not an enum, so ");
                push_ticked(&mut m, name.as_str());
                m.append(" is not a variant");
                assert(m@ =~= ticked(ty_name(scrutinee@)) + " is not an enum, so "@ + ticked(name@)
                    + " is not a variant"@);
                self.error("E0301", m.as_str(), span);
            },
        }
    }

    fn check_subpatterns(&mut self, ps: &Vec<Pattern>, payload: &Vec<Ty>)
        ensures
            final(self)@ == check_subpatterns(old(self)@, ps@, tys_view(payload@)),
        decreases ps@,
    {
        proof {
            lemma_tys_view_len(payload@);
        }
        let mut i: usize = 0;
        while i < ps.len()
            invariant
                i <= ps@.len(),
                tys_view(payload@).len() == payload@.len(),
                self@ == check_subpatterns(old(self)@, ps@.take(i as int), tys_view(payload@)),
            decreases ps@.len() - i,
        {
            proof {
                assert(decreases_to!(ps@ => ps@[i as int]));
                let t = ps@.take(i + 1);
                assert(t.drop_last() =~= ps@.take(i as int));
                assert(t.last() == ps@[i as int]);
                if i < payload@.len() {
                    lemma_tys_view_index(payload@, i as int);
                }
            }
            let ty = if i < payload.len() { payload[i].duplicate() } else { Ty::Unknown };
            self.check_pattern(&ps[i], &ty);
            i = i + 1;
        }
        assert(ps@.take(i as int) =~= ps@);
    }

    /// Checks a pattern against the scrutinee's type; a bare name that
    /// matches a declared variant is a variant pattern, anything else binds.
    fn check_pattern(&mut self, pattern: &Pattern, scrutinee: &Ty)
        ensures
            final(self)@ == check_pattern_spec(old(self)@, *pattern, scrutinee@),
        decreases *pattern,
    {
        match &pattern.kind {
            PatternKind::Wildcard => {},
            PatternKind::Bind(name) => {
                match self.find_variant(name.as_str()) {
                    Some((_, payload)) => {
                        proof {
                            lemma_tys_view_len(payload@);
                        }
                        if payload.len() == 0 {
                            self.check_unit_variant_pattern(name, scrutinee, pattern.span);
                        } else {
                            let mut m = msg_name("variant ", name.as_str());
                            m.append(" has ");
                            push_u64(&mut m, payload.len() as u64);
                            m.append(" field(s) but none were bound");
                            assert(m@ =~= "variant "@ + ticked(name@) + " has "@ + nat_text(payload@.len())
                                + " field(s) but none were bound"@);
                            self.error("E0302", m.as_str(), pattern.span);
                        }
                    },
                    None => {
                        self.declare_symbol(name.clone(), scrutinee.duplicate(), false);
                    },
                }
            },
            PatternKind::Literal(literal) => {
                let lt = self.literal_type(literal);
                if !self.assignable(scrutinee, &lt) && !self.assignable(&lt, scrutinee) {
                    self.type_mismatch(scrutinee, &lt, pattern.span);
                }
            },
            PatternKind::Variant { name, fields } => {
                let payload: Option<Vec<Ty>> = match scrutinee {
                    Ty::Enum(en) => {
                        let i = self.find_user_type(en.as_str());
                        if i < self.user_types.len() {
                            match &self.user_types[i].1 {
                                UserType::Enum { variants } => find_variant_named(variants, name.as_str()),
                                UserType::Data { .. } => None,
                            }
                        } else {
                            None
                        }
                    },
                    _ => None,
                };
                match payload {
                    Some(pl) => {
                        proof {
                            lemma_tys_view_len(pl@);
                        }
                        if pl.len() != fields.len() {
                            let mut m = msg_name("variant ", name.as_str());
                            m.append(" has ");
                            push_u64(&mut m, pl.len() as u64);
                            m.append(" field(s) but ");
                            push_u64(&mut m, fields.len() as u64);
                            m.append(" were bound");
                            assert(m@ =~= "variant "@ + ticked(name@) + " has "@ + nat_text(pl@.len())
                                + " field(s) but "@ + nat_text(fields@.len()) + " were bound"@);
                            self.error("E0302", m.as_str(), pattern.span);
                        }
                        self.check_subpatterns(fields, &pl);
                    },
                    None => {
                        if !scrutinee.is_unknown() {
                            let mut m = msg_ty_then(scrutinee, " has no variant ");
                            push_ticked(&mut m, name.as_str());
                            self.error("E0321", m.as_str(), pattern.span);
                        }
                    },
                }
            },
        }
    }

    /// Declares what `let` binds.
    fn declare_pattern(&mut self, pattern: &Pattern, ty: Ty, mutable: bool)
        ensures
            final(self)@ == declare_pattern_spec(old(self)@, *pattern, ty@, mutable),
    {
        match &pattern.kind {
            PatternKind::Bind(name) => {
                if !self.declare_symbol(name.clone(), ty, mutable) {
                    let m = msg_name("duplicate definition of ", name.as_str());
                    self.error("E0202", m.as_str(), pattern.span);
                }
            },
            _ => {},
        }
    }

    /// Checks that an assignment target is a mutable binding or an index;
    /// assigning to a field is not supported.
    fn check_assignable_target(&mut self, target: &Expr, span: Span)
        ensures
            final(self)@ == assign_target_spec(old(self)@, *target, span),
    {
        match &target.kind {
            ExprKind::Ident(name) => {
                let immutable = match self.scopes.lookup(name.as_str()) {
                    Some(symbol) => !symbol.mutable,
                    None => false,
                };
                if immutable {
                    let m = msg_name("cannot assign to immutable ", name.as_str());
                    self.error("E0230", m.as_str(), span);
                }
            },
            ExprKind::Index { .. } => {},
            // A field is a place of its own: assigning to it is allowed even
            // through an immutable binding.
            ExprKind::Field { .. } => {},
            ExprKind::OptionalField { name, .. } => {
                let m = msg_name("cannot assign to optional field ", name.as_str());
                self.error("E0231", m.as_str(), span);
            },
            _ => {
                self.error("E0230", "invalid assignment target", span);
            },
        }
    }
}

/// The type of the first field called `name`.
fn find_field_named(fields: &Vec<(String, Ty)>, name: &str) -> (r: Option<Ty>)
    ensures
        opt_ty_view(r) == find_field(fields_view(fields@), name@),
{
    let ghost fv = fields_view(fields@);
    let mut j: usize = 0;
    assert(fv.skip(0) =~= fv);
    while j < fields.len()
        invariant
            j <= fields@.len(),
            fv == fields_view(fields@),
            fv.len() == fields@.len(),
            find_field(fv, name@) == find_field(fv.skip(j as int), name@),
        decreases fields@.len() - j,
    {
        proof {
            assert(fv.skip(j as int)[0] == (fields@[j as int].0@, fields@[j as int].1@));
            assert(fv.skip(j as int).drop_first() =~= fv.skip(j + 1));
        }
        if str_eq(fields[j].0.as_str(), name) {
            return Some(fields[j].1.duplicate());
        }
        j = j + 1;
    }
    assert(fv.skip(j as int).len() == 0);
    None
}

fn dup_opt(o: &Option<Ty>) -> (r: Option<Ty>)
    ensures
        opt_ty_view(r) == opt_ty_view(*o),
{
    match o {
        Some(t) => Some(t.duplicate()),
        None => None,
    }
}

impl Checker {
    /// Checks an expression with an expected type (so a lambda can infer),
    /// restoring the previous expected type afterwards.
    fn check_expr_expected(&mut self, expr: &Expr, expected: Option<Ty>) -> (t: Ty)
        ensures
            (final(self)@, t@) == cx_expected(old(self)@, *expr, opt_ty_view(expected)),
        decreases *expr, 4nat,
    {
        let mut previous = expected;
        std::mem::swap(&mut self.expected, &mut previous);
        let found = self.check_expr(expr);
        self.expected = previous;
        found
    }

    fn check_tuple(&mut self, es: &Vec<Expr>) -> (r: Vec<Ty>)
        ensures
            (final(self)@, tys_view(r@)) == cx_tuple(old(self)@, es@),
        decreases es@, 0nat,
    {
        let mut out: Vec<Ty> = Vec::new();
        let mut i: usize = 0;
        while i < es.len()
            invariant
                i <= es@.len(),
                (self@, tys_view(out@)) == cx_tuple(old(self)@, es@.take(i as int)),
            decreases es@.len() - i,
        {
            proof {
                assert(decreases_to!(es@ => es@[i as int]));
                let t = es@.take(i + 1);
                assert(t.drop_last() =~= es@.take(i as int));
                assert(t.last() == es@[i as int]);
            }
            let t = self.check_expr(&es[i]);
            let ghost o0 = out@;
            out.push(t);
            proof {
                lemma_tys_view_push(o0, t);
            }
            i = i + 1;
        }
        assert(es@.take(i as int) =~= es@);
        out
    }

    fn check_list(&mut self, es: &Vec<Expr>) -> (r: Option<Ty>)
        ensures
            (final(self)@, opt_ty_view(r)) == cx_list(old(self)@, es@),
        decreases es@, 0nat,
    {
        let mut acc: Option<Ty> = None;
        let mut i: usize = 0;
        while i < es.len()
            invariant
                i <= es@.len(),
                (self@, opt_ty_view(acc)) == cx_list(old(self)@, es@.take(i as int)),
            decreases es@.len() - i,
        {
            proof {
                assert(decreases_to!(es@ => es@[i as int]));
                let t = es@.take(i + 1);
                assert(t.drop_last() =~= es@.take(i as int));
                assert(t.last() == es@[i as int]);
            }
            let found = self.check_expr(&es[i]);
            acc = match acc {
                None => Some(found),
                Some(previous) => Some(self.unify(&previous, &found, es[i].span)),
            };
            i = i + 1;
        }
        assert(es@.take(i as int) =~= es@);
        acc
    }

    fn check_map(&mut self, es: &Vec<(Expr, Expr)>) -> (r: (Option<Ty>, Option<Ty>))
        ensures
            ({
                let m = cx_map(old(self)@, es@);
                final(self)@ == m.0 && opt_ty_view(r.0) == m.1 && opt_ty_view(r.1) == m.2
            }),
        decreases es@, 0nat,
    {
        let mut key_ty: Option<Ty> = None;
        let mut value_ty: Option<Ty> = None;
        let mut i: usize = 0;
        while i < es.len()
            invariant
                i <= es@.len(),
                ({
                    let m = cx_map(old(self)@, es@.take(i as int));
                    self@ == m.0 && opt_ty_view(key_ty) == m.1 && opt_ty_view(value_ty) == m.2
                }),
            decreases es@.len() - i,
        {
            proof {
                assert(decreases_to!(es@ => es@[i as int]));
                assert(decreases_to!(es@[i as int] => es@[i as int].0));
                assert(decreases_to!(es@[i as int] => es@[i as int].1));
                let t = es@.take(i + 1);
                assert(t.drop_last() =~= es@.take(i as int));
                assert(t.last() == es@[i as int]);
            }
            let entry = &es[i];
            let found_key = self.check_expr(&entry.0);
            if !self.is_valid_map_key(&found_key) {
                let m = msg_ty("map keys must be `Int`, `Str` or `Bool`, found ", &found_key);
                self.error("E0301", m.as_str(), entry.0.span);
            }
            let found_value = self.check_expr(&entry.1);
            key_ty = match key_ty {
                None => Some(found_key),
                Some(previous) => Some(self.unify(&previous, &found_key, entry.0.span)),
            };
            value_ty = match value_ty {
                None => Some(found_value),
                Some(previous) => Some(self.unify(&previous, &found_value, entry.1.span)),
            };
            i = i + 1;
        }
        assert(es@.take(i as int) =~= es@);
        (key_ty, value_ty)
    }

    fn check_arms(&mut self, arms: &Vec<MatchArm>, scrutinee: &Ty) -> (r: Option<Ty>)
        ensures
            (final(self)@, opt_ty_view(r)) == cx_arms(old(self)@, arms@, scrutinee@),
        decreases arms@, 0nat,
    {
        let mut acc: Option<Ty> = None;
        let mut i: usize = 0;
        while i < arms.len()
            invariant
                i <= arms@.len(),
                (self@, opt_ty_view(acc)) == cx_arms(old(self)@, arms@.take(i as int), scrutinee@),
            decreases arms@.len() - i,
        {
            proof {
                assert(decreases_to!(arms@ => arms@[i as int]));
                let t = arms@.take(i + 1);
                assert(t.drop_last() =~= arms@.take(i as int));
                assert(t.last() == arms@[i as int]);
            }
            let arm = &arms[i];
            self.check_pattern(&arm.pattern, scrutinee);
            match &arm.guard {
                Some(guard) => {
                    let gt = self.check_expr(guard);
                    self.require_bool(&gt, guard.span);
                },
                None => {},
            }
            let at = self.check_expr(&arm.body);
            acc = match acc {
                None => Some(at),
                Some(previous) => Some(self.unify(&previous, &at, arm.body.span)),
            };
            i = i + 1;
        }
        assert(arms@.take(i as int) =~= arms@);
        acc
    }

    fn check_call_args(&mut self, args: &Vec<Arg>, params: &Vec<Ty>)
        ensures
            final(self)@ == cx_call_args(old(self)@, args@, tys_view(params@)),
        decreases args@, 0nat,
    {
        proof {
            lemma_tys_view_len(params@);
        }
        let mut i: usize = 0;
        while i < args.len()
            invariant
                i <= args@.len(),
                tys_view(params@).len() == params@.len(),
                self@ == cx_call_args(old(self)@, args@.take(i as int), tys_view(params@)),
            decreases args@.len() - i,
        {
            proof {
                assert(decreases_to!(args@ => args@[i as int]));
                assert(decreases_to!(args@[i as int] => args@[i as int].value));
                let t = args@.take(i + 1);
                assert(t.drop_last() =~= args@.take(i as int));
                assert(t.last() == args@[i as int]);
                if i < params@.len() {
                    lemma_tys_view_index(params@, i as int);
                }
            }
            let arg = &args[i];
            let expected = if i < params.len() { Some(params[i].duplicate()) } else { None };
            let copy = dup_opt(&expected);
            let found = self.check_expr_expected(&arg.value, expected);
            match copy {
                Some(e) => {
                    if !self.assignable(&e, &found) {
                        self.type_mismatch(&e, &found, arg.value.span);
                    }
                },
                None => {},
            }
            i = i + 1;
        }
        assert(args@.take(i as int) =~= args@);
    }

    fn check_args_plain(&mut self, args: &Vec<Arg>)
        ensures
            final(self)@ == cx_args_plain(old(self)@, args@),
        decreases args@, 0nat,
    {
        let mut i: usize = 0;
        while i < args.len()
            invariant
                i <= args@.len(),
                self@ == cx_args_plain(old(self)@, args@.take(i as int)),
            decreases args@.len() - i,
        {
            proof {
                assert(decreases_to!(args@ => args@[i as int]));
                assert(decreases_to!(args@[i as int] => args@[i as int].value));
                let t = args@.take(i + 1);
                assert(t.drop_last() =~= args@.take(i as int));
                assert(t.last() == args@[i as int]);
            }
            self.check_expr(&args[i].value);
            i = i + 1;
        }
        assert(args@.take(i as int) =~= args@);
    }

    #[verifier::spinoff_prover]
    #[verifier::rlimit(40)]
    fn check_construct_args(&mut self, name: &String, fields: &Vec<(String, Ty)>, args: &Vec<Arg>)
        ensures
            final(self)@ == cx_construct_args(old(self)@, name@, fields_view(fields@), args@),
        decreases args@, 0nat,
    {
        let ghost fv = fields_view(fields@);
        let mut i: usize = 0;
        while i < args.len()
            invariant
                i <= args@.len(),
                fv == fields_view(fields@),
                self@ == cx_construct_args(old(self)@, name@, fv, args@.take(i as int)),
            decreases args@.len() - i,
        {
            proof {
                assert(decreases_to!(args@ => args@[i as int]));
                assert(decreases_to!(args@[i as int] => args@[i as int].value));
                let t = args@.take(i + 1);
                assert(t.drop_last() =~= args@.take(i as int));
                assert(t.last() == args@[i as int]);
            }
            let arg = &args[i];
            let expected: Option<Ty> = match &arg.name {
                Some(field_name) => find_field_named(fields, field_name.as_str()),
                None => if i < fields.len() { Some(fields[i].1.duplicate()) } else { None },
            };
            let copy = dup_opt(&expected);
            let found = self.check_expr_expected(&arg.value, expected);
            match copy {
                Some(e) => {
                    if !self.assignable(&e, &found) {
                        self.type_mismatch(&e, &found, arg.value.span);
                    }
                },
                None => {
                    let mut m = msg_name_then(name.as_str(), " has no field ");
                    let ghost label = match &arg.name {
                        Some(f) => f@,
                        None => nat_text(i as nat),
                    };
                    crate::text::push_char(&mut m, '`');
                    match &arg.name {
                        Some(f) => m.append(f.as_str()),
                        None => push_u64(&mut m, i as u64),
                    }
                    crate::text::push_char(&mut m, '`');
                    assert(m@ =~= ticked(name@) + " has no field "@ + ticked(label));
                    self.error("E0304", m.as_str(), arg.value.span);
                },
            }
            i = i + 1;
        }
        assert(args@.take(i as int) =~= args@);
    }
}

impl Checker {
    /// The type of a call; a callee naming a user type constructs a value.
    fn check_call(&mut self, expr: &Expr) -> (t: Ty)
        ensures
            (final(self)@, t@) == cx_call(old(self)@, *expr),
        decreases *expr, 2nat,
    {
        match &expr.kind {
            ExprKind::Call { callee, args } => {
                let span = expr.span;
                let user: Option<(String, UserType)> = match &callee.kind {
                    ExprKind::Ident(name) => {
                        let i = self.find_user_type(name.as_str());
                        if i < self.user_types.len() {
                            Some((name.clone(), self.user_types[i].1.duplicate()))
                        } else {
                            None
                        }
                    },
                    _ => None,
                };
                match user {
                    Some((name, UserType::Data { fields })) => {
                        if args.len() > fields.len() {
                            let mut m = msg_name_then(name.as_str(), " has ");
                            push_u64(&mut m, fields.len() as u64);
                            m.append(" field(s) but ");
                            push_u64(&mut m, args.len() as u64);
                            m.append(" argument(s) were given");
                            assert(m@ =~= ticked(name@) + " has "@ + nat_text(fields@.len()) + " field(s) but "@
                                + nat_text(args@.len()) + " argument(s) were given"@);
                            self.error("E0302", m.as_str(), span);
                        }
                        self.check_construct_args(&name, &fields, args);
                        Ty::Data(name)
                    },
                    Some((name, UserType::Enum { .. })) => {
                        let m = msg_name_then(name.as_str(), " is an enum; construct a variant instead");
                        self.error("E0303", m.as_str(), span);
                        Ty::Unknown
                    },
                    None => {
                        let callee_ty = self.check_expr(callee);
                        match callee_ty {
                            Ty::Fn { params, ret } => {
                                proof {
                                    lemma_tys_view_len(params@);
                                }
                                if args.len() != params.len() {
                                    let mut m = String::new();
                                    m.append("this function takes ");
                                    push_u64(&mut m, params.len() as u64);
                                    m.append(" argument(s) but ");
                                    push_u64(&mut m, args.len() as u64);
                                    m.append(" were given");
                                    assert(m@ =~= arity_msg(params@.len() as nat, args@.len() as nat));
                                    self.error("E0302", m.as_str(), span);
                                }
                                self.check_call_args(args, &params);
                                *ret
                            },
                            Ty::Unknown => {
                                self.check_args_plain(args);
                                Ty::Unknown
                            },
                            _ => {
                                let m = msg_ty_then(&callee_ty, " is not callable");
                                self.error("E0303", m.as_str(), callee.span);
                                Ty::Unknown
                            },
                        }
                    },
                }
            },
            _ => Ty::Unknown,
        }
    }

    /// Checks a lambda against the type expected of it: it infers its
    /// parameters from an expected function type.
    fn check_lambda(&mut self, expr: &Expr, expected: Option<Ty>) -> (t: Ty)
        ensures
            (final(self)@, t@) == cx_lambda(old(self)@, *expr, opt_ty_view(expected)),
        decreases *expr, 2nat,
    {
        match &expr.kind {
            ExprKind::Lambda { params, body } => {
                let span = expr.span;
                match expected {
                    Some(Ty::Fn { params: expected_params, ret: expected_ret }) => {
                        proof {
                            lemma_tys_view_len(expected_params@);
                        }
                        if expected_params.len() != params.len() {
                            let mut m = String::new();
                            m.append("this function type takes ");
                            push_u64(&mut m, expected_params.len() as u64);
                            m.append(" parameter(s) but the lambda has ");
                            push_u64(&mut m, params.len() as u64);
                            assert(m@ =~= "this function type takes "@ + nat_text(expected_params@.len())
                                + " parameter(s) but the lambda has "@ + nat_text(params@.len()));
                            self.error("E0302", m.as_str(), span);
                            return Ty::Unknown;
                        }
                        self.push_scope();
                        let ghost s1 = self@;
                        let ghost eps = tys_view(expected_params@);
                        let mut i: usize = 0;
                        while i < params.len()
                            invariant
                                i <= params@.len(),
                                params@.len() == expected_params@.len(),
                                eps == tys_view(expected_params@),
                                eps.len() == expected_params@.len(),
                                self@ == lambda_params(s1, params@.take(i as int), eps, span),
                            decreases params@.len() - i,
                        {
                            proof {
                                let t = params@.take(i + 1);
                                assert(t.drop_last() =~= params@.take(i as int));
                                assert(t.last() == params@[i as int]);
                                lemma_tys_view_index(expected_params@, i as int);
                            }
                            let name = &params[i];
                            if !self.declare_symbol(name.clone(), expected_params[i].duplicate(), false) {
                                let m = msg_name("duplicate parameter ", name.as_str());
                                self.error("E0202", m.as_str(), span);
                            }
                            i = i + 1;
                        }
                        assert(params@.take(i as int) =~= params@);
                        let ret_copy = expected_ret.duplicate();
                        let found = self.check_expr_expected(body, Some(ret_copy));
                        self.pop_scope();
                        if !self.assignable(&expected_ret, &found) {
                            self.type_mismatch(&expected_ret, &found, body.span);
                        }
                        Ty::Fn { params: expected_params, ret: expected_ret }
                    },
                    _ => {
                        self.error("E0310", "cannot infer the type of this lambda without an expected function type", span);
                        Ty::Unknown
                    },
                }
            },
            _ => Ty::Unknown,
        }
    }

    /// Infers the type of an expression, reporting what it can.
    #[verifier::spinoff_prover]
    #[verifier::rlimit(60)]
    pub fn check_expr(&mut self, expr: &Expr) -> (t: Ty)
        ensures
            (final(self)@, t@) == cx(old(self)@, *expr),
        decreases *expr, 3nat,
    {
        match &expr.kind {
            ExprKind::Literal(literal) => self.literal_type(literal),
            ExprKind::Ident(name) => self.ident_type(name, expr.span),
            ExprKind::Paren(inner) => self.check_expr(inner),
            ExprKind::Block(block) => {
                match self.check_block(block) {
                    Some(t) => t,
                    None => Ty::Unit,
                }
            },
            ExprKind::Field { receiver, name } => {
                let rt = self.check_expr(receiver);
                self.field_type(&rt, name, expr.span)
            },
            ExprKind::OptionalField { receiver, name } => {
                let rt = self.check_expr(receiver);
                let inner = match &rt {
                    Ty::Optional(i) => i.duplicate(),
                    _ => rt.duplicate(),
                };
                let ft = self.field_type(&inner, name, expr.span);
                Ty::Optional(Box::new(ft))
            },
            ExprKind::Call { .. } => self.check_call(expr),
            ExprKind::Index { receiver, index } => {
                let rt = self.check_expr(receiver);
                let it = self.check_expr(index);
                self.index_type(&rt, &it, expr.span)
            },
            ExprKind::Unary { op, operand } => {
                let t = self.check_expr(operand);
                self.unary_type(*op, &t, expr.span)
            },
            ExprKind::Binary { op, left, right } => {
                let lt = self.check_expr(left);
                let rt = self.check_expr(right);
                self.binary_type(*op, &lt, &rt, expr.span)
            },
            ExprKind::Cast { expr: inner, ty } => {
                let source = self.check_expr(inner);
                match resolve_type(ty) {
                    Ok(resolved) => {
                        let target = self.resolve_user_type(&resolved, ty.span);
                        if !self.cast_allowed(&source, &target) {
                            let mut m = msg_ty("cannot cast ", &source);
                            m.append(" to ");
                            push_ticked_ty(&mut m, &target);
                            self.error("E0311", m.as_str(), expr.span);
                        }
                        target
                    },
                    Err(_) => {
                        self.error("E0311", "invalid cast target type", ty.span);
                        Ty::Unknown
                    },
                }
            },
            ExprKind::Tuple(elements) => Ty::Tuple(self.check_tuple(elements)),
            ExprKind::List(elements) => {
                let t = self.check_list(elements);
                Ty::List(Box::new(match t {
                    Some(t) => t,
                    None => Ty::Unknown,
                }))
            },
            ExprKind::MapLit(entries) => {
                let (k, v) = self.check_map(entries);
                let k1 = match k {
                    Some(t) => t,
                    None => Ty::Unknown,
                };
                let v1 = match v {
                    Some(t) => t,
                    None => Ty::Unknown,
                };
                Ty::MapOf(Box::new(k1), Box::new(v1))
            },
            ExprKind::If { condition, then_block, else_branch } => {
                let ct = self.check_expr(condition);
                self.require_bool(&ct, condition.span);
                let then_ty = match self.check_block(then_block) {
                    Some(t) => t,
                    None => Ty::Unit,
                };
                match else_branch {
                    Some(branch) => {
                        let et = self.check_expr(branch);
                        self.unify(&then_ty, &et, branch.span)
                    },
                    None => Ty::Unit,
                }
            },
            ExprKind::Match { scrutinee, arms } => {
                let st = self.check_expr(scrutinee);
                match self.check_arms(arms, &st) {
                    Some(t) => t,
                    None => Ty::Unknown,
                }
            },
            ExprKind::Try(inner) => {
                let t = self.check_expr(inner);
                Ty::Result(Box::new(t))
            },
            ExprKind::Fail(_) => {
                self.error("E0407", "`fail` is not supported in 0.1.0-alpha", expr.span);
                Ty::Unknown
            },
            ExprKind::Lambda { .. } => {
                let expected = dup_opt(&self.expected);
                self.check_lambda(expr, expected)
            },
        }
    }

    /// Checks statements in order; the result is that of the last one.
    fn check_stmts(&mut self, ss: &Vec<Stmt>) -> (r: Option<Ty>)
        ensures
            (final(self)@, opt_ty_view(r)) == cx_stmts(old(self)@, ss@),
        decreases ss@, 0nat,
    {
        let mut tail: Option<Ty> = None;
        let mut i: usize = 0;
        while i < ss.len()
            invariant
                i <= ss@.len(),
                (self@, opt_ty_view(tail)) == cx_stmts(old(self)@, ss@.take(i as int)),
            decreases ss@.len() - i,
        {
            proof {
                assert(decreases_to!(ss@ => ss@[i as int]));
                let t = ss@.take(i + 1);
                assert(t.drop_last() =~= ss@.take(i as int));
                assert(t.last() == ss@[i as int]);
            }
            tail = self.check_stmt(&ss[i]);
            i = i + 1;
        }
        assert(ss@.take(i as int) =~= ss@);
        tail
    }

    /// Checks a block in a fresh scope, returning its trailing expression's
    /// type.
    fn check_block(&mut self, block: &Block) -> (r: Option<Ty>)
        ensures
            (final(self)@, opt_ty_view(r)) == cx_block(old(self)@, *block),
        decreases *block, 1nat,
    {
        self.push_scope();
        let tail = self.check_stmts(&block.statements);
        self.pop_scope();
        tail
    }

    /// Checks a statement, returning a type only for an expression statement.
    #[verifier::spinoff_prover]
    fn check_stmt(&mut self, statement: &Stmt) -> (r: Option<Ty>)
        ensures
            (final(self)@, opt_ty_view(r)) == cx_stmt(old(self)@, *statement),
        decreases *statement, 0nat,
    {
        match &statement.kind {
            StmtKind::Let { pattern, mutable, ty, value } => {
                let annotation: Option<Ty> = match ty {
                    Some(a) => Some(self.annotation(a, "E0301", "invalid type annotation")),
                    None => None,
                };
                let copy = dup_opt(&annotation);
                let found = self.check_expr_expected(value, copy);
                let expected = match annotation {
                    Some(t) => t,
                    None => found.duplicate(),
                };
                if !self.assignable(&expected, &found) {
                    self.type_mismatch(&expected, &found, value.span);
                }
                self.declare_pattern(pattern, expected, *mutable);
                None
            },
            StmtKind::Assign { target, value, .. } => {
                let found = self.check_expr(value);
                let expected = self.check_expr(target);
                self.check_assignable_target(target, statement.span);
                if !self.assignable(&expected, &found) {
                    self.type_mismatch(&expected, &found, value.span);
                }
                None
            },
            StmtKind::While { condition, body } => {
                let ct = self.check_expr(condition);
                self.require_bool(&ct, condition.span);
                self.check_block(body);
                None
            },
            StmtKind::For { pattern, iterable, body } => {
                let it = self.check_expr(iterable);
                let element = self.element_type(&it, iterable.span);
                self.push_scope();
                self.declare_pattern(pattern, element, false);
                proof {
                    assert(decreases_to!(*statement => body.statements@));
                }
                self.check_stmts(&body.statements);
                self.pop_scope();
                None
            },
            StmtKind::Return(value) => {
                let target = dup_opt(&self.current_return);
                let found = match value {
                    Some(v) => self.check_expr_expected(v, target),
                    None => Ty::Unit,
                };
                let expected = match &self.current_return {
                    Some(t) => t.duplicate(),
                    None => Ty::Unit,
                };
                if !expected.is_unknown() && !self.assignable(&expected, &found) {
                    let span = match value {
                        Some(v) => v.span,
                        None => statement.span,
                    };
                    self.type_mismatch(&expected, &found, span);
                }
                None
            },
            StmtKind::Break => None,
            StmtKind::Continue => None,
            StmtKind::Fail(value) => {
                self.check_expr(value);
                None
            },
            StmtKind::Expr(e) => Some(self.check_expr(e)),
        }
    }
}

impl Checker {
    /// Checks the default values of `data` fields in the global scope.
    fn check_data_defaults(&mut self, decl: &DataDecl)
        ensures
            final(self)@ == data_defaults_spec(old(self)@, decl.name@, decl.fields@),
    {
        let mut i: usize = 0;
        while i < decl.fields.len()
            invariant
                i <= decl.fields@.len(),
                self@ == data_defaults_spec(old(self)@, decl.name@, decl.fields@.take(i as int)),
            decreases decl.fields@.len() - i,
        {
            let field = &decl.fields[i];
            proof {
                let t = decl.fields@.take(i + 1);
                assert(t.drop_last() =~= decl.fields@.take(i as int));
                assert(t.last() == decl.fields@[i as int]);
            }
            match &field.default {
                None => {},
                Some(default) => {
                    let k = self.find_user_type(decl.name.as_str());
                    let expected = if k < self.user_types.len() {
                        match &self.user_types[k].1 {
                            UserType::Data { fields } => match find_field_named(fields, field.name.as_str()) {
                                Some(t) => t,
                                None => Ty::Unknown,
                            },
                            UserType::Enum { .. } => Ty::Unknown,
                        }
                    } else {
                        Ty::Unknown
                    };
                    let found = self.check_expr(default);
                    if !self.assignable(&expected, &found) {
                        self.type_mismatch(&expected, &found, default.span);
                    }
                },
            }
            i = i + 1;
        }
        assert(decl.fields@.take(i as int) =~= decl.fields@);
    }

    /// Checks one function body in a fresh scope.
    fn check_fn(&mut self, decl: &FnDecl)
        ensures
            final(self)@ == check_fn_spec(old(self)@, *decl),
    {
        let k = self.find_function(decl.name.as_str());
        let signature = if k < self.functions.len() { self.functions[k].1.duplicate() } else { Ty::Unknown };
        let ret = match &signature {
            Ty::Fn { ret, .. } => ret.duplicate(),
            _ => Ty::Unit,
        };
        self.push_scope();
        let ghost s1 = self@;
        let mut i: usize = 0;
        while i < decl.params.len()
            invariant
                i <= decl.params@.len(),
                self@ == fn_params_spec(s1, decl.params@.take(i as int), signature@),
            decreases decl.params@.len() - i,
        {
            let param = &decl.params[i];
            proof {
                let t = decl.params@.take(i + 1);
                assert(t.drop_last() =~= decl.params@.take(i as int));
                assert(t.last() == decl.params@[i as int]);
            }
            let ty = match &signature {
                Ty::Fn { params, .. } => {
                    proof {
                        lemma_tys_view_len(params@);
                        if i < params@.len() {
                            lemma_tys_view_index(params@, i as int);
                        }
                    }
                    if i < params.len() { params[i].duplicate() } else { Ty::Unknown }
                },
                _ => Ty::Unknown,
            };
            let copy = ty.duplicate();
            if !self.declare_symbol(param.name.clone(), copy, false) {
                let m = msg_name("duplicate parameter ", param.name.as_str());
                self.error("E0202", m.as_str(), param.span);
            }
            match &param.default {
                Some(default) => {
                    let found = self.check_expr(default);
                    if !self.assignable(&ty, &found) {
                        self.type_mismatch(&ty, &found, default.span);
                    }
                },
                None => {},
            }
            i = i + 1;
        }
        assert(decl.params@.take(i as int) =~= decl.params@);
        let mut previous = Some(ret.duplicate());
        std::mem::swap(&mut self.current_return, &mut previous);
        let body = self.check_block(&decl.body);
        self.current_return = previous;
        self.pop_scope();
        match body {
            Some(t) => {
                if !ret.is_unknown() && !matches!(ret, Ty::Unit) && !self.assignable(&ret, &t) {
                    self.type_mismatch(&ret, &t, decl.body.span);
                }
            },
            None => {},
        }
    }

    /// Checks every function body and every `data` default.
    fn check_items(&mut self, program: &Program)
        ensures
            final(self)@ == check_items_spec(old(self)@, program.items@),
    {
        let mut i: usize = 0;
        while i < program.items.len()
            invariant
                i <= program.items@.len(),
                self@ == check_items_spec(old(self)@, program.items@.take(i as int)),
            decreases program.items@.len() - i,
        {
            proof {
                let t = program.items@.take(i + 1);
                assert(t.drop_last() =~= program.items@.take(i as int));
                assert(t.last() == program.items@[i as int]);
            }
            match &program.items[i].kind {
                ItemKind::Fn(decl) => self.check_fn(decl),
                ItemKind::Data(decl) => self.check_data_defaults(decl),
                _ => {},
            }
            i = i + 1;
        }
        assert(program.items@.take(i as int) =~= program.items@);
    }

    /// Runs both passes over `program`: the prelude, user types, signatures,
    /// then bodies.
    pub fn check(self, program: &Program) -> (r: CheckResult)
        ensures
            ({
                let f = check_program_spec(self@, program.items@);
                &&& diags_view(r.diagnostics@) == f.diags
                &&& fields_view(r.functions@) == f.functions
            }),
    {
        let mut c = self;
        c.install_prelude();
        c.collect_user_types(program);
        c.collect_signatures(program);
        c.check_items(program);
        CheckResult { diagnostics: c.diagnostics, functions: c.functions }
    }
}

/// Checks a program with a fresh checker.
pub fn check(program: &Program) -> (r: CheckResult)
    ensures
        ({
            let f = check_program_spec(initial_state(), program.items@);
            &&& diags_view(r.diagnostics@) == f.diags
            &&& fields_view(r.functions@) == f.functions
        }),
{
    Checker::new().check(program)
}

} // verus!
