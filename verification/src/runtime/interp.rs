//! The evaluator: runs a program's expressions and statements over runtime
//! values, environments and calls.
//!
//! Arithmetic and comparisons on doubles are not computed here. When an
//! evaluation needs one, it stops with [`Stop::Need`], naming the operation;
//! the caller computes it and runs the evaluation again with the answers so
//! far, which are consumed in the order they were asked for. Loops and
//! calls draw on a `fuel` budget; when it runs out the evaluation stops with
//! [`Stop::Exhausted`] and the caller runs it again with more.

use vstd::prelude::*;
use crate::ast::expr::{Arg, BinaryOp, Expr, ExprKind, Literal, MatchArm, StrSegment, UnaryOp};
use crate::ast::item::{DataDecl, FieldDecl, FnDecl, ItemKind, Program, VariantDecl};
use crate::ast::stmt::{AssignOp, Block, Stmt, StmtKind};
use crate::ast::types::{Pattern, PatternKind};
use crate::ast::item::Item;
use crate::lexer::token::FloatValue;
use crate::sema::ty::{Ty, TyV, resolve_spec, resolve_type, ty_eq, ty_name};
use crate::ast::types::Type;
use crate::span::{FileId, Span};
use crate::text::{int_text, nat_text, push_char, push_i64, push_str_debug, push_u64, str_chars, str_debug_spec, str_eq};
use super::builtins::{parse_int, parse_int_spec, trim_end, trim_start};
use super::env::Binding;
use super::failure::{Failure, FailureKind};
use super::calls::{MAX_CALL_DEPTH, is_builtin_name, builtin_name};
use super::ops::{int_op_spec, int_binary, normalize_spec, range_count, range_values, MAX_RANGE};
use super::values::{Value, ValueV, value_view, value_eq, data_fields_view, lemma_data_fields_view_index, value_text, value_ty, display, lemma_eq_by_view,
    lemma_text_by_view, values_view, lemma_values_view_index, lemma_values_view_push, duplicate_values, lemma_entries_view_index};

verus! {

// --- Doubles handed out -------------------------------------------------------

/// A number as a double operation takes it.
#[derive(Clone, Copy, PartialEq, Eq, Structural, Debug)]
pub enum Num {
    Int(i64),
    /// A double, by its bits.
    Float(u64),
}

/// What is asked of doubles.
#[derive(Clone, Copy, PartialEq, Eq, Structural, Debug)]
pub enum FloatKind {
    /// `a op b` for `+ - * / %`, with an `Int` side converted.
    Arith(BinaryOp),
    /// How `a` orders against `b`.
    Compare,
    /// `-a`.
    Neg,
    /// `a` as a double (an `Int` converted).
    Convert,
    /// `a` truncated toward zero to an `Int`, saturating at the `Int` range
    /// (a NaN gives 0).
    ToInt,
}

/// One operation on doubles, for the caller to compute.
#[derive(Clone, Copy, PartialEq, Eq, Structural, Debug)]
pub struct FloatOp {
    pub kind: FloatKind,
    pub a: Num,
    pub b: Num,
}

/// The caller's answer to a [`FloatOp`].
#[derive(Debug)]
pub enum FloatAnswer {
    /// The resulting double.
    Float(FloatValue),
    /// An ordering: -1, 0 or 1, or 2 when the two do not order (a NaN).
    Order(i8),
    /// A `/` or `%` whose right side is zero.
    ZeroDivisor,
    /// An integer.
    Int(i64),
}

// --- Outcomes -------------------------------------------------------------------

/// Why an evaluation did not produce a value.
#[derive(Debug)]
pub enum Stop {
    /// A runtime failure.
    Fail(Failure),
    /// `break` on its way to its loop.
    Break,
    /// `continue` on its way to its loop.
    Continue,
    /// `return` on its way to its function.
    Return(Value),
    /// A double operation is needed.
    Need(FloatOp),
    /// The fuel ran out.
    Exhausted,
}

/// The model of a [`Stop`].
pub enum StopV {
    Fail(FailureKind, Seq<char>, Span),
    Break,
    Continue,
    Return(ValueV),
    Need(FloatOp),
    Exhausted,
}

pub open spec fn stop_view(s: Stop) -> StopV {
    match s {
        Stop::Fail(f) => StopV::Fail(f.kind, f.message@, f.span),
        Stop::Break => StopV::Break,
        Stop::Continue => StopV::Continue,
        Stop::Return(v) => StopV::Return(v@),
        Stop::Need(op) => StopV::Need(op),
        Stop::Exhausted => StopV::Exhausted,
    }
}

/// The model of an evaluation's result.
pub open spec fn res_view(r: Result<Value, Stop>) -> Result<ValueV, StopV> {
    match r {
        Ok(v) => Ok(v@),
        Err(s) => Err(stop_view(s)),
    }
}

/// An `Unsupported` failure.
pub open spec fn unsupported(message: Seq<char>, span: Span) -> StopV {
    StopV::Fail(FailureKind::Unsupported, message, span)
}

/// A value with model `v`.
pub open spec fn some_value(v: ValueV) -> Value {
    choose|a: Value| a@ == v
}

/// Structural equality of modelled values.
pub open spec fn veq(x: ValueV, y: ValueV) -> bool {
    value_eq(some_value(x), some_value(y))
}

/// The text of a modelled value.
pub open spec fn vtext(x: ValueV, quoted: bool) -> Seq<char> {
    value_text(some_value(x), quoted)
}

/// The type name of a modelled value.
pub open spec fn vname(x: ValueV) -> Seq<char> {
    ty_name(vty(x))
}

/// The type of a modelled value.
pub open spec fn vty(x: ValueV) -> TyV {
    value_ty(some_value(x))
}

proof fn lemma_some_value(a: Value)
    ensures
        some_value(a@)@ == a@,
{
    assert(exists|b: Value| b@ == a@);
}

proof fn lemma_veq(a: Value, b: Value)
    ensures
        veq(a@, b@) == value_eq(a, b),
{
    lemma_some_value(a);
    lemma_some_value(b);
    lemma_eq_by_view(a, b, some_value(a@), some_value(b@));
}

proof fn lemma_vtext(a: Value, quoted: bool)
    ensures
        vtext(a@, quoted) == value_text(a, quoted),
        vname(a@) == ty_name(value_ty(a)),
        vty(a@) == value_ty(a),
{
    lemma_some_value(a);
    lemma_text_by_view(a, some_value(a@), quoted);
}

// --- State ----------------------------------------------------------------------

/// The model of the evaluator's state.
pub struct StV {
    /// The bindings of all open scopes, outermost first.
    pub binds: Seq<(Seq<char>, ValueV, bool)>,
    /// Where each scope's bindings begin.
    pub starts: Seq<usize>,
    /// What `print` wrote.
    pub output: Seq<char>,
    /// How many double answers were used.
    pub asked: nat,
    /// The call depth.
    pub depth: nat,
    /// The double answers the caller supplied.
    pub answers: Seq<FloatAnswer>,
}

/// The evaluator's state.
pub struct Interpreter {
    binds: Vec<Binding>,
    starts: Vec<usize>,
    output: String,
    answers: Vec<FloatAnswer>,
    asked: usize,
    depth: usize,
}

pub open spec fn bind_view(b: Binding) -> (Seq<char>, ValueV, bool) {
    (b.name@, b.value@, b.mutable)
}

impl View for Interpreter {
    type V = StV;

    closed spec fn view(&self) -> StV {
        StV {
            binds: self.binds@.map_values(|b: Binding| bind_view(b)),
            starts: self.starts@,
            output: self.output@,
            asked: self.asked as nat,
            depth: self.depth as nat,
            answers: self.answers@,
        }
    }
}

/// The last binding at or after `lo` called `name`.
pub open spec fn find_bind(bs: Seq<(Seq<char>, ValueV, bool)>, name: Seq<char>, lo: int) -> Option<int>
    decreases bs.len(),
{
    if bs.len() <= lo || bs.len() == 0 {
        None
    } else if bs.last().0 == name {
        Some(bs.len() - 1)
    } else {
        find_bind(bs.drop_last(), name, lo)
    }
}

/// Where the innermost scope begins.
pub open spec fn innermost(s: StV) -> int {
    if s.starts.len() > 0 { s.starts.last() as int } else { 0 }
}

/// Opening a scope.
pub open spec fn st_push(s: StV) -> StV {
    StV { starts: s.starts.push(s.binds.len() as usize), ..s }
}

/// Closing the innermost scope, never the global one.
pub open spec fn st_pop(s: StV) -> StV {
    if s.starts.len() > 1 {
        let b = s.starts.last() as int;
        StV { binds: if b < s.binds.len() { s.binds.take(b) } else { s.binds }, starts: s.starts.drop_last(), ..s }
    } else {
        s
    }
}

/// Binding `name` in the innermost scope, in place of a binding of the same
/// name there.
pub open spec fn st_define(s: StV, name: Seq<char>, v: ValueV, mutable: bool) -> StV {
    match find_bind(s.binds, name, innermost(s)) {
        Some(j) => StV { binds: s.binds.update(j, (name, v, mutable)), ..s },
        None => StV { binds: s.binds.push((name, v, mutable)), ..s },
    }
}

/// Whether no more answers were used than were given.
pub open spec fn in_bounds(s: StV) -> bool {
    s.asked <= s.answers.len()
}

/// The starting state with the caller's double answers.
pub open spec fn initial_state(answers: Seq<FloatAnswer>) -> StV {
    StV { binds: seq![], starts: seq![0usize], output: seq![], asked: 0, depth: 0, answers }
}

proof fn lemma_find_bind_view(bs: Seq<Binding>, name: Seq<char>, lo: int)
    ensures
        find_bind(bs.map_values(|b: Binding| bind_view(b)), name, lo) matches Some(j) ==> lo <= j < bs.len() && 0 <= j,
    decreases bs.len(),
{
    let v = bs.map_values(|b: Binding| bind_view(b));
    if bs.len() > lo && bs.len() > 0 && v.last().0 != name {
        assert(v.drop_last() =~= bs.drop_last().map_values(|b: Binding| bind_view(b)));
        lemma_find_bind_view(bs.drop_last(), name, lo);
    }
}

impl Interpreter {
    /// A fresh evaluator with the caller's double answers.
    pub fn new(answers: Vec<FloatAnswer>) -> (i: Interpreter)
        ensures
            i@ == initial_state(answers@),
    {
        let mut starts: Vec<usize> = Vec::new();
        starts.push(0);
        let i = Interpreter { binds: Vec::new(), starts, output: String::new(), answers, asked: 0, depth: 0 };
        assert(i@.binds =~= seq![]);
        assert(i@.starts =~= seq![0usize]);
        assert(i@.output =~= seq![]);
        i
    }

    /// What `print` wrote.
    pub fn output(&self) -> (s: &str)
        ensures
            s@ == self@.output,
    {
        self.output.as_str()
    }

    fn push_scope(&mut self)
        ensures
            final(self)@ == st_push(old(self)@),
    {
        let n = self.binds.len();
        self.starts.push(n);
    }

    fn pop_scope(&mut self)
        ensures
            final(self)@ == st_pop(old(self)@),
    {
        if self.starts.len() > 1 {
            let b = self.starts.pop().unwrap();
            let ghost old_binds = self.binds@;
            self.binds.truncate(b);
            proof {
                if (b as int) < old_binds.len() {
                    assert(self.binds@ == old_binds.take(b as int));
                    assert(self@.binds =~= old(self)@.binds.take(b as int));
                } else {
                    assert(self@.binds =~= old(self)@.binds);
                }
            }
        }
    }

    /// The last binding at or after `lo` called `name`.
    fn find(&self, name: &str, lo: usize) -> (r: Option<usize>)
        ensures
            match r {
                Some(j) => find_bind(self@.binds, name@, lo as int) == Some(j as int) && j < self.binds@.len(),
                None => find_bind(self@.binds, name@, lo as int) is None,
            },
    {
        let ghost v = self@.binds;
        let mut k = self.binds.len();
        assert(v.take(k as int) =~= v);
        while k > lo
            invariant
                lo <= k <= self.binds@.len() || k <= lo,
                k <= self.binds@.len(),
                v == self@.binds,
                v.len() == self.binds@.len(),
                find_bind(v, name@, lo as int) == find_bind(v.take(k as int), name@, lo as int),
            decreases k,
        {
            proof {
                let t = v.take(k as int);
                assert(t.drop_last() =~= v.take(k - 1));
                assert(t.last() == bind_view(self.binds@[k - 1]));
            }
            if str_eq(self.binds[k - 1].name.as_str(), name) {
                return Some(k - 1);
            }
            k = k - 1;
        }
        proof {
            if k <= lo {
                assert(v.take(k as int).len() <= lo);
            }
        }
        None
    }

    fn define(&mut self, name: String, value: Value, mutable: bool)
        ensures
            final(self)@ == st_define(old(self)@, name@, value@, mutable),
    {
        let lo = if self.starts.len() > 0 { self.starts[self.starts.len() - 1] } else { 0 };
        let ghost nm = name@;
        let ghost vv = value@;
        match self.find(name.as_str(), lo) {
            Some(j) => {
                self.binds.set(j, Binding { name, value, mutable });
                assert(self@.binds =~= old(self)@.binds.update(j as int, (nm, vv, mutable)));
            },
            None => {
                self.binds.push(Binding { name, value, mutable });
                assert(self@.binds =~= old(self)@.binds.push((nm, vv, mutable)));
            },
        }
    }
}


// --- The meaning of a program --------------------------------------------------

/// The last function item called `name` (a later definition replaces an
/// earlier one).
pub open spec fn find_fn(items: Seq<Item>, name: Seq<char>) -> Option<int>
    decreases items.len(),
{
    if items.len() == 0 {
        None
    } else if items.last().kind matches ItemKind::Fn(d) && d.name@ == name {
        Some(items.len() - 1)
    } else {
        find_fn(items.drop_last(), name)
    }
}

/// The number of arguments a builtin takes.
pub open spec fn builtin_arity(name: Seq<char>) -> nat {
    if name == "range"@ { 2 } else { 1 }
}

/// The identity of a builtin function value.
pub open spec fn builtin_id(name: Seq<char>) -> u64 {
    if name == "print"@ { 0x8000_0000_0000_0000 }
    else if name == "len"@ { 0x8000_0000_0000_0001 }
    else if name == "range"@ { 0x8000_0000_0000_0002 }
    else if name == "str"@ { 0x8000_0000_0000_0003 }
    else if name == "int"@ { 0x8000_0000_0000_0004 }
    else if name == "float"@ { 0x8000_0000_0000_0005 }
    else if name == "assert"@ { 0x8000_0000_0000_0006 }
    else if name == "Ok"@ { 0x8000_0000_0000_0007 }
    else { 0x8000_0000_0000_0008 }
}

/// The text of a string literal: literal text as written, an
/// interpolation kept as `{source}`.
pub open spec fn segs_text(segs: Seq<StrSegment>) -> Seq<char>
    decreases segs.len(),
{
    if segs.len() == 0 {
        Seq::empty()
    } else {
        segs_text(segs.drop_last()) + match segs.last() {
            StrSegment::Lit(t) => t@,
            StrSegment::Expr { src, .. } => seq!['{'] + src@ + seq!['}'],
            StrSegment::Raw(src) => seq!['{'] + src@ + seq!['}'],
        }
    }
}

/// The value of a literal.
pub open spec fn lit_v(l: Literal) -> ValueV {
    match l {
        Literal::Int(x) => ValueV::Int(x),
        Literal::Float(f) => ValueV::Float(f.bits, f.display@),
        Literal::Bool(b) => ValueV::Bool(b),
        Literal::Str(segs) => ValueV::Str(segs_text(segs@)),
        Literal::NoneLit => ValueV::NoneLit,
    }
}

/// What a name evaluates to: its innermost binding, else a function of that
/// name, else a builtin.
pub open spec fn ident_v(p: Seq<Item>, s: StV, name: Seq<char>, span: Span) -> Result<ValueV, StopV> {
    match find_bind(s.binds, name, 0) {
        Some(j) => Ok(s.binds[j].1),
        None => match find_fn(p, name) {
            Some(i) => Ok(ValueV::Function(name, i as u64)),
            None => if is_builtin_name(name) {
                Ok(ValueV::Function(name, builtin_id(name)))
            } else {
                match find_variant(p, name) {
                    Some((en, k)) => if k == 0 {
                        Ok(ValueV::Variant(en, name, Seq::empty()))
                    } else {
                        Ok(ValueV::Function(name, CONSTRUCTOR_ID))
                    },
                    None => Err(unsupported("undefined name `"@ + name + "`"@, span)),
                }
            },
        },
    }
}

/// The identity of a variant constructor as a function value.
pub const CONSTRUCTOR_ID: u64 = 0x4000_0000_0000_0000;

/// The last variant called `name`.
pub open spec fn variant_in(vs: Seq<VariantDecl>, name: Seq<char>) -> Option<int>
    decreases vs.len(),
{
    if vs.len() == 0 {
        None
    } else if vs.last().name@ == name {
        Some(vs.len() - 1)
    } else {
        variant_in(vs.drop_last(), name)
    }
}

/// The enum and payload arity of the variant called `name`; a later
/// declaration replaces an earlier one.
pub open spec fn find_variant(items: Seq<Item>, name: Seq<char>) -> Option<(Seq<char>, nat)>
    decreases items.len(),
{
    if items.len() == 0 {
        None
    } else {
        match items.last().kind {
            ItemKind::Enum(d) => match variant_in(d.variants@, name) {
                Some(j) => Some((d.name@, d.variants@[j].payload@.len())),
                None => find_variant(items.drop_last(), name),
            },
            _ => find_variant(items.drop_last(), name),
        }
    }
}

/// The last `data` declaration called `name`.
pub open spec fn find_data(items: Seq<Item>, name: Seq<char>) -> Option<int>
    decreases items.len(),
{
    if items.len() == 0 {
        None
    } else if items.last().kind matches ItemKind::Data(d) && d.name@ == name {
        Some(items.len() - 1)
    } else {
        find_data(items.drop_last(), name)
    }
}

/// The fields of a `data` value as constructed before any argument: each
/// field `none`.
pub open spec fn unset_fields(d: DataDecl) -> Seq<(Seq<char>, ValueV)> {
    Seq::new(d.fields@.len(), |k: int| (d.fields@[k].name@, ValueV::NoneLit))
}

/// The first field from the `i`-th on called `name`.
pub open spec fn field_pos(fs: Seq<FieldDecl>, name: Seq<char>, i: int) -> Option<int>
    decreases fs.len() - i,
{
    if i < 0 || i >= fs.len() {
        None
    } else if fs[i].name@ == name {
        Some(i)
    } else {
        field_pos(fs, name, i + 1)
    }
}

/// The name of an identifier expression.
pub open spec fn ident_name(e: Expr) -> Option<Seq<char>> {
    match e.kind {
        ExprKind::Ident(n) => Some(n@),
        _ => None,
    }
}

/// The first field of `fs` from the `i`-th on called `name`.
pub open spec fn field_value(fs: Seq<(Seq<char>, ValueV)>, name: Seq<char>, i: int) -> Option<ValueV>
    decreases fs.len() - i,
{
    if i < 0 || i >= fs.len() {
        None
    } else if fs[i].0 == name {
        Some(fs[i].1)
    } else {
        field_value(fs, name, i + 1)
    }
}

/// Reading the field `name` of a value.
pub open spec fn field_spec(v: ValueV, name: Seq<char>, span: Span) -> Result<ValueV, StopV> {
    match v {
        ValueV::Data(tn, fs) => match field_value(fs, name, 0) {
            Some(x) => Ok(x),
            None => Err(unsupported("`"@ + tn + "` has no field `"@ + name + "`"@, span)),
        },
        _ => Err(unsupported("`"@ + vname(v) + "` has no field `"@ + name + "`"@, span)),
    }
}

/// Using the next double answer, or asking for `op`.
pub open spec fn ask(s: StV, op: FloatOp) -> (StV, Result<FloatAnswer, StopV>) {
    if s.asked < s.answers.len() {
        (StV { asked: s.asked + 1, ..s }, Ok(s.answers[s.asked as int]))
    } else {
        (s, Err(StopV::Need(op)))
    }
}

/// A number as a double operation takes it.
pub open spec fn num_of(v: ValueV) -> Option<Num> {
    match v {
        ValueV::Int(x) => Some(Num::Int(x)),
        ValueV::Float(b, _) => Some(Num::Float(b)),
        _ => None,
    }
}

/// The failure for an answer of the wrong kind.
pub open spec fn mismatch(span: Span) -> StopV {
    unsupported("a double answer does not fit the operation"@, span)
}

/// "cannot apply `op` to `L` and `R`".
pub open spec fn apply_message(op: BinaryOp, l: ValueV, r: ValueV) -> Seq<char> {
    "cannot apply `"@ + op.spelling() + "` to `"@ + vname(l) + "` and `"@ + vname(r) + "`"@
}

/// `+ - * / %` on two values.
pub open spec fn arith_spec(s: StV, op: BinaryOp, l: ValueV, r: ValueV, span: Span) -> (StV, Result<ValueV, StopV>) {
    if l is Float || r is Float {
        match (num_of(l), num_of(r)) {
            (Some(a), Some(b)) => {
                let (s1, ans) = ask(s, FloatOp { kind: FloatKind::Arith(op), a, b });
                match ans {
                    Ok(FloatAnswer::Float(f)) => (s1, Ok(ValueV::Float(f.bits, f.display@))),
                    Ok(FloatAnswer::ZeroDivisor) => (s1, Err(StopV::Fail(FailureKind::DivisionByZero, "division by zero"@, span))),
                    Ok(_) => (s1, Err(mismatch(span))),
                    Err(x) => (s1, Err(x)),
                }
            },
            _ => (s, Err(unsupported(apply_message(op, l, r), span))),
        }
    } else {
        match (l, r) {
            (ValueV::Int(a), ValueV::Int(b)) => match int_op_spec(op, a as int, b as int) {
                Ok(x) => (s, Ok(ValueV::Int(x as i64))),
                Err(k) => (s, Err(StopV::Fail(k, if k is DivisionByZero { "division by zero"@ } else {
                    "integer overflow in `"@ + op.spelling() + "`"@ }, span))),
            },
            _ => (s, Err(unsupported(apply_message(op, l, r), span))),
        }
    }
}

/// `v as ty`: an `Int` becomes a double; a value already of the type is
/// kept; anything else fails.
pub open spec fn cast_spec(s: StV, v: ValueV, ty: Type, span: Span) -> (StV, Result<ValueV, StopV>) {
    match resolve_spec(ty) {
        Err(_) => (s, Err(unsupported("invalid cast target"@, span))),
        Ok(t) => if v is Int && t == TyV::Float {
            let (s1, ans) = ask(s, FloatOp { kind: FloatKind::Convert, a: Num::Int(v->Int_0), b: Num::Int(0) });
            match ans {
                Ok(FloatAnswer::Float(f)) => (s1, Ok(ValueV::Float(f.bits, f.display@))),
                Ok(_) => (s1, Err(mismatch(span))),
                Err(x) => (s1, Err(x)),
            }
        } else if vty(v) == t {
            (s, Ok(v))
        } else {
            (s, Err(unsupported("cannot cast `"@ + vname(v) + "` to `"@ + ty_name(t) + "`"@, span)))
        },
    }
}

/// Lexicographic order of two strings by character: -1, 0 or 1.
pub open spec fn text_order(a: Seq<char>, b: Seq<char>) -> int
    decreases a.len(),
{
    if a.len() == 0 {
        if b.len() == 0 { 0 } else { -1 }
    } else if b.len() == 0 {
        1
    } else if (a[0] as u32) < (b[0] as u32) {
        -1
    } else if (a[0] as u32) > (b[0] as u32) {
        1
    } else {
        text_order(a.drop_first(), b.drop_first())
    }
}

/// How `l` orders against `r`: -1, 0 or 1.
pub open spec fn compare_spec(s: StV, l: ValueV, r: ValueV, span: Span) -> (StV, Result<int, StopV>) {
    match (l, r) {
        (ValueV::Int(a), ValueV::Int(b)) => (s, Ok(if a < b { -1 } else if a > b { 1 } else { 0 })),
        (ValueV::Str(a), ValueV::Str(b)) => (s, Ok(text_order(a, b))),
        _ => if (l is Float || r is Float) && num_of(l) is Some && num_of(r) is Some {
            let (s1, ans) = ask(s, FloatOp { kind: FloatKind::Compare, a: num_of(l)->Some_0, b: num_of(r)->Some_0 });
            match ans {
                Ok(FloatAnswer::Order(o)) => if -1 <= o <= 1 {
                    (s1, Ok(o as int))
                } else {
                    (s1, Err(unsupported("cannot order `NaN`"@, span)))
                },
                Ok(_) => (s1, Err(mismatch(span))),
                Err(x) => (s1, Err(x)),
            }
        } else {
            (s, Err(unsupported("cannot compare `"@ + vname(l) + "` and `"@ + vname(r) + "`"@, span)))
        },
    }
}

/// The integers of a range literal, at most `MAX_RANGE` of them.
pub open spec fn range_list(a: i64, b: i64, inclusive: bool) -> Seq<ValueV> {
    Seq::new(range_count(a as int, b as int, inclusive, MAX_RANGE as int) as nat, |k: int| ValueV::Int((a + k) as i64))
}

/// A binary operator other than `and`, `or` and `??`, on two values.
pub open spec fn binary_spec(s: StV, op: BinaryOp, l: ValueV, r: ValueV, span: Span) -> (StV, Result<ValueV, StopV>) {
    match op {
        BinaryOp::Eq => (s, Ok(ValueV::Bool(veq(l, r)))),
        BinaryOp::NotEq => (s, Ok(ValueV::Bool(!veq(l, r)))),
        BinaryOp::Lt | BinaryOp::Le | BinaryOp::Gt | BinaryOp::Ge => {
            let (s1, c) = compare_spec(s, l, r, span);
            match c {
                Ok(o) => (s1, Ok(ValueV::Bool(match op {
                    BinaryOp::Lt => o < 0,
                    BinaryOp::Le => o <= 0,
                    BinaryOp::Gt => o > 0,
                    _ => o >= 0,
                }))),
                Err(x) => (s1, Err(x)),
            }
        },
        BinaryOp::Range | BinaryOp::RangeInclusive => match (l, r) {
            (ValueV::Int(a), ValueV::Int(b)) => (s, Ok(ValueV::List(range_list(a, b, op is RangeInclusive)))),
            _ => (s, Err(unsupported("range bounds must be `Int`"@, span))),
        },
        BinaryOp::Add => match (l, r) {
            (ValueV::Str(a), ValueV::Str(b)) => (s, Ok(ValueV::Str(a + b))),
            (ValueV::List(a), ValueV::List(b)) => (s, Ok(ValueV::List(a + b))),
            _ => arith_spec(s, op, l, r, span),
        },
        BinaryOp::Sub | BinaryOp::Mul | BinaryOp::Div | BinaryOp::Rem => arith_spec(s, op, l, r, span),
        _ => (s, Ok(ValueV::Bool(false))),
    }
}

/// A prefix operator on a value.
pub open spec fn unary_spec(s: StV, op: UnaryOp, v: ValueV, span: Span) -> (StV, Result<ValueV, StopV>) {
    match op {
        UnaryOp::Not => match v {
            ValueV::Bool(b) => (s, Ok(ValueV::Bool(!b))),
            _ => (s, Err(unsupported("`not` expects `Bool`, found `"@ + vname(v) + "`"@, span))),
        },
        UnaryOp::Neg => match v {
            ValueV::Int(x) => if x == i64::MIN {
                (s, Err(StopV::Fail(FailureKind::Overflow, "integer overflow negating the minimum `Int`"@, span)))
            } else {
                (s, Ok(ValueV::Int((-x) as i64)))
            },
            ValueV::Float(b, _) => {
                let (s1, ans) = ask(s, FloatOp { kind: FloatKind::Neg, a: Num::Float(b), b: Num::Int(0) });
                match ans {
                    Ok(FloatAnswer::Float(f)) => (s1, Ok(ValueV::Float(f.bits, f.display@))),
                    Ok(_) => (s1, Err(mismatch(span))),
                    Err(x) => (s1, Err(x)),
                }
            },
            _ => (s, Err(unsupported("cannot negate `"@ + vname(v) + "`"@, span))),
        },
    }
}

/// "index I is out of bounds for a collection of length N".
pub open spec fn bounds_message(i: i64, n: nat) -> Seq<char> {
    "index "@ + int_text(i as int) + " is out of bounds for a collection of length "@ + nat_text(n)
}

/// Indexing a list or a string.
pub open spec fn index_spec(c: ValueV, i: ValueV, span: Span) -> Result<ValueV, StopV> {
    match c {
        ValueV::List(xs) => match i {
            ValueV::Int(k) => match normalize_spec(k as int, xs.len() as int) {
                Some(j) => Ok(xs[j]),
                None => Err(StopV::Fail(FailureKind::IndexOutOfBounds, bounds_message(k, xs.len()), span)),
            },
            _ => Err(unsupported("list index must be an `Int`"@, span)),
        },
        ValueV::Str(t) => match i {
            ValueV::Int(k) => match normalize_spec(k as int, t.len() as int) {
                Some(j) => Ok(ValueV::Str(seq![t[j]])),
                None => Err(StopV::Fail(FailureKind::IndexOutOfBounds, bounds_message(k, t.len()), span)),
            },
            _ => Err(unsupported("string index must be an `Int`"@, span)),
        },
        _ => Err(unsupported("`"@ + vname(c) + "` cannot be indexed"@, span)),
    }
}

/// The values a `for` loop goes through: a list's elements or a string's
/// characters.
pub open spec fn elems_of(v: ValueV) -> Option<Seq<ValueV>> {
    match v {
        ValueV::List(xs) => Some(xs),
        ValueV::Str(t) => Some(Seq::new(t.len(), |i: int| ValueV::Str(seq![t[i]]))),
        _ => None,
    }
}

/// The operator a compound assignment applies.
pub open spec fn assign_binop(op: AssignOp) -> BinaryOp {
    match op {
        AssignOp::Sub => BinaryOp::Sub,
        AssignOp::Mul => BinaryOp::Mul,
        AssignOp::Div => BinaryOp::Div,
        _ => BinaryOp::Add,
    }
}

/// Assigning `v` to a name.
pub open spec fn assign_spec(s: StV, target: Expr, v: ValueV, span: Span) -> (StV, Result<ValueV, StopV>) {
    match target.kind {
        ExprKind::Ident(n) => match find_bind(s.binds, n@, 0) {
            None => (s, Err(unsupported("undefined name `"@ + n@ + "`"@, span))),
            Some(j) => if !s.binds[j].2 {
                (s, Err(unsupported("cannot assign to immutable `"@ + n@ + "`"@, span)))
            } else {
                (StV { binds: s.binds.update(j, (s.binds[j].0, v, true)), ..s }, Ok(ValueV::Unit))
            },
        },
        _ => (s, Err(unsupported("only a name can be assigned to here"@, span))),
    }
}

/// Assigning `v` to an assignment target: a name is rebound; assigning to a
/// field or an element fails.
pub open spec fn assign_to(p: Seq<Item>, s: StV, target: Expr, v: ValueV, span: Span, fuel: nat) -> (StV, Result<ValueV, StopV>)
    decreases fuel, target, 2nat, 0nat,
{
    match target.kind {
        ExprKind::Ident(_) => assign_spec(s, target, v, span),
        ExprKind::Field { receiver, name } => {
            let (s1, r) = eval_spec(p, s, *receiver, fuel);
            match r {
                Err(x) => (s1, Err(x)),
                Ok(c) => (s1, Err(unsupported("assigning to field `"@ + name@ + "` of a `"@ + vname(c)
                    + "` is not supported in 0.1.0-alpha"@, span))),
            }
        },
        ExprKind::Index { .. } => (s, Err(unsupported("assigning to an element is not evaluated"@, span))),
        _ => (s, Err(unsupported("invalid assignment target"@, span))),
    }
}

/// Binding parameters in order.
pub open spec fn define_params(s: StV, names: Seq<Seq<char>>, args: Seq<ValueV>) -> StV
    decreases names.len(),
{
    if names.len() == 0 || args.len() == 0 {
        s
    } else {
        st_define(define_params(s, names.drop_last(), args.drop_last()), names.last(), args.last(), false)
    }
}

/// A builtin called with the right number of arguments.
pub open spec fn builtin_spec(s: StV, name: Seq<char>, args: Seq<ValueV>, span: Span) -> (StV, Result<ValueV, StopV>) {
    let a = args[0];
    if name == "print"@ {
        (StV { output: s.output + vtext(a, false) + seq!['\n'], ..s }, Ok(ValueV::Unit))
    } else if name == "len"@ {
        match a {
            ValueV::Str(t) => (s, Ok(ValueV::Int(t.len() as i64))),
            ValueV::List(xs) => (s, Ok(ValueV::Int(xs.len() as i64))),
            ValueV::MapOf(es) => (s, Ok(ValueV::Int(es.len() as i64))),
            _ => (s, Err(unsupported("`len` expects "@ + vname(a), span))),
        }
    } else if name == "range"@ {
        match (args[0], args[1]) {
            (ValueV::Int(x), ValueV::Int(y)) => (s, Ok(ValueV::List(
                Seq::new((if x < y { y - x } else { 0 }) as nat, |k: int| ValueV::Int((x + k) as i64))))),
            _ => (s, Err(unsupported("`range` expects Int, Int"@, span))),
        }
    } else if name == "str"@ {
        (s, Ok(ValueV::Str(vtext(a, false))))
    } else if name == "assert"@ {
        match a {
            ValueV::Bool(true) => (s, Ok(ValueV::Unit)),
            ValueV::Bool(false) => (s, Err(StopV::Fail(FailureKind::AssertionFailed, "assertion failed"@, span))),
            _ => (s, Err(unsupported("`assert` expects Bool"@, span))),
        }
    } else if name == "Ok"@ {
        (s, Ok(ValueV::Result(true, Box::new(a), None)))
    } else if name == "Err"@ {
        match a {
            ValueV::Str(m) => (s, Ok(ValueV::Result(false, Box::new(ValueV::Unit), Some((FailureKind::Unsupported, m))))),
            ValueV::Data(_, fs) => (s, Ok(ValueV::Result(false, Box::new(ValueV::Unit),
                Some((FailureKind::Unsupported, data_message_v(fs)))))),
            _ => (s, Err(unsupported("`Err` expects "@ + vname(a), span))),
        }
    } else if name == "int"@ {
        match a {
            ValueV::Int(x) => (s, Ok(ValueV::Int(x))),
            ValueV::Bool(b) => (s, Ok(ValueV::Int(if b { 1 } else { 0 }))),
            ValueV::Str(t) => match parse_int_spec(trim_end(trim_start(t))) {
                Some(x) => (s, Ok(ValueV::Int(x as i64))),
                None => (s, Err(unsupported("`int` cannot parse "@ + str_debug_spec(t), span))),
            },
            ValueV::Float(bits, _) => {
                let (s1, ans) = ask(s, FloatOp { kind: FloatKind::ToInt, a: Num::Float(bits), b: Num::Int(0) });
                match ans {
                    Ok(FloatAnswer::Int(x)) => (s1, Ok(ValueV::Int(x))),
                    Ok(_) => (s1, Err(mismatch(span))),
                    Err(x) => (s1, Err(x)),
                }
            },
            _ => (s, Err(unsupported("`int` expects "@ + vname(a), span))),
        }
    } else {
        match a {
            ValueV::Float(b, d) => (s, Ok(ValueV::Float(b, d))),
            ValueV::Int(x) => {
                let (s1, ans) = ask(s, FloatOp { kind: FloatKind::Convert, a: Num::Int(x), b: Num::Int(0) });
                match ans {
                    Ok(FloatAnswer::Float(f)) => (s1, Ok(ValueV::Float(f.bits, f.display@))),
                    Ok(_) => (s1, Err(mismatch(span))),
                    Err(x) => (s1, Err(x)),
                }
            },
            _ => (s, Err(unsupported("`float` expects "@ + vname(a), span))),
        }
    }
}

/// The message of an `Err` of a `data` value: its first `message` field as
/// `print` shows it, or `failure`.
pub open spec fn data_message_v(fs: Seq<(Seq<char>, ValueV)>) -> Seq<char> {
    match field_value(fs, "message"@, 0) {
        Some(x) => vtext(x, false),
        None => "failure"@,
    }
}

/// "`f` takes N argument(s) but M were given".
pub open spec fn arity_msg(name: Seq<char>, expected: nat, found: nat) -> Seq<char> {
    seq!['`'] + name + "` takes "@ + nat_text(expected) + " argument(s) but "@ + nat_text(found) + " were given"@
}

/// The parameter names of a function.
pub open spec fn param_names(d: FnDecl) -> Seq<Seq<char>> {
    Seq::new(d.params@.len(), |i: int| d.params@[i].name@)
}


/// Evaluating an expression.
pub open spec fn eval_spec(p: Seq<Item>, s: StV, e: Expr, fuel: nat) -> (StV, Result<ValueV, StopV>)
    decreases fuel, e, 3nat, 0nat,
{
    match e.kind {
        ExprKind::Literal(l) => (s, Ok(lit_v(l))),
        ExprKind::Ident(name) => (s, ident_v(p, s, name@, e.span)),
        ExprKind::Paren(inner) => eval_spec(p, s, *inner, fuel),
        ExprKind::Block(b) => block_spec(p, s, b, fuel),
        ExprKind::Unary { op, operand } => {
            let (s1, r) = eval_spec(p, s, *operand, fuel);
            match r {
                Ok(v) => unary_spec(s1, op, v, e.span),
                Err(x) => (s1, Err(x)),
            }
        },
        ExprKind::Binary { op, left, right } => {
            let (s1, r1) = eval_spec(p, s, *left, fuel);
            match r1 {
                Err(x) => (s1, Err(x)),
                Ok(l) => match op {
                    BinaryOp::And => match l {
                        ValueV::Bool(false) => (s1, Ok(ValueV::Bool(false))),
                        ValueV::Bool(true) => {
                            let (s2, r2) = eval_spec(p, s1, *right, fuel);
                            match r2 {
                                Ok(ValueV::Bool(b)) => (s2, Ok(ValueV::Bool(b))),
                                Ok(_) => (s2, Err(unsupported("`and` expects `Bool`"@, e.span))),
                                Err(x) => (s2, Err(x)),
                            }
                        },
                        _ => (s1, Err(unsupported("`and` expects `Bool`, found `"@ + vname(l) + "`"@, e.span))),
                    },
                    BinaryOp::Or => match l {
                        ValueV::Bool(true) => (s1, Ok(ValueV::Bool(true))),
                        ValueV::Bool(false) => {
                            let (s2, r2) = eval_spec(p, s1, *right, fuel);
                            match r2 {
                                Ok(ValueV::Bool(b)) => (s2, Ok(ValueV::Bool(b))),
                                Ok(_) => (s2, Err(unsupported("`or` expects `Bool`"@, e.span))),
                                Err(x) => (s2, Err(x)),
                            }
                        },
                        _ => (s1, Err(unsupported("`or` expects `Bool`, found `"@ + vname(l) + "`"@, e.span))),
                    },
                    BinaryOp::Coalesce => match l {
                        ValueV::NoneLit => eval_spec(p, s1, *right, fuel),
                        _ => (s1, Ok(l)),
                    },
                    _ => {
                        let (s2, r2) = eval_spec(p, s1, *right, fuel);
                        match r2 {
                            Ok(r) => binary_spec(s2, op, l, r, e.span),
                            Err(x) => (s2, Err(x)),
                        }
                    },
                },
            }
        },
        ExprKind::If { condition, then_block, else_branch } => {
            let (s1, r) = eval_spec(p, s, *condition, fuel);
            match r {
                Ok(ValueV::Bool(true)) => block_spec(p, s1, then_block, fuel),
                Ok(ValueV::Bool(false)) => match else_branch {
                    Some(b) => eval_spec(p, s1, *b, fuel),
                    None => (s1, Ok(ValueV::Unit)),
                },
                Ok(_) => (s1, Err(unsupported("condition is not a `Bool`"@, e.span))),
                Err(x) => (s1, Err(x)),
            }
        },
        ExprKind::List(es) => {
            let (s1, r) = evals_spec(p, s, es@, fuel);
            match r {
                Ok(vs) => (s1, Ok(ValueV::List(vs))),
                Err(x) => (s1, Err(x)),
            }
        },
        ExprKind::Tuple(es) => {
            let (s1, r) = evals_spec(p, s, es@, fuel);
            match r {
                Ok(vs) => (s1, Ok(ValueV::Tuple(vs))),
                Err(x) => (s1, Err(x)),
            }
        },
        ExprKind::Index { receiver, index } => {
            let (s1, r1) = eval_spec(p, s, *receiver, fuel);
            match r1 {
                Err(x) => (s1, Err(x)),
                Ok(c) => {
                    let (s2, r2) = eval_spec(p, s1, *index, fuel);
                    match r2 {
                        Ok(i) => (s2, index_spec(c, i, e.span)),
                        Err(x) => (s2, Err(x)),
                    }
                },
            }
        },
        ExprKind::Field { receiver, name } => {
            let (s1, r) = eval_spec(p, s, *receiver, fuel);
            match r {
                Ok(v) => (s1, field_spec(v, name@, e.span)),
                Err(x) => (s1, Err(x)),
            }
        },
        ExprKind::OptionalField { receiver, name } => {
            let (s1, r) = eval_spec(p, s, *receiver, fuel);
            match r {
                Ok(ValueV::NoneLit) => (s1, Ok(ValueV::NoneLit)),
                Ok(v) => (s1, field_spec(v, name@, e.span)),
                Err(x) => (s1, Err(x)),
            }
        },
        ExprKind::Call { callee, args } => if ident_name(*callee) is Some
            && find_data(p, ident_name(*callee)->Some_0) is Some {
            match p[find_data(p, ident_name(*callee)->Some_0)->Some_0].kind {
                ItemKind::Data(d) => construct_spec(p, s, d, args@, 0, unset_fields(d), e, fuel),
                _ => (s, Ok(ValueV::Unit)),
            }
        } else if ident_name(*callee) is Some && find_variant(p, ident_name(*callee)->Some_0) is Some {
            let n = ident_name(*callee)->Some_0;
            let (en, k) = find_variant(p, n)->Some_0;
            let (s2, r2) = args_spec(p, s, args@, fuel);
            match r2 {
                Ok(vs) => if vs.len() != k {
                    (s2, Err(unsupported("variant `"@ + n + "` takes "@ + nat_text(k) + " field(s) but "@
                        + nat_text(vs.len()) + " were given"@, e.span)))
                } else {
                    (s2, Ok(ValueV::Variant(en, n, vs)))
                },
                Err(x) => (s2, Err(x)),
            }
        } else {
            let (s1, r1) = eval_spec(p, s, *callee, fuel);
            match r1 {
                Err(x) => (s1, Err(x)),
                Ok(ValueV::Function(name, _)) => {
                    let (s2, r2) = args_spec(p, s1, args@, fuel);
                    match r2 {
                        Ok(vs) => call_spec(p, s2, name, vs, e, fuel),
                        Err(x) => (s2, Err(x)),
                    }
                },
                Ok(v) => (s1, Err(unsupported("`"@ + vname(v) + "` is not callable"@, e.span))),
            }
        },
        ExprKind::Cast { expr: inner, ty } => {
            let (s1, r) = eval_spec(p, s, *inner, fuel);
            match r {
                Err(x) => (s1, Err(x)),
                Ok(v) => cast_spec(s1, v, ty, e.span),
            }
        },
        ExprKind::Try(inner) => {
            let (s1, r) = eval_spec(p, s, *inner, fuel);
            match r {
                Ok(v) => (s1, Ok(ValueV::Result(true, Box::new(v), None))),
                Err(StopV::Fail(k, m, _)) => (s1, Ok(ValueV::Result(false, Box::new(ValueV::Unit), Some((k, m))))),
                Err(x) => (s1, Err(x)),
            }
        },
        ExprKind::Match { scrutinee, arms } => {
            let (s1, r) = eval_spec(p, s, *scrutinee, fuel);
            match r {
                Ok(v) => arms_spec(p, s1, v, arms@, 0, e, fuel),
                Err(x) => (s1, Err(x)),
            }
        },
        ExprKind::Fail(inner) => {
            let (s1, r) = eval_spec(p, s, *inner, fuel);
            match r {
                Ok(v) => (s1, Err(unsupported(vtext(v, false), e.span))),
                Err(x) => (s1, Err(x)),
            }
        },
        _ => (s, Err(unsupported("this expression is not evaluated"@, e.span))),
    }
}

/// Evaluating expressions left to right.
pub open spec fn evals_spec(p: Seq<Item>, s: StV, es: Seq<Expr>, fuel: nat) -> (StV, Result<Seq<ValueV>, StopV>)
    decreases fuel, es, 2nat, 0nat,
{
    if es.len() == 0 {
        (s, Ok(Seq::empty()))
    } else {
        let (s1, r1) = evals_spec(p, s, es.drop_last(), fuel);
        match r1 {
            Err(x) => (s1, Err(x)),
            Ok(vs) => {
                let (s2, r2) = eval_spec(p, s1, es.last(), fuel);
                match r2 {
                    Ok(v) => (s2, Ok(vs.push(v))),
                    Err(x) => (s2, Err(x)),
                }
            },
        }
    }
}

/// Trying `match` arms from the `i`-th on: each in a scope of its own,
/// whose pattern bindings its guard and body see.
pub open spec fn arms_spec(p: Seq<Item>, s: StV, v: ValueV, arms: Seq<MatchArm>, i: nat, e: Expr, fuel: nat) -> (StV, Result<ValueV, StopV>)
    decreases fuel, arms, 2nat, arms.len() - i,
{
    if i >= arms.len() {
        (s, Err(unsupported("no `match` arm matched `"@ + vtext(v, false) + "`"@, e.span)))
    } else {
        let arm = arms[i as int];
        let (s1, m) = match_pat(p, st_push(s), arm.pattern, v);
        if !m {
            arms_spec(p, st_pop(s1), v, arms, i + 1, e, fuel)
        } else {
            match arm.guard {
                Some(g) => {
                    let (s2, rg) = eval_spec(p, s1, g, fuel);
                    match rg {
                        Err(x) => (s2, Err(x)),
                        Ok(ValueV::Bool(true)) => {
                            let (s3, rb) = eval_spec(p, s2, arm.body, fuel);
                            (st_pop(s3), rb)
                        },
                        Ok(_) => arms_spec(p, st_pop(s2), v, arms, i + 1, e, fuel),
                    }
                },
                None => {
                    let (s3, rb) = eval_spec(p, s1, arm.body, fuel);
                    (st_pop(s3), rb)
                },
            }
        }
    }
}

/// Building a `data` value from the `i`-th argument on: a named argument
/// sets the field of its name, a positional one the field at its position.
pub open spec fn construct_spec(p: Seq<Item>, s: StV, d: DataDecl, args: Seq<Arg>, i: nat,
    fields: Seq<(Seq<char>, ValueV)>, e: Expr, fuel: nat) -> (StV, Result<ValueV, StopV>)
    decreases fuel, args, 2nat, args.len() - i,
{
    if i >= args.len() {
        (s, Ok(ValueV::Data(d.name@, fields)))
    } else {
        let (s1, r) = eval_spec(p, s, args[i as int].value, fuel);
        match r {
            Err(x) => (s1, Err(x)),
            Ok(v) => {
                let pos = match args[i as int].name {
                    Some(f) => field_pos(d.fields@, f@, 0),
                    None => Some(i as int),
                };
                match pos {
                    Some(k) => if 0 <= k < fields.len() {
                        construct_spec(p, s1, d, args, i + 1, fields.update(k, (fields[k].0, v)), e, fuel)
                    } else {
                        (s1, Err(unsupported("`"@ + d.name@ + "` has no field for this argument"@, e.span)))
                    },
                    None => (s1, Err(unsupported("`"@ + d.name@ + "` has no field for this argument"@, e.span))),
                }
            },
        }
    }
}

/// Whether `pat` matches `v`, binding its names in the innermost scope.
pub open spec fn match_pat(p: Seq<Item>, s: StV, pat: Pattern, v: ValueV) -> (StV, bool)
    decreases pat, 1nat, 0nat,
{
    match pat.kind {
        PatternKind::Wildcard => (s, true),
        PatternKind::Bind(n) => match find_variant(p, n@) {
            Some((_, k)) => (s, v matches ValueV::Variant(_, vn, pl) && vn == n@ && pl.len() == k),
            None => (st_define(s, n@, v, false), true),
        },
        PatternKind::Literal(l) => (s, veq(lit_v(l), v)),
        PatternKind::Variant { name, fields } => match v {
            ValueV::Variant(_, vn, pl) => if vn == name@ && pl.len() == fields@.len() {
                match_pats(p, s, fields@, pl, 0)
            } else {
                (s, false)
            },
            _ => (s, false),
        },
    }
}

/// Whether the patterns from the `i`-th on match the values, stopping at
/// the first that does not.
pub open spec fn match_pats(p: Seq<Item>, s: StV, pats: Seq<Pattern>, vs: Seq<ValueV>, i: nat) -> (StV, bool)
    decreases pats, 0nat, pats.len() - i,
{
    if i >= pats.len() || i >= vs.len() {
        (s, true)
    } else {
        let (s1, m) = match_pat(p, s, pats[i as int], vs[i as int]);
        if !m {
            (s1, false)
        } else {
            match_pats(p, s1, pats, vs, i + 1)
        }
    }
}

/// Evaluating call arguments left to right.
pub open spec fn args_spec(p: Seq<Item>, s: StV, args: Seq<crate::ast::expr::Arg>, fuel: nat) -> (StV, Result<Seq<ValueV>, StopV>)
    decreases fuel, args, 2nat, 0nat,
{
    if args.len() == 0 {
        (s, Ok(Seq::empty()))
    } else {
        let (s1, r1) = args_spec(p, s, args.drop_last(), fuel);
        match r1 {
            Err(x) => (s1, Err(x)),
            Ok(vs) => {
                let (s2, r2) = eval_spec(p, s1, args.last().value, fuel);
                match r2 {
                    Ok(v) => (s2, Ok(vs.push(v))),
                    Err(x) => (s2, Err(x)),
                }
            },
        }
    }
}

/// Running a block in a scope of its own; its value is its last
/// statement's.
pub open spec fn block_spec(p: Seq<Item>, s: StV, b: Block, fuel: nat) -> (StV, Result<ValueV, StopV>)
    decreases fuel, b, 2nat, 0nat,
{
    let (s1, r) = stmts_spec(p, st_push(s), b.statements@, fuel);
    (st_pop(s1), r)
}

/// Running statements in order; the value is the last one's.
pub open spec fn stmts_spec(p: Seq<Item>, s: StV, ss: Seq<Stmt>, fuel: nat) -> (StV, Result<ValueV, StopV>)
    decreases fuel, ss, 2nat, 0nat,
{
    if ss.len() == 0 {
        (s, Ok(ValueV::Unit))
    } else {
        let (s1, r1) = stmts_spec(p, s, ss.drop_last(), fuel);
        match r1 {
            Ok(_) => stmt_spec(p, s1, ss.last(), fuel),
            Err(x) => (s1, Err(x)),
        }
    }
}

/// Running one statement.
pub open spec fn stmt_spec(p: Seq<Item>, s: StV, st: Stmt, fuel: nat) -> (StV, Result<ValueV, StopV>)
    decreases fuel, st, 1nat, 0nat,
{
    match st.kind {
        StmtKind::Let { pattern, mutable, value, .. } => {
            let (s1, r) = eval_spec(p, s, value, fuel);
            match r {
                Ok(v) => match pattern.kind {
                    PatternKind::Bind(n) => (st_define(s1, n@, v, mutable), Ok(ValueV::Unit)),
                    PatternKind::Wildcard => (s1, Ok(ValueV::Unit)),
                    _ => (s1, Err(unsupported("this pattern is not evaluated"@, st.span))),
                },
                Err(x) => (s1, Err(x)),
            }
        },
        StmtKind::Assign { target, op, value } => {
            let (s1, r) = eval_spec(p, s, value, fuel);
            match r {
                Err(x) => (s1, Err(x)),
                Ok(v) => if op is Assign {
                    assign_to(p, s1, target, v, st.span, fuel)
                } else {
                    let (s2, rc) = eval_spec(p, s1, target, fuel);
                    match rc {
                        Err(x) => (s2, Err(x)),
                        Ok(cur) => {
                            let (s3, rn) = binary_spec(s2, assign_binop(op), cur, v, st.span);
                            match rn {
                                Ok(nv) => assign_to(p, s3, target, nv, st.span, fuel),
                                Err(x) => (s3, Err(x)),
                            }
                        },
                    }
                },
            }
        },
        StmtKind::While { .. } => while_spec(p, s, st, fuel, fuel),
        StmtKind::For { iterable, .. } => {
            let (s1, r) = eval_spec(p, s, iterable, fuel);
            match r {
                Err(x) => (s1, Err(x)),
                Ok(v) => match elems_of(v) {
                    Some(xs) => for_spec(p, s1, st, xs, fuel),
                    None => (s1, Err(unsupported("`"@ + vname(v) + "` is not iterable"@, st.span))),
                },
            }
        },
        StmtKind::Return(value) => match value {
            Some(e) => {
                let (s1, r) = eval_spec(p, s, e, fuel);
                match r {
                    Ok(v) => (s1, Err(StopV::Return(v))),
                    Err(x) => (s1, Err(x)),
                }
            },
            None => (s, Err(StopV::Return(ValueV::Unit))),
        },
        StmtKind::Break => (s, Err(StopV::Break)),
        StmtKind::Continue => (s, Err(StopV::Continue)),
        StmtKind::Fail(e) => {
            let (s1, r) = eval_spec(p, s, e, fuel);
            match r {
                Ok(v) => (s1, Err(unsupported(vtext(v, false), st.span))),
                Err(x) => (s1, Err(x)),
            }
        },
        StmtKind::Expr(e) => eval_spec(p, s, e, fuel),
    }
}

/// A `while` loop with at most `k` more turns.
pub open spec fn while_spec(p: Seq<Item>, s: StV, st: Stmt, fuel: nat, k: nat) -> (StV, Result<ValueV, StopV>)
    decreases fuel, st, 0nat, k,
{
    match st.kind {
        StmtKind::While { condition, body } => if k == 0 {
            (s, Err(StopV::Exhausted))
        } else {
            let (s1, r) = eval_spec(p, s, condition, fuel);
            match r {
                Ok(ValueV::Bool(true)) => {
                    let (s2, rb) = block_spec(p, s1, body, fuel);
                    match rb {
                        Ok(_) => while_spec(p, s2, st, fuel, (k - 1) as nat),
                        Err(StopV::Continue) => while_spec(p, s2, st, fuel, (k - 1) as nat),
                        Err(StopV::Break) => (s2, Ok(ValueV::Unit)),
                        Err(x) => (s2, Err(x)),
                    }
                },
                Ok(ValueV::Bool(false)) => (s1, Ok(ValueV::Unit)),
                Ok(_) => (s1, Err(unsupported("condition is not a `Bool`"@, st.span))),
                Err(x) => (s1, Err(x)),
            }
        },
        _ => (s, Ok(ValueV::Unit)),
    }
}

/// A `for` loop over the values `xs`, each bound in a scope of its own.
pub open spec fn for_spec(p: Seq<Item>, s: StV, st: Stmt, xs: Seq<ValueV>, fuel: nat) -> (StV, Result<ValueV, StopV>)
    decreases fuel, st, 0nat, xs.len(),
{
    match st.kind {
        StmtKind::For { pattern, body, .. } => if xs.len() == 0 {
            (s, Ok(ValueV::Unit))
        } else {
            let s1 = st_push(s);
            let s2 = match pattern.kind {
                PatternKind::Bind(n) => st_define(s1, n@, xs[0], false),
                _ => s1,
            };
            let (s3, r) = stmts_spec(p, s2, body.statements@, fuel);
            let s4 = st_pop(s3);
            match r {
                Ok(_) => for_spec(p, s4, st, xs.drop_first(), fuel),
                Err(StopV::Continue) => for_spec(p, s4, st, xs.drop_first(), fuel),
                Err(StopV::Break) => (s4, Ok(ValueV::Unit)),
                Err(x) => (s4, Err(x)),
            }
        },
        _ => (s, Ok(ValueV::Unit)),
    }
}

/// Calling the function `name` with `args`: a builtin, or a function of
/// the program run in a fresh scope one call deeper.
pub open spec fn call_spec(p: Seq<Item>, s: StV, name: Seq<char>, args: Seq<ValueV>, e: Expr, fuel: nat) -> (StV, Result<ValueV, StopV>)
    decreases fuel, e, 2nat, 0nat,
{
    if is_builtin_name(name) {
        if args.len() != builtin_arity(name) {
            (s, Err(unsupported(arity_msg(name, builtin_arity(name), args.len()), e.span)))
        } else {
            builtin_spec(s, name, args, e.span)
        }
    } else {
        match find_fn(p, name) {
            None => match find_variant(p, name) {
                Some((en, k)) => if args.len() != k {
                    (s, Err(unsupported(arity_msg(name, k, args.len()), e.span)))
                } else {
                    (s, Ok(ValueV::Variant(en, name, args)))
                },
                None => (s, Err(unsupported("undefined name `"@ + name + "`"@, e.span))),
            },
            Some(i) => match p[i].kind {
                ItemKind::Fn(d) => if args.len() != d.params@.len() {
                    (s, Err(unsupported(arity_msg(name, d.params@.len(), args.len()), e.span)))
                } else if s.depth >= MAX_CALL_DEPTH {
                    (s, Err(StopV::Fail(FailureKind::StackOverflow, "call depth exceeded 48 (possible infinite recursion)"@, e.span)))
                } else if fuel == 0 {
                    (s, Err(StopV::Exhausted))
                } else {
                    let s1 = StV { binds: seq![], starts: seq![0usize, 0usize], depth: s.depth + 1, ..s };
                    let s2 = define_params(s1, param_names(d), args);
                    let (s3, r) = stmts_spec(p, s2, d.body.statements@, (fuel - 1) as nat);
                    let s4 = StV { binds: s.binds, starts: s.starts, depth: s.depth, ..s3 };
                    match r {
                        Ok(v) => (s4, Ok(v)),
                        Err(StopV::Return(v)) => (s4, Ok(v)),
                        Err(StopV::Break) => (s4, Err(unsupported("`break` or `continue` outside a loop"@, e.span))),
                        Err(StopV::Continue) => (s4, Err(unsupported("`break` or `continue` outside a loop"@, e.span))),
                        Err(x) => (s4, Err(x)),
                    }
                },
                _ => (s, Err(unsupported("undefined name `"@ + name + "`"@, e.span))),
            },
        }
    }
}


/// An `Unsupported` failure as a stop.
fn fail_unsupported(m: &str, span: Span) -> (r: Stop)
    ensures
        stop_view(r) == unsupported(m@, span),
{
    Stop::Fail(Failure::new(FailureKind::Unsupported, m, span))
}

/// `prefix` + `middle` + `suffix`.
fn message3(prefix: &str, middle: &str, suffix: &str) -> (r: String)
    ensures
        r@ == prefix@ + middle@ + suffix@,
{
    let mut m = String::new();
    m.append(prefix);
    m.append(middle);
    m.append(suffix);
    assert(m@ =~= prefix@ + middle@ + suffix@);
    m
}

/// A double from an answer.
fn float_value(f: &FloatValue) -> (v: Value)
    ensures
        v@ == ValueV::Float(f.bits, f.display@),
{
    Value::Float(FloatValue { bits: f.bits, display: f.display.clone() })
}

/// The number a double operation takes.
fn num_exec(v: &Value) -> (r: Option<Num>)
    ensures
        r == num_of(v@),
{
    match v {
        Value::Int(x) => Some(Num::Int(*x)),
        Value::Float(f) => Some(Num::Float(f.bits)),
        _ => None,
    }
}

/// The type name of a value.
fn kind_name_of(v: &Value) -> (s: String)
    ensures
        s@ == vname(v@),
{
    proof { lemma_vtext(*v, false); }
    v.ty().name()
}

/// Lexicographic order of two strings by character.
fn order_text(a: &str, b: &str) -> (r: i8)
    ensures
        r as int == text_order(a@, b@),
{
    let x = str_chars(a);
    let y = str_chars(b);
    let mut i: usize = 0;
    assert(a@.skip(0) =~= a@);
    assert(b@.skip(0) =~= b@);
    while i < x.len() && i < y.len()
        invariant
            i <= x@.len(),
            i <= y@.len(),
            x@ == a@,
            y@ == b@,
            text_order(a@, b@) == text_order(a@.skip(i as int), b@.skip(i as int)),
        decreases x@.len() - i,
    {
        let c = x[i];
        let d = y[i];
        proof {
            assert(a@.skip(i as int)[0] == c);
            assert(b@.skip(i as int)[0] == d);
            assert(a@.skip(i as int).drop_first() =~= a@.skip(i + 1));
            assert(b@.skip(i as int).drop_first() =~= b@.skip(i + 1));
        }
        if (c as u32) < (d as u32) {
            return -1;
        }
        if (c as u32) > (d as u32) {
            return 1;
        }
        i = i + 1;
    }
    if i < x.len() {
        assert(b@.skip(i as int).len() == 0);
        1
    } else if i < y.len() {
        assert(a@.skip(i as int).len() == 0);
        -1
    } else {
        assert(a@.skip(i as int).len() == 0 && b@.skip(i as int).len() == 0);
        0
    }
}

impl Interpreter {
    /// The next double answer's index, or the request for `op`.
    fn ask(&mut self, op: FloatOp) -> (r: Result<usize, Stop>)
        ensures
final(self)@.answers == old(self)@.answers,
in_bounds(old(self)@) ==> in_bounds(final(self)@),
in_bounds(old(self)@) && (r matches Err(Stop::Need(_))) ==> final(self)@.asked == final(self)@.answers.len(),
            (final(self)@, match r { Ok(i) => Ok(final(self)@.answers[i as int]), Err(x) => Err(stop_view(x)) })
                == ask(old(self)@, op),
            r matches Ok(i) ==> i < final(self)@.answers.len(),
    {
        if self.asked < self.answers.len() {
            let i = self.asked;
            self.asked = self.asked + 1;
            Ok(i)
        } else {
            Err(Stop::Need(op))
        }
    }

    /// `+ - * / %` on two values.
    fn arith(&mut self, op: BinaryOp, l: Value, r: Value, span: Span) -> (res: Result<Value, Stop>)
        ensures
final(self)@.answers == old(self)@.answers,
in_bounds(old(self)@) ==> in_bounds(final(self)@),
in_bounds(old(self)@) && (res matches Err(Stop::Need(_))) ==> final(self)@.asked == final(self)@.answers.len(),
            (final(self)@, res_view(res)) == arith_spec(old(self)@, op, l@, r@, span),
    {
        let l_float = matches!(l, Value::Float(_));
        let r_float = matches!(r, Value::Float(_));
        if l_float || r_float {
            match (num_exec(&l), num_exec(&r)) {
                (Some(a), Some(b)) => {
                    match self.ask(FloatOp { kind: FloatKind::Arith(op), a, b }) {
                        Err(x) => Err(x),
                        Ok(i) => match &self.answers[i] {
                            FloatAnswer::Float(f) => Ok(float_value(f)),
                            FloatAnswer::ZeroDivisor => Err(Stop::Fail(Failure::new(FailureKind::DivisionByZero, "division by zero", span))),
                            _ => {
                                proof { reveal_strlit("a double answer does not fit the operation"); }
                                Err(fail_unsupported("a double answer does not fit the operation", span))
                            },
                        },
                    }
                },
                _ => Err(self.apply_error(op, &l, &r, span)),
            }
        } else {
            match (&l, &r) {
                (Value::Int(a), Value::Int(b)) => match int_binary(op, *a, *b, span) {
                    Ok(x) => Ok(Value::Int(x)),
                    Err(f) => Err(Stop::Fail(f)),
                },
                _ => Err(self.apply_error(op, &l, &r, span)),
            }
        }
    }

    fn apply_error(&self, op: BinaryOp, l: &Value, r: &Value, span: Span) -> (x: Stop)
        ensures
            stop_view(x) == unsupported(apply_message(op, l@, r@), span),
    {
        let mut m = String::new();
        m.append("cannot apply `");
        m.append(op.as_str());
        m.append("` to `");
        let ln = kind_name_of(l);
        m.append(ln.as_str());
        m.append("` and `");
        let rn = kind_name_of(r);
        m.append(rn.as_str());
        m.append("`");
        assert(m@ =~= apply_message(op, l@, r@));
        Stop::Fail(Failure::new(FailureKind::Unsupported, m.as_str(), span))
    }

    /// How `l` orders against `r`.
    fn compare(&mut self, l: &Value, r: &Value, span: Span) -> (res: Result<i8, Stop>)
        ensures
final(self)@.answers == old(self)@.answers,
in_bounds(old(self)@) ==> in_bounds(final(self)@),
in_bounds(old(self)@) && (res matches Err(Stop::Need(_))) ==> final(self)@.asked == final(self)@.answers.len(),
            (final(self)@, match res { Ok(o) => Ok(o as int), Err(x) => Err(stop_view(x)) })
                == compare_spec(old(self)@, l@, r@, span),
    {
        match (l, r) {
            (Value::Int(a), Value::Int(b)) => Ok(if *a < *b { -1 } else if *a > *b { 1 } else { 0 }),
            (Value::Str(a), Value::Str(b)) => Ok(order_text(a.as_str(), b.as_str())),
            _ => {
                let l_float = matches!(l, Value::Float(_));
                let r_float = matches!(r, Value::Float(_));
                let a = num_exec(l);
                let b = num_exec(r);
                if (l_float || r_float) && a.is_some() && b.is_some() {
                    let op = FloatOp { kind: FloatKind::Compare, a: a.unwrap(), b: b.unwrap() };
                    match self.ask(op) {
                        Err(x) => Err(x),
                        Ok(i) => match &self.answers[i] {
                            FloatAnswer::Order(o) => {
                                if -1 <= *o && *o <= 1 {
                                    Ok(*o)
                                } else {
                                    proof { reveal_strlit("cannot order `NaN`"); }
                                    Err(fail_unsupported("cannot order `NaN`", span))
                                }
                            },
                            _ => {
                                proof { reveal_strlit("a double answer does not fit the operation"); }
                                Err(fail_unsupported("a double answer does not fit the operation", span))
                            },
                        },
                    }
                } else {
                    let mut m = String::new();
                    m.append("cannot compare `");
                    let ln = kind_name_of(l);
                    m.append(ln.as_str());
                    m.append("` and `");
                    let rn = kind_name_of(r);
                    m.append(rn.as_str());
                    m.append("`");
                    assert(m@ =~= "cannot compare `"@ + vname(l@) + "` and `"@ + vname(r@) + "`"@);
                    Err(Stop::Fail(Failure::new(FailureKind::Unsupported, m.as_str(), span)))
                }
            },
        }
    }

    /// A binary operator other than `and`, `or` and `??`.
    fn binary(&mut self, op: BinaryOp, l: Value, r: Value, span: Span) -> (res: Result<Value, Stop>)
        ensures
final(self)@.answers == old(self)@.answers,
in_bounds(old(self)@) ==> in_bounds(final(self)@),
in_bounds(old(self)@) && (res matches Err(Stop::Need(_))) ==> final(self)@.asked == final(self)@.answers.len(),
            (final(self)@, res_view(res)) == binary_spec(old(self)@, op, l@, r@, span),
    {
        match op {
            BinaryOp::Eq => {
                proof { lemma_veq(l, r); }
                Ok(Value::Bool(l.equals(&r)))
            },
            BinaryOp::NotEq => {
                proof { lemma_veq(l, r); }
                Ok(Value::Bool(!l.equals(&r)))
            },
            BinaryOp::Lt | BinaryOp::Le | BinaryOp::Gt | BinaryOp::Ge => {
                match self.compare(&l, &r, span) {
                    Err(x) => Err(x),
                    Ok(o) => Ok(Value::Bool(match op {
                        BinaryOp::Lt => o < 0,
                        BinaryOp::Le => o <= 0,
                        BinaryOp::Gt => o > 0,
                        _ => o >= 0,
                    })),
                }
            },
            BinaryOp::Range | BinaryOp::RangeInclusive => match (&l, &r) {
                (Value::Int(a), Value::Int(b)) => {
                    let inclusive = matches!(op, BinaryOp::RangeInclusive);
                    let ints = super::ops::int_range(*a, *b, inclusive);
                    let mut xs: Vec<Value> = Vec::new();
                    let mut k: usize = 0;
                    while k < ints.len()
                        invariant
                            k <= ints@.len(),
                            values_view(xs@) == range_list(*a, *b, inclusive).take(k as int),
                            ints@.len() == range_count(*a as int, *b as int, inclusive, MAX_RANGE as int),
                            forall|j: int| 0 <= j < ints@.len() ==> ints@[j] as int == *a as int + j,
                        decreases ints@.len() - k,
                    {
                        let ghost x0 = xs@;
                        xs.push(Value::Int(ints[k]));
                        proof {
                            lemma_values_view_push(x0, Value::Int(ints@[k as int]));
                            assert(range_list(*a, *b, inclusive).take(k + 1) =~= range_list(*a, *b, inclusive).take(k as int).push(ValueV::Int(ints@[k as int])));
                        }
                        k = k + 1;
                    }
                    assert(range_list(*a, *b, inclusive).take(k as int) =~= range_list(*a, *b, inclusive));
                    Ok(Value::List(xs))
                },
                _ => {
                    proof { reveal_strlit("range bounds must be `Int`"); }
                    Err(fail_unsupported("range bounds must be `Int`", span))
                },
            },
            BinaryOp::Add => {
                match (&l, &r) {
                    (Value::Str(a), Value::Str(b)) => {
                        let mut t = String::new();
                        t.append(a.as_str());
                        t.append(b.as_str());
                        assert(t@ =~= a@ + b@);
                        return Ok(Value::Str(t));
                    },
                    (Value::List(a), Value::List(b)) => {
                        let mut xs = duplicate_values(a);
                        let ys = duplicate_values(b);
                        let ghost x0 = xs@;
                        let mut k: usize = 0;
                        proof { lemma_values_view_index(x0); lemma_values_view_index(ys@); }
                        while k < ys.len()
                            invariant
                                k <= ys@.len(),
                                values_view(xs@) == values_view(x0) + values_view(ys@).take(k as int),
                                values_view(ys@).len() == ys@.len(),
                                forall|j: int| 0 <= j < ys@.len() ==> #[trigger] values_view(ys@)[j] == value_view(ys@[j]),
                            decreases ys@.len() - k,
                        {
                            let v = ys[k].duplicate();
                            let ghost xk = xs@;
                            xs.push(v);
                            proof {
                                lemma_values_view_push(xk, v);
                                assert(values_view(ys@).take(k + 1) =~= values_view(ys@).take(k as int).push(values_view(ys@)[k as int]));
                                assert(values_view(xs@) =~= values_view(x0) + values_view(ys@).take(k + 1));
                            }
                            k = k + 1;
                        }
                        assert(values_view(ys@).take(k as int) =~= values_view(ys@));
                        return Ok(Value::List(xs));
                    },
                    _ => {},
                }
                self.arith(op, l, r, span)
            },
            BinaryOp::Sub | BinaryOp::Mul | BinaryOp::Div | BinaryOp::Rem => self.arith(op, l, r, span),
            _ => Ok(Value::Bool(false)),
        }
    }

    /// A prefix operator.
    fn unary(&mut self, op: UnaryOp, v: Value, span: Span) -> (res: Result<Value, Stop>)
        ensures
final(self)@.answers == old(self)@.answers,
in_bounds(old(self)@) ==> in_bounds(final(self)@),
in_bounds(old(self)@) && (res matches Err(Stop::Need(_))) ==> final(self)@.asked == final(self)@.answers.len(),
            (final(self)@, res_view(res)) == unary_spec(old(self)@, op, v@, span),
    {
        match op {
            UnaryOp::Not => match &v {
                Value::Bool(b) => Ok(Value::Bool(!*b)),
                _ => {
                    let n = kind_name_of(&v);
                    let m = message3("`not` expects `Bool`, found `", n.as_str(), "`");
                    Err(Stop::Fail(Failure::new(FailureKind::Unsupported, m.as_str(), span)))
                },
            },
            UnaryOp::Neg => match &v {
                Value::Int(x) => {
                    if *x == i64::MIN {
                        proof { reveal_strlit("integer overflow negating the minimum `Int`"); }
                        Err(Stop::Fail(Failure::new(FailureKind::Overflow, "integer overflow negating the minimum `Int`", span)))
                    } else {
                        Ok(Value::Int(-*x))
                    }
                },
                Value::Float(f) => {
                    match self.ask(FloatOp { kind: FloatKind::Neg, a: Num::Float(f.bits), b: Num::Int(0) }) {
                        Err(x) => Err(x),
                        Ok(i) => match &self.answers[i] {
                            FloatAnswer::Float(g) => Ok(float_value(g)),
                            _ => {
                                proof { reveal_strlit("a double answer does not fit the operation"); }
                                Err(fail_unsupported("a double answer does not fit the operation", span))
                            },
                        },
                    }
                },
                _ => {
                    let n = kind_name_of(&v);
                    let m = message3("cannot negate `", n.as_str(), "`");
                    Err(Stop::Fail(Failure::new(FailureKind::Unsupported, m.as_str(), span)))
                },
            },
        }
    }
}

/// The text of a string literal's segments.
fn segs_string(segs: &Vec<StrSegment>) -> (t: String)
    ensures
        t@ == segs_text(segs@),
{
    let mut t = String::new();
    let mut i: usize = 0;
    while i < segs.len()
        invariant
            i <= segs@.len(),
            t@ == segs_text(segs@.take(i as int)),
        decreases segs@.len() - i,
    {
        proof {
            assert(segs@.take(i + 1).drop_last() =~= segs@.take(i as int));
            assert(segs@.take(i + 1).last() == segs@[i as int]);
        }
        let ghost t0 = t@;
        match &segs[i] {
            StrSegment::Lit(x) => {
                t.append(x.as_str());
            },
            StrSegment::Expr { src, .. } => {
                push_char(&mut t, '{');
                t.append(src.as_str());
                push_char(&mut t, '}');
                assert(t@ =~= t0 + (seq!['{'] + src@ + seq!['}']));
            },
            StrSegment::Raw(src) => {
                push_char(&mut t, '{');
                t.append(src.as_str());
                push_char(&mut t, '}');
                assert(t@ =~= t0 + (seq!['{'] + src@ + seq!['}']));
            },
        }
        i = i + 1;
    }
    assert(segs@.take(i as int) =~= segs@);
    t
}

/// The value of a literal.
fn lit_value(l: &Literal) -> (v: Value)
    ensures
        v@ == lit_v(*l),
{
    match l {
        Literal::Int(x) => Value::Int(*x),
        Literal::Float(f) => float_value(f),
        Literal::Bool(b) => Value::Bool(*b),
        Literal::Str(segs) => Value::Str(segs_string(segs)),
        Literal::NoneLit => Value::NoneLit,
    }
}

/// The last function item called `name`.
fn find_function(items: &Vec<Item>, name: &str) -> (r: Option<usize>)
    ensures
        match r {
            Some(i) => find_fn(items@, name@) == Some(i as int) && i < items@.len(),
            None => find_fn(items@, name@) is None,
        },
{
    let mut k = items.len();
    assert(items@.take(k as int) =~= items@);
    while k > 0
        invariant
            k <= items@.len(),
            find_fn(items@, name@) == find_fn(items@.take(k as int), name@),
        decreases k,
    {
        proof {
            assert(items@.take(k as int).drop_last() =~= items@.take(k - 1));
            assert(items@.take(k as int).last() == items@[k - 1]);
        }
        match &items[k - 1].kind {
            ItemKind::Fn(d) => {
                if str_eq(d.name.as_str(), name) {
                    return Some(k - 1);
                }
            },
            _ => {},
        }
        k = k - 1;
    }
    None
}

/// The identity of a builtin function value.
fn builtin_ident(name: &str) -> (id: u64)
    ensures
        id == builtin_id(name@),
{
    if str_eq(name, "print") { 0x8000_0000_0000_0000 }
    else if str_eq(name, "len") { 0x8000_0000_0000_0001 }
    else if str_eq(name, "range") { 0x8000_0000_0000_0002 }
    else if str_eq(name, "str") { 0x8000_0000_0000_0003 }
    else if str_eq(name, "int") { 0x8000_0000_0000_0004 }
    else if str_eq(name, "float") { 0x8000_0000_0000_0005 }
    else if str_eq(name, "assert") { 0x8000_0000_0000_0006 }
    else if str_eq(name, "Ok") { 0x8000_0000_0000_0007 }
    else { 0x8000_0000_0000_0008 }
}

/// A possibly negative index resolved against a length.
fn index_at(index: i64, len: usize) -> (r: Option<usize>)
    ensures
        match r {
            Some(i) => normalize_spec(index as int, len as int) == Some(i as int),
            None => normalize_spec(index as int, len as int) is None,
        },
{
    let n = len as i128;
    let k = index as i128;
    let resolved: i128 = if k < 0 { n + k } else { k };
    if resolved < 0 || resolved >= n {
        None
    } else {
        Some(resolved as usize)
    }
}

/// "index I is out of bounds for a collection of length N".
fn bounds_failure(k: i64, n: usize, span: Span) -> (x: Stop)
    ensures
        stop_view(x) == StopV::Fail(FailureKind::IndexOutOfBounds, bounds_message(k, n as nat), span),
{
    let mut m = String::new();
    m.append("index ");
    push_i64(&mut m, k);
    m.append(" is out of bounds for a collection of length ");
    push_u64(&mut m, n as u64);
    assert(m@ =~= bounds_message(k, n as nat));
    Stop::Fail(Failure::new(FailureKind::IndexOutOfBounds, m.as_str(), span))
}

/// An `Unsupported` failure "`prefix`NAME`suffix`" naming a value's type.
fn type_failure(prefix: &str, v: &Value, suffix: &str, span: Span) -> (x: Stop)
    ensures
        stop_view(x) == unsupported(prefix@ + vname(v@) + suffix@, span),
{
    let n = kind_name_of(v);
    let m = message3(prefix, n.as_str(), suffix);
    Stop::Fail(Failure::new(FailureKind::Unsupported, m.as_str(), span))
}

/// An `Unsupported` failure "`prefix`NAME" naming a value's type.
fn expects_failure(prefix: &str, v: &Value, span: Span) -> (x: Stop)
    ensures
        stop_view(x) == unsupported(prefix@ + vname(v@), span),
{
    let n = kind_name_of(v);
    let mut m = String::new();
    m.append(prefix);
    m.append(n.as_str());
    Stop::Fail(Failure::new(FailureKind::Unsupported, m.as_str(), span))
}

/// Indexing a list or a string.
fn index_value(c: &Value, i: &Value, span: Span) -> (r: Result<Value, Stop>)
    ensures
        res_view(r) == index_spec(c@, i@, span),
{
    match c {
        Value::List(xs) => {
            proof { lemma_values_view_index(xs@); }
            match i {
                Value::Int(k) => match index_at(*k, xs.len()) {
                    Some(j) => Ok(xs[j].duplicate()),
                    None => Err(bounds_failure(*k, xs.len(), span)),
                },
                _ => {
                    proof { reveal_strlit("list index must be an `Int`"); }
                    Err(fail_unsupported("list index must be an `Int`", span))
                },
            }
        },
        Value::Str(t) => {
            let cs = str_chars(t.as_str());
            match i {
                Value::Int(k) => match index_at(*k, cs.len()) {
                    Some(j) => {
                        let mut u = String::new();
                        push_char(&mut u, cs[j]);
                        assert(u@ =~= seq![t@[j as int]]);
                        Ok(Value::Str(u))
                    },
                    None => Err(bounds_failure(*k, cs.len(), span)),
                },
                _ => {
                    proof { reveal_strlit("string index must be an `Int`"); }
                    Err(fail_unsupported("string index must be an `Int`", span))
                },
            }
        },
        _ => Err(type_failure("`", c, "` cannot be indexed", span)),
    }
}

/// The values a `for` loop goes through.
fn elements(v: &Value) -> (r: Option<Vec<Value>>)
    ensures
        match r {
            Some(xs) => elems_of(v@) == Some(values_view(xs@)),
            None => elems_of(v@) is None,
        },
{
    match v {
        Value::List(xs) => Some(duplicate_values(xs)),
        Value::Str(t) => {
            let cs = str_chars(t.as_str());
            let mut out: Vec<Value> = Vec::new();
            let mut i: usize = 0;
            while i < cs.len()
                invariant
                    i <= cs@.len(),
                    cs@ == t@,
                    values_view(out@) =~= Seq::new(i as nat, |j: int| ValueV::Str(seq![t@[j]])),
                decreases cs@.len() - i,
            {
                let mut u = String::new();
                push_char(&mut u, cs[i]);
                let x = Value::Str(u);
                let ghost o0 = out@;
                out.push(x);
                proof {
                    lemma_values_view_push(o0, x);
                    assert(values_view(out@) =~= Seq::new((i + 1) as nat, |j: int| ValueV::Str(seq![t@[j]])));
                }
                i = i + 1;
            }
            Some(out)
        },
        _ => None,
    }
}

/// The operator a compound assignment applies.
fn assign_op(op: AssignOp) -> (b: BinaryOp)
    ensures
        b == assign_binop(op),
{
    match op {
        AssignOp::Sub => BinaryOp::Sub,
        AssignOp::Mul => BinaryOp::Mul,
        AssignOp::Div => BinaryOp::Div,
        _ => BinaryOp::Add,
    }
}

/// "`f` takes N argument(s) but M were given".
fn arity_failure(name: &str, expected: usize, found: usize, span: Span) -> (x: Stop)
    ensures
        stop_view(x) == unsupported(arity_msg(name@, expected as nat, found as nat), span),
{
    let mut m = String::new();
    push_char(&mut m, '`');
    m.append(name);
    m.append("` takes ");
    push_u64(&mut m, expected as u64);
    m.append(" argument(s) but ");
    push_u64(&mut m, found as u64);
    m.append(" were given");
    assert(m@ =~= arity_msg(name@, expected as nat, found as nat));
    Stop::Fail(Failure::new(FailureKind::Unsupported, m.as_str(), span))
}

impl Interpreter {
    /// What a name evaluates to.
    fn ident(&self, p: &Vec<Item>, name: &String, span: Span) -> (r: Result<Value, Stop>)
        ensures
            res_view(r) == ident_v(p@, self@, name@, span),
    {
        match self.find(name.as_str(), 0) {
            Some(j) => {
                proof { assert(self@.binds[j as int] == bind_view(self.binds@[j as int])); }
                Ok(self.binds[j].value.duplicate())
            },
            None => match find_function(p, name.as_str()) {
                Some(i) => Ok(Value::Function { name: name.clone(), id: i as u64 }),
                None => if builtin_name(name.as_str()) {
                    Ok(Value::Function { name: name.clone(), id: builtin_ident(name.as_str()) })
                } else {
                    match variant_of(p, name.as_str()) {
                        Some((en, k)) => if k == 0 {
                            proof { assert(values_view(Seq::<Value>::empty()) =~= Seq::<ValueV>::empty()); }
                            Ok(Value::Variant { enum_name: en, variant: name.clone(), payload: Vec::new() })
                        } else {
                            Ok(Value::Function { name: name.clone(), id: CONSTRUCTOR_ID })
                        },
                        None => {
                            let m = message3("undefined name `", name.as_str(), "`");
                            Err(Stop::Fail(Failure::new(FailureKind::Unsupported, m.as_str(), span)))
                        },
                    }
                },
            },
        }
    }

    /// Assigning `v` to a name.
    fn assign(&mut self, target: &Expr, v: Value, span: Span) -> (r: Result<Value, Stop>)
        ensures
final(self)@.answers == old(self)@.answers,
in_bounds(old(self)@) ==> in_bounds(final(self)@),
in_bounds(old(self)@) && (r matches Err(Stop::Need(_))) ==> final(self)@.asked == final(self)@.answers.len(),
            (final(self)@, res_view(r)) == assign_spec(old(self)@, *target, v@, span),
    {
        match &target.kind {
            ExprKind::Ident(n) => match self.find(n.as_str(), 0) {
                None => {
                    let m = message3("undefined name `", n.as_str(), "`");
                    Err(Stop::Fail(Failure::new(FailureKind::Unsupported, m.as_str(), span)))
                },
                Some(j) => {
                    proof { assert(self@.binds[j as int] == bind_view(self.binds@[j as int])); }
                    if !self.binds[j].mutable {
                        let m = message3("cannot assign to immutable `", n.as_str(), "`");
                        Err(Stop::Fail(Failure::new(FailureKind::Unsupported, m.as_str(), span)))
                    } else {
                        let nm = self.binds[j].name.clone();
                        let ghost vv = v@;
                        self.binds.set(j, Binding { name: nm, value: v, mutable: true });
                        assert(self@.binds =~= old(self)@.binds.update(j as int, (old(self)@.binds[j as int].0, vv, true)));
                        Ok(Value::Unit)
                    }
                },
            },
            _ => {
                proof { reveal_strlit("only a name can be assigned to here"); }
                Err(fail_unsupported("only a name can be assigned to here", span))
            },
        }
    }

    /// Binding a function's parameters to the arguments, in order.
    fn bind_params(&mut self, d: &FnDecl, args: Vec<Value>)
        requires
            args@.len() == d.params@.len(),
        ensures
            final(self)@ == define_params(old(self)@, param_names(*d), values_view(args@)),
            final(self)@.answers == old(self)@.answers,
            final(self)@.asked == old(self)@.asked,
    {
        let ghost s0 = self@;
        let ghost names = param_names(*d);
        let ghost av = values_view(args@);
        proof { lemma_values_view_index(args@); }
        let mut i: usize = 0;
        assert(names.take(0) =~= Seq::<Seq<char>>::empty());
        while i < args.len()
            invariant
                i <= args@.len(),
                args@.len() == d.params@.len(),
                names == param_names(*d),
                av == values_view(args@),
                av.len() == args@.len(),
                forall|j: int| 0 <= j < args@.len() ==> #[trigger] av[j] == value_view(args@[j]),
                self@ == define_params(s0, names.take(i as int), av.take(i as int)),
                self@.answers == s0.answers,
                self@.asked == s0.asked,
                in_bounds(s0) ==> in_bounds(self@),
            decreases args@.len() - i,
        {
            proof {
                assert(names.take(i + 1).drop_last() =~= names.take(i as int));
                assert(av.take(i + 1).drop_last() =~= av.take(i as int));
                assert(names.take(i + 1).last() == d.params@[i as int].name@);
                assert(av.take(i + 1).last() == av[i as int]);
            }
            let x = args[i].duplicate();
            self.define(d.params[i].name.clone(), x, false);
            i = i + 1;
        }
        assert(names.take(i as int) =~= names);
        assert(av.take(i as int) =~= av);
    }

    /// A builtin called with the right number of arguments.
    fn builtin(&mut self, name: &String, args: Vec<Value>, span: Span) -> (r: Result<Value, Stop>)
        requires
            is_builtin_name(name@),
            args@.len() == builtin_arity(name@),
        ensures
final(self)@.answers == old(self)@.answers,
in_bounds(old(self)@) ==> in_bounds(final(self)@),
in_bounds(old(self)@) && (r matches Err(Stop::Need(_))) ==> final(self)@.asked == final(self)@.answers.len(),
            (final(self)@, res_view(r)) == builtin_spec(old(self)@, name@, values_view(args@), span),
    {
        proof {
            lemma_values_view_index(args@);
            lemma_vtext(args@[0], false);
        }
        let a = &args[0];
        let n = name.as_str();
        if str_eq(n, "print") {
            let t = display(a);
            let ghost o0 = self.output@;
            self.output.append(t.as_str());
            push_char(&mut self.output, '\n');
            assert(self.output@ =~= o0 + vtext(values_view(args@)[0], false) + seq!['\n']);
            assert((self@, res_view(Ok::<Value, Stop>(Value::Unit))) == builtin_spec(old(self)@, name@, values_view(args@), span));
            Ok(Value::Unit)
        } else if str_eq(n, "len") {
            match a {
                Value::Str(t) => {
                    let c = str_chars(t.as_str());
                    assert(c@.len() == t@.len());
                    Ok(Value::Int(c.len() as i64))
                },
                Value::List(xs) => {
                    proof { lemma_values_view_index(xs@); }
                    Ok(Value::Int(xs.len() as i64))
                },
                Value::MapOf(es) => {
                    proof { lemma_entries_view_index(es@); }
                    Ok(Value::Int(es.len() as i64))
                },
                _ => Err(expects_failure("`len` expects ", a, span)),
            }
        } else if str_eq(n, "range") {
            match (&args[0], &args[1]) {
                (Value::Int(x), Value::Int(y)) => {
                    let ints = range_values(*x, *y);
                    let ghost want = Seq::new((if *x < *y { *y - *x } else { 0 }) as nat, |k: int| ValueV::Int((*x + k) as i64));
                    let mut xs: Vec<Value> = Vec::new();
                    let mut k: usize = 0;
                    while k < ints.len()
                        invariant
                            k <= ints@.len(),
                            ints@.len() == want.len(),
                            forall|j: int| 0 <= j < ints@.len() ==> ints@[j] as int == *x as int + j,
                            want == Seq::new((if *x < *y { *y - *x } else { 0 }) as nat, |j: int| ValueV::Int((*x + j) as i64)),
                            values_view(xs@) == want.take(k as int),
                        decreases ints@.len() - k,
                    {
                        let ghost x0 = xs@;
                        xs.push(Value::Int(ints[k]));
                        proof {
                            lemma_values_view_push(x0, Value::Int(ints@[k as int]));
                            assert(want.take(k + 1) =~= want.take(k as int).push(ValueV::Int(ints@[k as int])));
                        }
                        k = k + 1;
                    }
                    assert(want.take(k as int) =~= want);
                    assert((self@, res_view(Ok::<Value, Stop>(Value::List(xs)))) == builtin_spec(old(self)@, name@, values_view(args@), span));
                    Ok(Value::List(xs))
                },
                _ => {
                    proof { reveal_strlit("`range` expects Int, Int"); }
                    Err(fail_unsupported("`range` expects Int, Int", span))
                },
            }
        } else if str_eq(n, "str") {
            let t = display(a);
            assert((self@, res_view(Ok::<Value, Stop>(Value::Str(t)))) == builtin_spec(old(self)@, name@, values_view(args@), span));
            Ok(Value::Str(t))
        } else if str_eq(n, "assert") {
            match a {
                Value::Bool(b) => if *b {
                    Ok(Value::Unit)
                } else {
                    proof { reveal_strlit("assertion failed"); }
                    Err(Stop::Fail(Failure::new(FailureKind::AssertionFailed, "assertion failed", span)))
                },
                _ => {
                    proof { reveal_strlit("`assert` expects Bool"); }
                    Err(fail_unsupported("`assert` expects Bool", span))
                },
            }
        } else if str_eq(n, "Ok") {
            Ok(Value::Result { ok: true, value: Box::new(a.duplicate()), failure: None })
        } else if str_eq(n, "Err") {
            match a {
                Value::Str(m) => Ok(Value::Result { ok: false, value: Box::new(Value::Unit),
                    failure: Some(Failure::new(FailureKind::Unsupported, m.as_str(), span)) }),
                Value::Data { fields, .. } => {
                    let m = data_message_of(fields);
                    assert(value_view(Value::Unit) == ValueV::Unit);
                    Ok(Value::Result { ok: false, value: Box::new(Value::Unit),
                        failure: Some(Failure::new(FailureKind::Unsupported, m.as_str(), span)) })
                },
                _ => Err(expects_failure("`Err` expects ", a, span)),
            }
        } else if str_eq(n, "int") {
            match a {
                Value::Int(x) => Ok(Value::Int(*x)),
                Value::Bool(b) => Ok(Value::Int(if *b { 1 } else { 0 })),
                Value::Str(t) => match parse_int(t.as_str()) {
                    Some(x) => Ok(Value::Int(x)),
                    None => {
                        let mut m = String::new();
                        m.append("`int` cannot parse ");
                        push_str_debug(&mut m, t.as_str());
                        Err(Stop::Fail(Failure::new(FailureKind::Unsupported, m.as_str(), span)))
                    },
                },
                Value::Float(f) => {
                    match self.ask(FloatOp { kind: FloatKind::ToInt, a: Num::Float(f.bits), b: Num::Int(0) }) {
                        Err(x) => Err(x),
                        Ok(i) => match &self.answers[i] {
                            FloatAnswer::Int(x) => Ok(Value::Int(*x)),
                            _ => {
                                proof { reveal_strlit("a double answer does not fit the operation"); }
                                Err(fail_unsupported("a double answer does not fit the operation", span))
                            },
                        },
                    }
                },
                _ => Err(expects_failure("`int` expects ", a, span)),
            }
        } else {
            match a {
                Value::Float(f) => Ok(float_value(f)),
                Value::Int(x) => {
                    match self.ask(FloatOp { kind: FloatKind::Convert, a: Num::Int(*x), b: Num::Int(0) }) {
                        Err(e) => Err(e),
                        Ok(i) => match &self.answers[i] {
                            FloatAnswer::Float(g) => Ok(float_value(g)),
                            _ => {
                                proof { reveal_strlit("a double answer does not fit the operation"); }
                                Err(fail_unsupported("a double answer does not fit the operation", span))
                            },
                        },
                    }
                },
                _ => Err(expects_failure("`float` expects ", a, span)),
            }
        }
    }
}

proof fn lemma_evals_stop(p: Seq<Item>, s: StV, es: Seq<Expr>, n: int, fuel: nat)
    requires
        0 <= n <= es.len(),
        evals_spec(p, s, es.take(n), fuel).1 is Err,
    ensures
        evals_spec(p, s, es, fuel) == evals_spec(p, s, es.take(n), fuel),
    decreases es.len(),
{
    if es.len() > n {
        assert(es.drop_last().take(n) =~= es.take(n));
        lemma_evals_stop(p, s, es.drop_last(), n, fuel);
    } else {
        assert(es.take(n) =~= es);
    }
}

proof fn lemma_args_stop(p: Seq<Item>, s: StV, args: Seq<crate::ast::expr::Arg>, n: int, fuel: nat)
    requires
        0 <= n <= args.len(),
        args_spec(p, s, args.take(n), fuel).1 is Err,
    ensures
        args_spec(p, s, args, fuel) == args_spec(p, s, args.take(n), fuel),
    decreases args.len(),
{
    if args.len() > n {
        assert(args.drop_last().take(n) =~= args.take(n));
        lemma_args_stop(p, s, args.drop_last(), n, fuel);
    } else {
        assert(args.take(n) =~= args);
    }
}

proof fn lemma_stmts_stop(p: Seq<Item>, s: StV, ss: Seq<Stmt>, n: int, fuel: nat)
    requires
        0 <= n <= ss.len(),
        stmts_spec(p, s, ss.take(n), fuel).1 is Err,
    ensures
        stmts_spec(p, s, ss, fuel) == stmts_spec(p, s, ss.take(n), fuel),
    decreases ss.len(),
{
    if ss.len() > n {
        assert(ss.drop_last().take(n) =~= ss.take(n));
        lemma_stmts_stop(p, s, ss.drop_last(), n, fuel);
    } else {
        assert(ss.take(n) =~= ss);
    }
}

impl Interpreter {
    /// Evaluating an expression.
    fn eval_in(&mut self, p: &Vec<Item>, e: &Expr, fuel: u64) -> (r: Result<Value, Stop>)
        ensures
final(self)@.answers == old(self)@.answers,
in_bounds(old(self)@) ==> in_bounds(final(self)@),
in_bounds(old(self)@) && (r matches Err(Stop::Need(_))) ==> final(self)@.asked == final(self)@.answers.len(),
            (final(self)@, res_view(r)) == eval_spec(p@, old(self)@, *e, fuel as nat),
        decreases fuel, *e, 3nat, 0nat,
    {
        match &e.kind {
            ExprKind::Literal(l) => Ok(lit_value(l)),
            ExprKind::Ident(name) => self.ident(p, name, e.span),
            ExprKind::Paren(inner) => self.eval_in(p, inner, fuel),
            ExprKind::Block(b) => self.block(p, b, fuel),
            ExprKind::Unary { op, operand } => {
                match self.eval_in(p, operand, fuel) {
                    Ok(v) => self.unary(*op, v, e.span),
                    Err(x) => Err(x),
                }
            },
            ExprKind::Binary { op, left, right } => self.eval_binary(p, e, *op, left, right, fuel),
            ExprKind::If { condition, then_block, else_branch } => {
                match self.eval_in(p, condition, fuel) {
                    Ok(Value::Bool(c)) => if c {
                        self.block(p, then_block, fuel)
                    } else {
                        match else_branch {
                            Some(b) => self.eval_in(p, b, fuel),
                            None => Ok(Value::Unit),
                        }
                    },
                    Ok(_) => {
                        proof { reveal_strlit("condition is not a `Bool`"); }
                        Err(fail_unsupported("condition is not a `Bool`", e.span))
                    },
                    Err(x) => Err(x),
                }
            },
            ExprKind::List(es) => match self.evals(p, es, fuel) {
                Ok(vs) => Ok(Value::List(vs)),
                Err(x) => Err(x),
            },
            ExprKind::Tuple(es) => match self.evals(p, es, fuel) {
                Ok(vs) => Ok(Value::Tuple(vs)),
                Err(x) => Err(x),
            },
            ExprKind::Index { receiver, index } => {
                let c = match self.eval_in(p, receiver, fuel) {
                    Ok(v) => v,
                    Err(x) => return Err(x),
                };
                match self.eval_in(p, index, fuel) {
                    Ok(i) => index_value(&c, &i, e.span),
                    Err(x) => Err(x),
                }
            },
            ExprKind::Field { receiver, name } => match self.eval_in(p, receiver, fuel) {
                Ok(v) => field_of(&v, name, e.span),
                Err(x) => Err(x),
            },
            ExprKind::OptionalField { receiver, name } => match self.eval_in(p, receiver, fuel) {
                Ok(Value::NoneLit) => Ok(Value::NoneLit),
                Ok(v) => field_of(&v, name, e.span),
                Err(x) => Err(x),
            },
            ExprKind::Call { callee, args } => self.eval_call(p, e, callee, args, fuel),
            ExprKind::Cast { expr: inner, ty } => match self.eval_in(p, inner, fuel) {
                Ok(v) => self.cast(v, ty, e.span),
                Err(x) => Err(x),
            },
            ExprKind::Try(inner) => match self.eval_in(p, inner, fuel) {
                Ok(v) => Ok(Value::Result { ok: true, value: Box::new(v), failure: None }),
                Err(Stop::Fail(f)) => {
                    assert(value_view(Value::Unit) == ValueV::Unit);
                    Ok(Value::Result { ok: false, value: Box::new(Value::Unit), failure: Some(f) })
                },
                Err(x) => Err(x),
            },
            ExprKind::Match { scrutinee, arms } => match self.eval_in(p, scrutinee, fuel) {
                Ok(v) => self.arms(p, &v, arms, 0, e, fuel),
                Err(x) => Err(x),
            },
            ExprKind::Fail(inner) => match self.eval_in(p, inner, fuel) {
                Ok(v) => {
                    proof { lemma_vtext(v, false); }
                    let t = display(&v);
                    Err(Stop::Fail(Failure::new(FailureKind::Unsupported, t.as_str(), e.span)))
                },
                Err(x) => Err(x),
            },
            _ => {
                proof { reveal_strlit("this expression is not evaluated"); }
                Err(fail_unsupported("this expression is not evaluated", e.span))
            },
        }
    }

    /// Evaluating expressions left to right.
    fn evals(&mut self, p: &Vec<Item>, es: &Vec<Expr>, fuel: u64) -> (r: Result<Vec<Value>, Stop>)
        ensures
final(self)@.answers == old(self)@.answers,
in_bounds(old(self)@) ==> in_bounds(final(self)@),
in_bounds(old(self)@) && (r matches Err(Stop::Need(_))) ==> final(self)@.asked == final(self)@.answers.len(),
            (final(self)@, match r { Ok(vs) => Ok(values_view(vs@)), Err(x) => Err(stop_view(x)) })
                == evals_spec(p@, old(self)@, es@, fuel as nat),
        decreases fuel, es@, 2nat, 0nat,
    {
        let ghost s0 = self@;
        let mut vs: Vec<Value> = Vec::new();
        let mut i: usize = 0;
        assert(es@.take(0) =~= Seq::<Expr>::empty());
        while i < es.len()
            invariant
                i <= es@.len(),
                s0 == old(self)@,
                self@.answers == s0.answers,
                in_bounds(s0) ==> in_bounds(self@),
                evals_spec(p@, s0, es@.take(i as int), fuel as nat) == (self@, Ok::<Seq<ValueV>, StopV>(values_view(vs@))),
            decreases es@.len() - i,
        {
            proof {
                assert(es@.take(i + 1).drop_last() =~= es@.take(i as int));
                assert(es@.take(i + 1).last() == es@[i as int]);
            }
            let ghost sb = self@;
            match self.eval_in(p, &es[i], fuel) {
                Ok(v) => {
                    let ghost v0 = vs@;
                    vs.push(v);
                    proof { lemma_values_view_push(v0, v); }
                },
                Err(x) => {
                    proof {
                        assert(eval_spec(p@, sb, es@[i as int], fuel as nat) == (self@, Err::<ValueV, StopV>(stop_view(x))));
                        assert(evals_spec(p@, s0, es@.take(i + 1), fuel as nat) == (self@, Err::<Seq<ValueV>, StopV>(stop_view(x))));
                        lemma_evals_stop(p@, s0, es@, i + 1, fuel as nat);
                    }
                    return Err(x);
                },
            }
            i = i + 1;
        }
        assert(es@.take(i as int) =~= es@);
        Ok(vs)
    }

    /// Evaluating call arguments left to right.
    fn args(&mut self, p: &Vec<Item>, args: &Vec<crate::ast::expr::Arg>, fuel: u64) -> (r: Result<Vec<Value>, Stop>)
        ensures
final(self)@.answers == old(self)@.answers,
in_bounds(old(self)@) ==> in_bounds(final(self)@),
in_bounds(old(self)@) && (r matches Err(Stop::Need(_))) ==> final(self)@.asked == final(self)@.answers.len(),
            (final(self)@, match r { Ok(vs) => Ok(values_view(vs@)), Err(x) => Err(stop_view(x)) })
                == args_spec(p@, old(self)@, args@, fuel as nat),
        decreases fuel, args@, 2nat, 0nat,
    {
        let ghost s0 = self@;
        let mut vs: Vec<Value> = Vec::new();
        let mut i: usize = 0;
        assert(args@.take(0) =~= Seq::<crate::ast::expr::Arg>::empty());
        while i < args.len()
            invariant
                i <= args@.len(),
                s0 == old(self)@,
                self@.answers == s0.answers,
                in_bounds(s0) ==> in_bounds(self@),
                args_spec(p@, s0, args@.take(i as int), fuel as nat) == (self@, Ok::<Seq<ValueV>, StopV>(values_view(vs@))),
            decreases args@.len() - i,
        {
            proof {
                assert(args@.take(i + 1).drop_last() =~= args@.take(i as int));
                assert(args@.take(i + 1).last() == args@[i as int]);
            }
            let ghost sb = self@;
            match self.eval_in(p, &args[i].value, fuel) {
                Ok(v) => {
                    let ghost v0 = vs@;
                    vs.push(v);
                    proof { lemma_values_view_push(v0, v); }
                },
                Err(x) => {
                    proof {
                        assert(eval_spec(p@, sb, args@[i as int].value, fuel as nat) == (self@, Err::<ValueV, StopV>(stop_view(x))));
                        assert(args_spec(p@, s0, args@.take(i + 1), fuel as nat) == (self@, Err::<Seq<ValueV>, StopV>(stop_view(x))));
                        lemma_args_stop(p@, s0, args@, i + 1, fuel as nat);
                    }
                    return Err(x);
                },
            }
            i = i + 1;
        }
        assert(args@.take(i as int) =~= args@);
        Ok(vs)
    }

    /// Running a block in a scope of its own.
    fn block(&mut self, p: &Vec<Item>, b: &Block, fuel: u64) -> (r: Result<Value, Stop>)
        ensures
final(self)@.answers == old(self)@.answers,
in_bounds(old(self)@) ==> in_bounds(final(self)@),
in_bounds(old(self)@) && (r matches Err(Stop::Need(_))) ==> final(self)@.asked == final(self)@.answers.len(),
            (final(self)@, res_view(r)) == block_spec(p@, old(self)@, *b, fuel as nat),
        decreases fuel, *b, 2nat, 0nat,
    {
        self.push_scope();
        let r = self.stmts(p, &b.statements, fuel);
        self.pop_scope();
        r
    }

    /// Running statements in order.
    fn stmts(&mut self, p: &Vec<Item>, ss: &Vec<Stmt>, fuel: u64) -> (r: Result<Value, Stop>)
        ensures
final(self)@.answers == old(self)@.answers,
in_bounds(old(self)@) ==> in_bounds(final(self)@),
in_bounds(old(self)@) && (r matches Err(Stop::Need(_))) ==> final(self)@.asked == final(self)@.answers.len(),
            (final(self)@, res_view(r)) == stmts_spec(p@, old(self)@, ss@, fuel as nat),
        decreases fuel, ss@, 2nat, 0nat,
    {
        let ghost s0 = self@;
        let mut last = Value::Unit;
        let mut i: usize = 0;
        assert(ss@.take(0) =~= Seq::<Stmt>::empty());
        while i < ss.len()
            invariant
                i <= ss@.len(),
                s0 == old(self)@,
                self@.answers == s0.answers,
                in_bounds(s0) ==> in_bounds(self@),
                stmts_spec(p@, s0, ss@.take(i as int), fuel as nat) == (self@, Ok::<ValueV, StopV>(last@)),
            decreases ss@.len() - i,
        {
            proof {
                assert(ss@.take(i + 1).drop_last() =~= ss@.take(i as int));
                assert(ss@.take(i + 1).last() == ss@[i as int]);
            }
            let ghost sb = self@;
            let r = self.stmt(p, &ss[i], fuel);
            proof {
                assert(stmt_spec(p@, sb, ss@[i as int], fuel as nat) == (self@, res_view(r)));
                assert(stmts_spec(p@, s0, ss@.take(i + 1), fuel as nat) == (self@, res_view(r)));
            }
            match r {
                Ok(v) => {
                    last = v;
                },
                Err(x) => {
                    proof { lemma_stmts_stop(p@, s0, ss@, i + 1, fuel as nat); }
                    return Err(x);
                },
            }
            i = i + 1;
        }
        assert(ss@.take(i as int) =~= ss@);
        Ok(last)
    }
}

impl Interpreter {
    /// Running one statement.
    #[verifier::rlimit(40)]
    fn stmt(&mut self, p: &Vec<Item>, st: &Stmt, fuel: u64) -> (r: Result<Value, Stop>)
        ensures
final(self)@.answers == old(self)@.answers,
in_bounds(old(self)@) ==> in_bounds(final(self)@),
in_bounds(old(self)@) && (r matches Err(Stop::Need(_))) ==> final(self)@.asked == final(self)@.answers.len(),
            (final(self)@, res_view(r)) == stmt_spec(p@, old(self)@, *st, fuel as nat),
        decreases fuel, *st, 1nat, 0nat,
    {
        match &st.kind {
            StmtKind::Let { pattern, mutable, value, .. } => match self.eval_in(p, value, fuel) {
                Err(x) => Err(x),
                Ok(v) => match &pattern.kind {
                    PatternKind::Bind(n) => {
                        self.define(n.clone(), v, *mutable);
                        Ok(Value::Unit)
                    },
                    PatternKind::Wildcard => Ok(Value::Unit),
                    _ => {
                        proof { reveal_strlit("this pattern is not evaluated"); }
                        Err(fail_unsupported("this pattern is not evaluated", st.span))
                    },
                },
            },
            StmtKind::Assign { target, op, value } => {
                let v = match self.eval_in(p, value, fuel) {
                    Ok(v) => v,
                    Err(x) => return Err(x),
                };
                if matches!(op, AssignOp::Assign) {
                    self.assign_to(p, target, v, st.span, fuel)
                } else {
                    let cur = match self.eval_in(p, target, fuel) {
                        Ok(c) => c,
                        Err(x) => return Err(x),
                    };
                    match self.binary(assign_op(*op), cur, v, st.span) {
                        Ok(nv) => self.assign_to(p, target, nv, st.span, fuel),
                        Err(x) => Err(x),
                    }
                }
            },
            StmtKind::While { condition, body } => self.run_while(p, st, condition, body, fuel),
            StmtKind::For { pattern, iterable, body } => {
                let v = match self.eval_in(p, iterable, fuel) {
                    Ok(v) => v,
                    Err(x) => return Err(x),
                };
                match elements(&v) {
                    Some(xs) => self.run_for(p, st, pattern, iterable, body, xs, fuel),
                    None => Err(type_failure("`", &v, "` is not iterable", st.span)),
                }
            },
            StmtKind::Return(value) => match value {
                Some(x) => match self.eval_in(p, x, fuel) {
                    Ok(v) => Err(Stop::Return(v)),
                    Err(y) => Err(y),
                },
                None => Err(Stop::Return(Value::Unit)),
            },
            StmtKind::Break => Err(Stop::Break),
            StmtKind::Continue => Err(Stop::Continue),
            StmtKind::Fail(x) => match self.eval_in(p, x, fuel) {
                Ok(v) => {
                    proof { lemma_vtext(v, false); }
                    let t = display(&v);
                    Err(Stop::Fail(Failure::new(FailureKind::Unsupported, t.as_str(), st.span)))
                },
                Err(y) => Err(y),
            },
            StmtKind::Expr(x) => self.eval_in(p, x, fuel),
        }
    }

    /// Calling the function `name` with `args`.
    fn call(&mut self, p: &Vec<Item>, name: &String, args: Vec<Value>, e: &Expr, fuel: u64) -> (r: Result<Value, Stop>)
        ensures
final(self)@.answers == old(self)@.answers,
in_bounds(old(self)@) ==> in_bounds(final(self)@),
in_bounds(old(self)@) && (r matches Err(Stop::Need(_))) ==> final(self)@.asked == final(self)@.answers.len(),
            (final(self)@, res_view(r)) == call_spec(p@, old(self)@, name@, values_view(args@), *e, fuel as nat),
        decreases fuel, *e, 2nat, 0nat,
    {
        proof { lemma_values_view_index(args@); }
        if builtin_name(name.as_str()) {
            let expected: usize = if str_eq(name.as_str(), "range") { 2 } else { 1 };
            if args.len() != expected {
                Err(arity_failure(name.as_str(), expected, args.len(), e.span))
            } else {
                self.builtin(name, args, e.span)
            }
        } else {
            match find_function(p, name.as_str()) {
                None => match variant_of(p, name.as_str()) {
                    Some((en, k)) => if args.len() != k {
                        Err(arity_failure(name.as_str(), k, args.len(), e.span))
                    } else {
                        Ok(Value::Variant { enum_name: en, variant: name.clone(), payload: args })
                    },
                    None => {
                        let m = message3("undefined name `", name.as_str(), "`");
                        Err(Stop::Fail(Failure::new(FailureKind::Unsupported, m.as_str(), e.span)))
                    },
                },
                Some(i) => match &p[i].kind {
                    ItemKind::Fn(d) => {
                        if args.len() != d.params.len() {
                            Err(arity_failure(name.as_str(), d.params.len(), args.len(), e.span))
                        } else if self.depth >= MAX_CALL_DEPTH {
                            proof { reveal_strlit("call depth exceeded 48 (possible infinite recursion)"); }
                            Err(Stop::Fail(Failure::new(FailureKind::StackOverflow,
                                "call depth exceeded 48 (possible infinite recursion)", e.span)))
                        } else if fuel == 0 {
                            Err(Stop::Exhausted)
                        } else {
                            let ghost s = self@;
                            let mut binds: Vec<Binding> = Vec::new();
                            std::mem::swap(&mut binds, &mut self.binds);
                            let mut starts: Vec<usize> = Vec::new();
                            starts.push(0);
                            starts.push(0);
                            std::mem::swap(&mut starts, &mut self.starts);
                            let depth = self.depth;
                            self.depth = depth + 1;
                            proof {
                                assert(self@.binds =~= Seq::<(Seq<char>, ValueV, bool)>::empty());
                                assert(self@.starts =~= seq![0usize, 0usize]);
                            }
                            self.bind_params(d, args);
                            let r = self.stmts(p, &d.body.statements, fuel - 1);
                            self.binds = binds;
                            self.starts = starts;
                            self.depth = depth;
                            match r {
                                Ok(v) => Ok(v),
                                Err(Stop::Return(v)) => Ok(v),
                                Err(Stop::Break) => {
                                    proof { reveal_strlit("`break` or `continue` outside a loop"); }
                                    Err(fail_unsupported("`break` or `continue` outside a loop", e.span))
                                },
                                Err(Stop::Continue) => {
                                    proof { reveal_strlit("`break` or `continue` outside a loop"); }
                                    Err(fail_unsupported("`break` or `continue` outside a loop", e.span))
                                },
                                Err(x) => Err(x),
                            }
                        }
                    },
                    _ => {
                        let m = message3("undefined name `", name.as_str(), "`");
                        Err(Stop::Fail(Failure::new(FailureKind::Unsupported, m.as_str(), e.span)))
                    },
                },
            }
        }
    }
}

impl Interpreter {
    /// A `while` loop, each turn drawing on `fuel`.
    fn run_while(&mut self, p: &Vec<Item>, st: &Stmt, condition: &Expr, body: &Block, fuel: u64) -> (r: Result<Value, Stop>)
        requires
            st.kind == (StmtKind::While { condition: *condition, body: *body }),
        ensures
final(self)@.answers == old(self)@.answers,
in_bounds(old(self)@) ==> in_bounds(final(self)@),
in_bounds(old(self)@) && (r matches Err(Stop::Need(_))) ==> final(self)@.asked == final(self)@.answers.len(),
            (final(self)@, res_view(r)) == while_spec(p@, old(self)@, *st, fuel as nat, fuel as nat),
        decreases fuel, *st, 0nat, 1nat,
    {

        let ghost s0 = self@;
        let mut k: u64 = fuel;
        loop
            invariant
                k <= fuel,
                st.kind == (StmtKind::While { condition: *condition, body: *body }),
                s0 == old(self)@,
                self@.answers == s0.answers,
                in_bounds(s0) ==> in_bounds(self@),
                while_spec(p@, s0, *st, fuel as nat, fuel as nat) == while_spec(p@, self@, *st, fuel as nat, k as nat),
            decreases k,
        {
            if k == 0 {
                return Err(Stop::Exhausted);
            }
            let c = match self.eval_in(p, condition, fuel) {
                Ok(v) => v,
                Err(x) => return Err(x),
            };
            let go = match c {
                Value::Bool(b) => b,
                _ => {
                    proof { reveal_strlit("condition is not a `Bool`"); }
                    return Err(fail_unsupported("condition is not a `Bool`", st.span));
                },
            };
            if !go {
                return Ok(Value::Unit);
            }
            match self.block(p, body, fuel) {
                Ok(_) => {},
                Err(Stop::Continue) => {},
                Err(Stop::Break) => {
                    return Ok(Value::Unit);
                },
                Err(x) => {
                    return Err(x);
                },
            }
            k = k - 1;
        }
    }

    /// A `for` loop over the values `xs`.
    fn run_for(&mut self, p: &Vec<Item>, st: &Stmt, pattern: &Pattern, iterable: &Expr, body: &Block, xs: Vec<Value>, fuel: u64) -> (r: Result<Value, Stop>)
        requires
            st.kind == (StmtKind::For { pattern: *pattern, iterable: *iterable, body: *body }),
        ensures
final(self)@.answers == old(self)@.answers,
in_bounds(old(self)@) ==> in_bounds(final(self)@),
in_bounds(old(self)@) && (r matches Err(Stop::Need(_))) ==> final(self)@.asked == final(self)@.answers.len(),
            (final(self)@, res_view(r)) == for_spec(p@, old(self)@, *st, values_view(xs@), fuel as nat),
        decreases fuel, *st, 0nat, 1nat,
    {
        let ghost xv = values_view(xs@);
        proof { lemma_values_view_index(xs@); }
        let ghost s0 = self@;
        let mut i: usize = 0;
        assert(xv.skip(0) =~= xv);
        while i < xs.len()
            invariant
                i <= xs@.len(),
                xv == values_view(xs@),
                xv.len() == xs@.len(),
                forall|j: int| 0 <= j < xs@.len() ==> #[trigger] xv[j] == value_view(xs@[j]),
                st.kind == (StmtKind::For { pattern: *pattern, iterable: *iterable, body: *body }),
                s0 == old(self)@,
                self@.answers == s0.answers,
                in_bounds(s0) ==> in_bounds(self@),
                for_spec(p@, s0, *st, xv, fuel as nat) == for_spec(p@, self@, *st, xv.skip(i as int), fuel as nat),
            decreases xs@.len() - i,
        {
            proof {
                assert(xv.skip(i as int).drop_first() =~= xv.skip(i + 1));
                assert(xv.skip(i as int)[0] == xv[i as int]);
            }
            self.push_scope();
            match &pattern.kind {
                PatternKind::Bind(n) => {
                    let x = xs[i].duplicate();
                    self.define(n.clone(), x, false);
                },
                _ => {},
            }
            let r = self.stmts(p, &body.statements, fuel);
            self.pop_scope();
            match r {
                Ok(_) => {},
                Err(Stop::Continue) => {},
                Err(Stop::Break) => {
                    return Ok(Value::Unit);
                },
                Err(x) => {
                    return Err(x);
                },
            }
            i = i + 1;
        }
        assert(xv.skip(i as int).len() == 0);
        Ok(Value::Unit)
    }
}

// --- Running a program -------------------------------------------------------

/// Where failures outside any expression are reported.
pub open spec fn entry_span() -> Span {
    Span { file: FileId(0), start: 0, end: 0 }
}

/// Running `main` with no arguments, from the starting state with the
/// caller's double answers, one call deep.
pub open spec fn run_spec(p: Seq<Item>, answers: Seq<FloatAnswer>, fuel: nat) -> (StV, Result<ValueV, StopV>) {
    let s = initial_state(answers);
    match find_fn(p, "main"@) {
        None => (s, Err(unsupported("this program has no `main` function"@, entry_span()))),
        Some(i) => match p[i].kind {
            ItemKind::Fn(d) => if d.params@.len() != 0 {
                (s, Err(unsupported(arity_msg("main"@, d.params@.len(), 0), entry_span())))
            } else {
                let s1 = StV { starts: seq![0usize, 0usize], depth: 1, ..s };
                let (s3, r) = stmts_spec(p, s1, d.body.statements@, fuel);
                let s4 = StV { binds: s.binds, starts: s.starts, depth: 0, ..s3 };
                match r {
                    Ok(v) => (s4, Ok(v)),
                    Err(StopV::Return(v)) => (s4, Ok(v)),
                    Err(StopV::Break) => (s4, Err(unsupported("`break` or `continue` outside a loop"@, entry_span()))),
                    Err(StopV::Continue) => (s4, Err(unsupported("`break` or `continue` outside a loop"@, entry_span()))),
                    Err(x) => (s4, Err(x)),
                }
            },
            _ => (s, Err(unsupported("this program has no `main` function"@, entry_span()))),
        },
    }
}

/// What a run of a program came to.
#[derive(Debug)]
pub enum Step {
    /// `main` finished: everything `print` wrote, and its value or the
    /// failure that escaped it.
    Done { output: String, result: Result<Value, Failure> },
    /// A double operation is needed: run again with its answer after the
    /// ones given.
    NeedFloat(FloatOp),
    /// The fuel ran out: run again with more.
    OutOfFuel,
}

/// The model of a [`Step`].
pub enum StepV {
    Done(Seq<char>, Result<ValueV, (FailureKind, Seq<char>, Span)>),
    NeedFloat(FloatOp),
    OutOfFuel,
}

pub open spec fn step_view(r: Step) -> StepV {
    match r {
        Step::Done { output, result } => StepV::Done(output@, match result {
            Ok(v) => Ok(v@),
            Err(f) => Err((f.kind, f.message@, f.span)),
        }),
        Step::NeedFloat(op) => StepV::NeedFloat(op),
        Step::OutOfFuel => StepV::OutOfFuel,
    }
}

/// The step a run of `main` comes to.
pub open spec fn run_step(p: Seq<Item>, answers: Seq<FloatAnswer>, fuel: nat) -> StepV {
    let (s, r) = run_spec(p, answers, fuel);
    match r {
        Ok(v) => StepV::Done(s.output, Ok(v)),
        Err(StopV::Fail(k, m, sp)) => StepV::Done(s.output, Err((k, m, sp))),
        Err(StopV::Need(op)) => StepV::NeedFloat(op),
        _ => StepV::OutOfFuel,
    }
}

impl Interpreter {
    /// Evaluates `expr` against `program`'s functions, drawing on `fuel`
    /// for loop turns and calls.
    pub fn eval(&mut self, program: &Program, expr: &Expr, fuel: u64) -> (r: Result<Value, Stop>)
        ensures
final(self)@.answers == old(self)@.answers,
in_bounds(old(self)@) ==> in_bounds(final(self)@),
in_bounds(old(self)@) && (r matches Err(Stop::Need(_))) ==> final(self)@.asked == final(self)@.answers.len(),
            (final(self)@, res_view(r)) == eval_spec(program.items@, old(self)@, *expr, fuel as nat),
    {
        self.eval_in(&program.items, expr, fuel)
    }

    /// The double answers, handed back.
    pub fn into_answers(self) -> (a: Vec<FloatAnswer>)
        ensures
            a@ == self@.answers,
    {
        self.answers
    }

    /// Runs `main` from a fresh state.
    fn run_main(&mut self, p: &Vec<Item>, fuel: u64) -> (r: Result<Value, Stop>)
        requires
            old(self)@ == initial_state(old(self)@.answers),
        ensures
final(self)@.answers == old(self)@.answers,
in_bounds(old(self)@) ==> in_bounds(final(self)@),
in_bounds(old(self)@) && (r matches Err(Stop::Need(_))) ==> final(self)@.asked == final(self)@.answers.len(),
            (final(self)@, res_view(r)) == run_spec(p@, old(self)@.answers, fuel as nat),
    {
        proof { reveal_strlit("main"); reveal_strlit("this program has no `main` function"); }
        let span = Span::point(FileId(0), 0);
        match find_function(p, "main") {
            None => Err(fail_unsupported("this program has no `main` function", span)),
            Some(i) => match &p[i].kind {
                ItemKind::Fn(d) => {
                    if d.params.len() != 0 {
                        Err(arity_failure("main", d.params.len(), 0, span))
                    } else {
                        let ghost s = self@;
                        let mut starts: Vec<usize> = Vec::new();
                        starts.push(0);
                        starts.push(0);
                        std::mem::swap(&mut starts, &mut self.starts);
                        self.depth = 1;
                        assert(self@.starts =~= seq![0usize, 0usize]);
                        assert(self@ == StV { starts: seq![0usize, 0usize], depth: 1, ..s });
                        let r = self.stmts(p, &d.body.statements, fuel);
                        self.binds = Vec::new();
                        self.starts = starts;
                        self.depth = 0;
                        assert(self@.binds =~= s.binds);
                        match r {
                            Ok(v) => Ok(v),
                            Err(Stop::Return(v)) => Ok(v),
                            Err(Stop::Break) => {
                                proof { reveal_strlit("`break` or `continue` outside a loop"); }
                                Err(fail_unsupported("`break` or `continue` outside a loop", span))
                            },
                            Err(Stop::Continue) => {
                                proof { reveal_strlit("`break` or `continue` outside a loop"); }
                                Err(fail_unsupported("`break` or `continue` outside a loop", span))
                            },
                            Err(x) => Err(x),
                        }
                    }
                },
                _ => Err(fail_unsupported("this program has no `main` function", span)),
            },
        }
    }
}

/// Runs `program`'s `main` with the double answers so far, drawing on
/// `fuel`; hands the answers back beside the step it came to. A run never
/// uses more answers than it is given, and when it stops for a double
/// operation it has used them all, so the next answer goes to that
/// operation.
pub fn run_with(program: &Program, answers: Vec<FloatAnswer>, fuel: u64) -> (r: (Step, Vec<FloatAnswer>))
    ensures
        step_view(r.0) == run_step(program.items@, answers@, fuel as nat),
        r.1@ == answers@,
        in_bounds(run_spec(program.items@, answers@, fuel as nat).0),
        step_view(r.0) is NeedFloat ==> run_spec(program.items@, answers@, fuel as nat).0.asked == answers@.len(),
{
    let ghost a = answers@;
    let mut it = Interpreter::new(answers);
    let res = it.run_main(&program.items, fuel);
    let step = match res {
        Ok(v) => Step::Done { output: it.output.clone(), result: Ok(v) },
        Err(Stop::Fail(f)) => Step::Done { output: it.output.clone(), result: Err(f) },
        Err(Stop::Need(op)) => Step::NeedFloat(op),
        Err(_) => Step::OutOfFuel,
    };
    (step, it.into_answers())
}

/// A run of a program that asks for double operations one at a time: each
/// answer is kept and the program is run again from the start with all of
/// them.
pub struct Session {
    answers: Vec<FloatAnswer>,
    fuel: u64,
}

/// The model of a [`Session`]: the answers given so far and the fuel of
/// each run.
pub struct SessionV {
    pub answers: Seq<FloatAnswer>,
    pub fuel: nat,
}

impl View for Session {
    type V = SessionV;

    closed spec fn view(&self) -> SessionV {
        SessionV { answers: self.answers@, fuel: self.fuel as nat }
    }
}

impl Session {
    /// A session with no answers yet and `fuel` for each run.
    pub fn new(fuel: u64) -> (s: Session)
        ensures
            s@.answers == Seq::<FloatAnswer>::empty(),
            s@.fuel == fuel,
    {
        Session { answers: Vec::new(), fuel }
    }

    /// Runs `program` with the answers so far.
    pub fn start(&mut self, program: &Program) -> (r: Step)
        ensures
            final(self)@ == old(self)@,
            step_view(r) == run_step(program.items@, old(self)@.answers, old(self)@.fuel),
            step_view(r) is NeedFloat
                ==> run_spec(program.items@, old(self)@.answers, old(self)@.fuel).0.asked == old(self)@.answers.len(),
    {
        let mut answers: Vec<FloatAnswer> = Vec::new();
        std::mem::swap(&mut answers, &mut self.answers);
        let (step, back) = run_with(program, answers, self.fuel);
        self.answers = back;
        step
    }

    /// Hands over the answer to the operation the last run asked for and
    /// runs `program` again; if that run stops for another operation, it
    /// has used every answer, the new one included.
    pub fn resume(&mut self, program: &Program, answer: FloatAnswer) -> (r: Step)
        ensures
            final(self)@.answers == old(self)@.answers.push(answer),
            final(self)@.fuel == old(self)@.fuel,
            step_view(r) == run_step(program.items@, old(self)@.answers.push(answer), old(self)@.fuel),
            step_view(r) is NeedFloat ==> run_spec(program.items@, old(self)@.answers.push(answer), old(self)@.fuel).0.asked
                == old(self)@.answers.len() + 1,
    {
        self.answers.push(answer);
        self.start(program)
    }
}

/// The last variant called `name`.
fn variant_at(vs: &Vec<VariantDecl>, name: &str) -> (r: Option<usize>)
    ensures
        match r {
            Some(j) => variant_in(vs@, name@) == Some(j as int) && j < vs@.len(),
            None => variant_in(vs@, name@) is None,
        },
{
    let mut k = vs.len();
    assert(vs@.take(k as int) =~= vs@);
    while k > 0
        invariant
            k <= vs@.len(),
            variant_in(vs@, name@) == variant_in(vs@.take(k as int), name@),
        decreases k,
    {
        proof {
            assert(vs@.take(k as int).drop_last() =~= vs@.take(k - 1));
            assert(vs@.take(k as int).last() == vs@[k - 1]);
        }
        if str_eq(vs[k - 1].name.as_str(), name) {
            return Some(k - 1);
        }
        k = k - 1;
    }
    None
}

/// The enum and payload arity of the variant called `name`.
fn variant_of(items: &Vec<Item>, name: &str) -> (r: Option<(String, usize)>)
    ensures
        match r {
            Some((en, k)) => find_variant(items@, name@) == Some((en@, k as nat)),
            None => find_variant(items@, name@) is None,
        },
{
    let mut k = items.len();
    assert(items@.take(k as int) =~= items@);
    while k > 0
        invariant
            k <= items@.len(),
            find_variant(items@, name@) == find_variant(items@.take(k as int), name@),
        decreases k,
    {
        proof {
            assert(items@.take(k as int).drop_last() =~= items@.take(k - 1));
            assert(items@.take(k as int).last() == items@[k - 1]);
        }
        match &items[k - 1].kind {
            ItemKind::Enum(d) => {
                match variant_at(&d.variants, name) {
                    Some(j) => {
                        return Some((d.name.clone(), d.variants[j].payload.len()));
                    },
                    None => {},
                }
            },
            _ => {},
        }
        k = k - 1;
    }
    None
}

impl Interpreter {
    /// Whether `pat` matches `v`, binding its names in the innermost scope.
    fn match_pattern(&mut self, p: &Vec<Item>, pat: &Pattern, v: &Value) -> (m: bool)
        ensures
            final(self)@.answers == old(self)@.answers,
            final(self)@.asked == old(self)@.asked,
            (final(self)@, m) == match_pat(p@, old(self)@, *pat, v@),
        decreases *pat, 1nat, 0nat,
    {
        match &pat.kind {
            PatternKind::Wildcard => true,
            PatternKind::Bind(n) => match variant_of(p, n.as_str()) {
                Some((_, k)) => match v {
                    Value::Variant { variant, payload, .. } => {
                        proof { lemma_values_view_index(payload@); }
                        str_eq(variant.as_str(), n.as_str()) && payload.len() == k
                    },
                    _ => false,
                },
                None => {
                    self.define(n.clone(), v.duplicate(), false);
                    true
                },
            },
            PatternKind::Literal(l) => {
                let x = lit_value(l);
                proof { lemma_veq(x, *v); }
                x.equals(v)
            },
            PatternKind::Variant { name, fields } => match v {
                Value::Variant { variant, payload, .. } => {
                    proof { lemma_values_view_index(payload@); }
                    if str_eq(variant.as_str(), name.as_str()) && payload.len() == fields.len() {
                        self.match_patterns(p, fields, payload, 0)
                    } else {
                        false
                    }
                },
                _ => false,
            },
        }
    }

    /// Whether the patterns from the `i`-th on match the values.
    fn match_patterns(&mut self, p: &Vec<Item>, pats: &Vec<Pattern>, vs: &Vec<Value>, i: usize) -> (m: bool)
        requires
            i <= pats@.len(),
        ensures
            final(self)@.answers == old(self)@.answers,
            final(self)@.asked == old(self)@.asked,
            (final(self)@, m) == match_pats(p@, old(self)@, pats@, values_view(vs@), i as nat),
        decreases pats@, 0nat, pats@.len() - i,
    {
        proof { lemma_values_view_index(vs@); }
        if i >= pats.len() || i >= vs.len() {
            true
        } else {
            let m = self.match_pattern(p, &pats[i], &vs[i]);
            if !m {
                false
            } else {
                self.match_patterns(p, pats, vs, i + 1)
            }
        }
    }

    /// Trying `match` arms from the `i`-th on.
    fn arms(&mut self, p: &Vec<Item>, v: &Value, arms: &Vec<MatchArm>, i: usize, e: &Expr, fuel: u64) -> (r: Result<Value, Stop>)
        requires
            i <= arms@.len(),
        ensures
            final(self)@.answers == old(self)@.answers,
            in_bounds(old(self)@) ==> in_bounds(final(self)@),
            in_bounds(old(self)@) && (r matches Err(Stop::Need(_))) ==> final(self)@.asked == final(self)@.answers.len(),
            (final(self)@, res_view(r)) == arms_spec(p@, old(self)@, v@, arms@, i as nat, *e, fuel as nat),
        decreases fuel, arms@, 2nat, arms@.len() - i,
    {
        if i >= arms.len() {
            proof { lemma_vtext(*v, false); }
            let t = display(v);
            let m = message3("no `match` arm matched `", t.as_str(), "`");
            return Err(Stop::Fail(Failure::new(FailureKind::Unsupported, m.as_str(), e.span)));
        }
        let arm = &arms[i];
        self.push_scope();
        let m = self.match_pattern(p, &arm.pattern, v);
        if !m {
            self.pop_scope();
            return self.arms(p, v, arms, i + 1, e, fuel);
        }
        match &arm.guard {
            Some(g) => {
                let gv = match self.eval_in(p, g, fuel) {
                    Ok(x) => x,
                    Err(x) => return Err(x),
                };
                match gv {
                    Value::Bool(true) => {
                        let rb = self.eval_in(p, &arm.body, fuel);
                        self.pop_scope();
                        rb
                    },
                    _ => {
                        self.pop_scope();
                        self.arms(p, v, arms, i + 1, e, fuel)
                    },
                }
            },
            None => {
                let rb = self.eval_in(p, &arm.body, fuel);
                self.pop_scope();
                rb
            },
        }
    }
}

impl Interpreter {
    /// A binary operator application.
    fn eval_binary(&mut self, p: &Vec<Item>, e: &Expr, op: BinaryOp, left: &Expr, right: &Expr, fuel: u64) -> (r: Result<Value, Stop>)
        requires
            e.kind == (ExprKind::Binary { op, left: Box::new(*left), right: Box::new(*right) }),
        ensures
            final(self)@.answers == old(self)@.answers,
            in_bounds(old(self)@) ==> in_bounds(final(self)@),
            in_bounds(old(self)@) && (r matches Err(Stop::Need(_))) ==> final(self)@.asked == final(self)@.answers.len(),
            (final(self)@, res_view(r)) == eval_spec(p@, old(self)@, *e, fuel as nat),
        decreases fuel, *e, 2nat, 1nat,
    {
        let l = match self.eval_in(p, left, fuel) {
            Ok(v) => v,
            Err(x) => return Err(x),
        };
        match op {
            BinaryOp::And => match l {
                Value::Bool(c) => if !c {
                    Ok(Value::Bool(false))
                } else {
                    match self.eval_in(p, right, fuel) {
                        Ok(Value::Bool(b)) => Ok(Value::Bool(b)),
                        Ok(_) => {
                            proof { reveal_strlit("`and` expects `Bool`"); }
                            Err(fail_unsupported("`and` expects `Bool`", e.span))
                        },
                        Err(x) => Err(x),
                    }
                },
                _ => Err(type_failure("`and` expects `Bool`, found `", &l, "`", e.span)),
            },
            BinaryOp::Or => match l {
                Value::Bool(c) => if c {
                    Ok(Value::Bool(true))
                } else {
                    match self.eval_in(p, right, fuel) {
                        Ok(Value::Bool(b)) => Ok(Value::Bool(b)),
                        Ok(_) => {
                            proof { reveal_strlit("`or` expects `Bool`"); }
                            Err(fail_unsupported("`or` expects `Bool`", e.span))
                        },
                        Err(x) => Err(x),
                    }
                },
                _ => Err(type_failure("`or` expects `Bool`, found `", &l, "`", e.span)),
            },
            BinaryOp::Coalesce => match l {
                Value::NoneLit => self.eval_in(p, right, fuel),
                _ => Ok(l),
            },
            _ => match self.eval_in(p, right, fuel) {
                Ok(r) => self.binary(op, l, r, e.span),
                Err(x) => Err(x),
            },
        }
    }

    /// A call: a `data` constructor, a variant constructor, or a call of the
    /// callee's function value.
    fn eval_call(&mut self, p: &Vec<Item>, e: &Expr, callee: &Expr, args: &Vec<Arg>, fuel: u64) -> (r: Result<Value, Stop>)
        requires
            e.kind == (ExprKind::Call { callee: Box::new(*callee), args: *args }),
        ensures
            final(self)@.answers == old(self)@.answers,
            in_bounds(old(self)@) ==> in_bounds(final(self)@),
            in_bounds(old(self)@) && (r matches Err(Stop::Need(_))) ==> final(self)@.asked == final(self)@.answers.len(),
            (final(self)@, res_view(r)) == eval_spec(p@, old(self)@, *e, fuel as nat),
        decreases fuel, *e, 2nat, 1nat,
    {
        match &callee.kind {
            ExprKind::Ident(n) => {
                match find_data_item(p, n.as_str()) {
                    Some(i) => {
                        return match &p[i].kind {
                            ItemKind::Data(d) => self.construct(p, d, args, e, fuel),
                            _ => Ok(Value::Unit),
                        };
                    },
                    None => {},
                }
                match variant_of(p, n.as_str()) {
                    Some((en, k)) => {
                        let vs = match self.args(p, args, fuel) {
                            Ok(vs) => vs,
                            Err(x) => return Err(x),
                        };
                        proof { lemma_values_view_index(vs@); }
                        if vs.len() != k {
                            let mut m = String::new();
                            m.append("variant `");
                            m.append(n.as_str());
                            m.append("` takes ");
                            push_u64(&mut m, k as u64);
                            m.append(" field(s) but ");
                            push_u64(&mut m, vs.len() as u64);
                            m.append(" were given");
                            return Err(Stop::Fail(Failure::new(FailureKind::Unsupported, m.as_str(), e.span)));
                        }
                        return Ok(Value::Variant { enum_name: en, variant: n.clone(), payload: vs });
                    },
                    None => {},
                }
            },
            _ => {},
        }
        proof {
            assert(e.kind is Call);
            assert(decreases_to!(*e => e.kind));
            assert(decreases_to!(e.kind => e.kind->callee));
            assert(*callee == *(e.kind->callee));
            assert(decreases_to!(*e => *callee));
        }
        let f = match self.eval_in(p, callee, fuel) {
            Ok(v) => v,
            Err(x) => return Err(x),
        };
        match &f {
            Value::Function { name, .. } => match self.args(p, args, fuel) {
                Ok(vs) => self.call(p, name, vs, e, fuel),
                Err(x) => Err(x),
            },
            _ => Err(type_failure("`", &f, "` is not callable", e.span)),
        }
    }

    /// Building a `data` value from the call's arguments.
    fn construct(&mut self, p: &Vec<Item>, d: &DataDecl, args: &Vec<Arg>, e: &Expr, fuel: u64) -> (r: Result<Value, Stop>)
        ensures
            final(self)@.answers == old(self)@.answers,
            in_bounds(old(self)@) ==> in_bounds(final(self)@),
            in_bounds(old(self)@) && (r matches Err(Stop::Need(_))) ==> final(self)@.asked == final(self)@.answers.len(),
            (final(self)@, res_view(r)) == construct_spec(p@, old(self)@, *d, args@, 0, unset_fields(*d), *e, fuel as nat),
        decreases fuel, args@, 1nat, 0nat,
    {
        let ghost s0 = self@;
        let mut fields: Vec<(String, Value)> = Vec::new();
        let mut j: usize = 0;
        while j < d.fields.len()
            invariant
                j <= d.fields@.len(),
                fields@.len() == j,
                forall|k: int| 0 <= k < j ==> #[trigger] fields@[k].0@ == d.fields@[k].name@ && fields@[k].1 == Value::NoneLit,
            decreases d.fields@.len() - j,
        {
            fields.push((d.fields[j].name.clone(), Value::NoneLit));
            j = j + 1;
        }
        proof {
            lemma_data_fields_view_index(fields@);
            assert(data_fields_view(fields@) =~= unset_fields(*d));
        }
        let mut i: usize = 0;
        while i < args.len()
            invariant
                i <= args@.len(),
                s0 == old(self)@,
                self@.answers == s0.answers,
                in_bounds(s0) ==> in_bounds(self@),
                construct_spec(p@, s0, *d, args@, 0, unset_fields(*d), *e, fuel as nat)
                    == construct_spec(p@, self@, *d, args@, i as nat, data_fields_view(fields@), *e, fuel as nat),
                data_fields_view(fields@).len() == fields@.len(),
            decreases args@.len() - i,
        {
            let v = match self.eval_in(p, &args[i].value, fuel) {
                Ok(v) => v,
                Err(x) => return Err(x),
            };
            let pos = match &args[i].name {
                Some(f) => field_position(&d.fields, f.as_str()),
                None => Some(i),
            };
            proof { lemma_data_fields_view_index(fields@); }
            match pos {
                Some(k) => {
                    if k < fields.len() {
                        let ghost f0 = fields@;
                        let nm = fields[k].0.clone();
                        let ghost vv = v@;
                        fields.set(k, (nm, v));
                        proof {
                            lemma_data_fields_view_index(fields@);
                            assert(data_fields_view(fields@) =~= data_fields_view(f0).update(k as int, (data_fields_view(f0)[k as int].0, vv)));
                        }
                    } else {
                        let m = message3("`", d.name.as_str(), "` has no field for this argument");
                        return Err(Stop::Fail(Failure::new(FailureKind::Unsupported, m.as_str(), e.span)));
                    }
                },
                None => {
                    let m = message3("`", d.name.as_str(), "` has no field for this argument");
                    return Err(Stop::Fail(Failure::new(FailureKind::Unsupported, m.as_str(), e.span)));
                },
            }
            i = i + 1;
        }
        Ok(Value::Data { name: d.name.clone(), fields })
    }
}

/// The last `data` declaration called `name`.
fn find_data_item(items: &Vec<Item>, name: &str) -> (r: Option<usize>)
    ensures
        match r {
            Some(i) => find_data(items@, name@) == Some(i as int) && i < items@.len(),
            None => find_data(items@, name@) is None,
        },
{
    let mut k = items.len();
    assert(items@.take(k as int) =~= items@);
    while k > 0
        invariant
            k <= items@.len(),
            find_data(items@, name@) == find_data(items@.take(k as int), name@),
        decreases k,
    {
        proof {
            assert(items@.take(k as int).drop_last() =~= items@.take(k - 1));
            assert(items@.take(k as int).last() == items@[k - 1]);
        }
        match &items[k - 1].kind {
            ItemKind::Data(d) => {
                if str_eq(d.name.as_str(), name) {
                    return Some(k - 1);
                }
            },
            _ => {},
        }
        k = k - 1;
    }
    None
}

/// The first field called `name`.
fn field_position(fs: &Vec<FieldDecl>, name: &str) -> (r: Option<usize>)
    ensures
        match r {
            Some(k) => field_pos(fs@, name@, 0) == Some(k as int),
            None => field_pos(fs@, name@, 0) is None,
        },
{
    let mut i: usize = 0;
    while i < fs.len()
        invariant
            i <= fs@.len(),
            field_pos(fs@, name@, 0) == field_pos(fs@, name@, i as int),
        decreases fs@.len() - i,
    {
        if str_eq(fs[i].name.as_str(), name) {
            return Some(i);
        }
        i = i + 1;
    }
    None
}

/// Reading the field `name` of a value.
fn field_of(v: &Value, name: &String, span: Span) -> (r: Result<Value, Stop>)
    ensures
        res_view(r) == field_spec(v@, name@, span),
{
    match v {
        Value::Data { name: tn, fields } => {
            proof { lemma_data_fields_view_index(fields@); }
            let ghost fv = data_fields_view(fields@);
            let mut i: usize = 0;
            while i < fields.len()
                invariant
                    i <= fields@.len(),
                    fv == data_fields_view(fields@),
                    fv.len() == fields@.len(),
                    v@ == ValueV::Data(tn@, fv),
                    forall|k: int| 0 <= k < fields@.len() ==> #[trigger] fv[k] == (fields@[k].0@, value_view(fields@[k].1)),
                    field_value(fv, name@, 0) == field_value(fv, name@, i as int),
                decreases fields@.len() - i,
            {
                if str_eq(fields[i].0.as_str(), name.as_str()) {
                    assert(fv[i as int] == (fields@[i as int].0@, value_view(fields@[i as int].1)));
                    assert(field_value(fv, name@, i as int) == Some(value_view(fields@[i as int].1)));
                    return Ok(fields[i].1.duplicate());
                }
                i = i + 1;
            }
            let mut m = String::new();
            m.append("`");
            m.append(tn.as_str());
            m.append("` has no field `");
            m.append(name.as_str());
            m.append("`");
            Err(Stop::Fail(Failure::new(FailureKind::Unsupported, m.as_str(), span)))
        },
        _ => {
            let n = kind_name_of(v);
            let mut m = String::new();
            m.append("`");
            m.append(n.as_str());
            m.append("` has no field `");
            m.append(name.as_str());
            m.append("`");
            Err(Stop::Fail(Failure::new(FailureKind::Unsupported, m.as_str(), span)))
        },
    }
}

// --- Laws ----------------------------------------------------------------------

/// A call leaves the caller's frame as it was: whatever the callee does,
/// after the call the caller's bindings, its scopes and the call depth are
/// those from before the call.
pub proof fn law_call_restores_frame(p: Seq<Item>, s: StV, name: Seq<char>, args: Seq<ValueV>, e: Expr, fuel: nat)
    ensures
        ({
            let (s2, _) = call_spec(p, s, name, args, e, fuel);
            s2.binds == s.binds && s2.starts == s.starts && s2.depth == s.depth
        }),
{
    if is_builtin_name(name) && args.len() == builtin_arity(name) {
        let a = args[0];
        if name == "int"@ {
            if a is Float {
                let (s1, _) = ask(s, FloatOp { kind: FloatKind::ToInt, a: Num::Float(a->Float_0), b: Num::Int(0) });
                assert(s1.binds == s.binds && s1.starts == s.starts && s1.depth == s.depth);
            }
        } else if name == "float"@ {
            if a is Int {
                let (s1, _) = ask(s, FloatOp { kind: FloatKind::Convert, a: Num::Int(a->Int_0), b: Num::Int(0) });
                assert(s1.binds == s.binds && s1.starts == s.starts && s1.depth == s.depth);
            }
        }
    }
}

impl Interpreter {
    /// `v as ty`.
    fn cast(&mut self, v: Value, ty: &Type, span: Span) -> (r: Result<Value, Stop>)
        ensures
            final(self)@.answers == old(self)@.answers,
            in_bounds(old(self)@) ==> in_bounds(final(self)@),
            in_bounds(old(self)@) && (r matches Err(Stop::Need(_))) ==> final(self)@.asked == final(self)@.answers.len(),
            (final(self)@, res_view(r)) == cast_spec(old(self)@, v@, *ty, span),
    {
        proof { lemma_vtext(v, false); }
        match resolve_type(ty) {
            Err(_) => {
                proof { reveal_strlit("invalid cast target"); }
                Err(fail_unsupported("invalid cast target", span))
            },
            Ok(t) => {
                let to_float = match t {
                    Ty::Float => true,
                    _ => false,
                };
                match v {
                    Value::Int(x) => if to_float {
                        match self.ask(FloatOp { kind: FloatKind::Convert, a: Num::Int(x), b: Num::Int(0) }) {
                            Err(y) => return Err(y),
                            Ok(i) => return match &self.answers[i] {
                                FloatAnswer::Float(g) => Ok(float_value(g)),
                                _ => {
                                    proof { reveal_strlit("a double answer does not fit the operation"); }
                                    Err(fail_unsupported("a double answer does not fit the operation", span))
                                },
                            },
                        }
                    },
                    _ => {},
                }
                let vt = v.ty();
                if ty_eq(&vt, &t) {
                    Ok(v)
                } else {
                    let mut m = String::new();
                    m.append("cannot cast `");
                    let a = vt.name();
                    m.append(a.as_str());
                    m.append("` to `");
                    let b = t.name();
                    m.append(b.as_str());
                    m.append("`");
                    Err(Stop::Fail(Failure::new(FailureKind::Unsupported, m.as_str(), span)))
                }
            },
        }
    }
}

impl Interpreter {
    /// Assigning `v` to an assignment target.
    fn assign_to(&mut self, p: &Vec<Item>, target: &Expr, v: Value, span: Span, fuel: u64) -> (r: Result<Value, Stop>)
        ensures
            final(self)@.answers == old(self)@.answers,
            in_bounds(old(self)@) ==> in_bounds(final(self)@),
            in_bounds(old(self)@) && (r matches Err(Stop::Need(_))) ==> final(self)@.asked == final(self)@.answers.len(),
            (final(self)@, res_view(r)) == assign_to(p@, old(self)@, *target, v@, span, fuel as nat),
        decreases fuel, *target, 2nat, 0nat,
    {
        match &target.kind {
            ExprKind::Ident(_) => self.assign(target, v, span),
            ExprKind::Field { receiver, name } => match self.eval_in(p, receiver, fuel) {
                Err(x) => Err(x),
                Ok(c) => {
                    proof { lemma_vtext(c, false); }
                    let n = kind_name_of(&c);
                    let mut m = String::new();
                    m.append("assigning to field `");
                    m.append(name.as_str());
                    m.append("` of a `");
                    m.append(n.as_str());
                    m.append("` is not supported in 0.1.0-alpha");
                    Err(Stop::Fail(Failure::new(FailureKind::Unsupported, m.as_str(), span)))
                },
            },
            ExprKind::Index { .. } => {
                proof { reveal_strlit("assigning to an element is not evaluated"); }
                Err(fail_unsupported("assigning to an element is not evaluated", span))
            },
            _ => {
                proof { reveal_strlit("invalid assignment target"); }
                Err(fail_unsupported("invalid assignment target", span))
            },
        }
    }
}

/// The message of an `Err` of a `data` value.
fn data_message_of(fields: &Vec<(String, Value)>) -> (m: String)
    ensures
        m@ == data_message_v(data_fields_view(fields@)),
{
    proof {
        lemma_data_fields_view_index(fields@);
        reveal_strlit("message");
        reveal_strlit("failure");
    }
    let ghost fv = data_fields_view(fields@);
    let mut i: usize = 0;
    while i < fields.len()
        invariant
            i <= fields@.len(),
            fv == data_fields_view(fields@),
            fv.len() == fields@.len(),
            forall|k: int| 0 <= k < fields@.len() ==> #[trigger] fv[k] == (fields@[k].0@, value_view(fields@[k].1)),
            field_value(fv, "message"@, 0) == field_value(fv, "message"@, i as int),
        decreases fields@.len() - i,
    {
        if str_eq(fields[i].0.as_str(), "message") {
            assert(fv[i as int] == (fields@[i as int].0@, value_view(fields@[i as int].1)));
            proof { lemma_vtext(fields@[i as int].1, false); }
            return display(&fields[i].1);
        }
        i = i + 1;
    }
    String::from_str("failure")
}

/// Strings order lexicographically by code point: when `a` and `b` agree on
/// their first `k` characters and then `a` ends while `b` goes on, or `a`'s
/// next character has the smaller code point, `a` orders before `b` and `b`
/// after `a`.
pub proof fn law_text_order_lexicographic(a: Seq<char>, b: Seq<char>, k: nat)
    requires
        k <= a.len(),
        k <= b.len(),
        a.take(k as int) == b.take(k as int),
        (k == a.len() && k < b.len()) || (k < a.len() && k < b.len() && (a[k as int] as u32) < (b[k as int] as u32)),
    ensures
        text_order(a, b) == -1,
        text_order(b, a) == 1,
    decreases k,
{
    if k > 0 {
        assert(a[0] == a.take(k as int)[0]);
        assert(b[0] == b.take(k as int)[0]);
        assert(a.drop_first().take(k - 1) =~= a.take(k as int).drop_first());
        assert(b.drop_first().take(k - 1) =~= b.take(k as int).drop_first());
        if k < a.len() {
            assert(a.drop_first()[k - 1] == a[k as int]);
        }
        if k < b.len() {
            assert(b.drop_first()[k - 1] == b[k as int]);
        }
        law_text_order_lexicographic(a.drop_first(), b.drop_first(), (k - 1) as nat);
    }
}

/// A string orders as equal to itself.
pub proof fn law_text_order_reflexive(a: Seq<char>)
    ensures
        text_order(a, a) == 0,
    decreases a.len(),
{
    if a.len() > 0 {
        law_text_order_reflexive(a.drop_first());
    }
}

/// Swapping the two strings reverses their order.
pub proof fn law_text_order_antisymmetric(a: Seq<char>, b: Seq<char>)
    ensures
        text_order(a, b) == -text_order(b, a),
        -1 <= text_order(a, b) <= 1,
    decreases a.len(),
{
    if a.len() > 0 && b.len() > 0 {
        law_text_order_antisymmetric(a.drop_first(), b.drop_first());
    }
}

/// Comparing two integers gives what mathematics says.
pub proof fn law_int_comparisons(s: StV, a: i64, b: i64, span: Span)
    ensures
        binary_spec(s, BinaryOp::Lt, ValueV::Int(a), ValueV::Int(b), span) == (s, Ok::<ValueV, StopV>(ValueV::Bool(a < b))),
        binary_spec(s, BinaryOp::Le, ValueV::Int(a), ValueV::Int(b), span) == (s, Ok::<ValueV, StopV>(ValueV::Bool(a <= b))),
        binary_spec(s, BinaryOp::Gt, ValueV::Int(a), ValueV::Int(b), span) == (s, Ok::<ValueV, StopV>(ValueV::Bool(a > b))),
        binary_spec(s, BinaryOp::Ge, ValueV::Int(a), ValueV::Int(b), span) == (s, Ok::<ValueV, StopV>(ValueV::Bool(a >= b))),
        binary_spec(s, BinaryOp::Eq, ValueV::Int(a), ValueV::Int(b), span) == (s, Ok::<ValueV, StopV>(ValueV::Bool(a == b))),
        binary_spec(s, BinaryOp::NotEq, ValueV::Int(a), ValueV::Int(b), span) == (s, Ok::<ValueV, StopV>(ValueV::Bool(a != b))),
{
    lemma_some_value(Value::Int(a));
    lemma_some_value(Value::Int(b));
    let x = some_value(ValueV::Int(a));
    let y = some_value(ValueV::Int(b));
    assert(x matches Value::Int(_));
    assert(y matches Value::Int(_));
}

/// A string that comes first in lexicographic order compares as less: when
/// `a` and `b` agree on their first `k` characters and then `a` ends or has
/// the smaller code point, `a < b` and `a <= b` hold and `a > b`, `a >= b`
/// do not.
pub proof fn law_str_comparisons_lexicographic(s: StV, a: Seq<char>, b: Seq<char>, k: nat, span: Span)
    requires
        k <= a.len(),
        k <= b.len(),
        a.take(k as int) == b.take(k as int),
        (k == a.len() && k < b.len()) || (k < a.len() && k < b.len() && (a[k as int] as u32) < (b[k as int] as u32)),
    ensures
        binary_spec(s, BinaryOp::Lt, ValueV::Str(a), ValueV::Str(b), span) == (s, Ok::<ValueV, StopV>(ValueV::Bool(true))),
        binary_spec(s, BinaryOp::Le, ValueV::Str(a), ValueV::Str(b), span) == (s, Ok::<ValueV, StopV>(ValueV::Bool(true))),
        binary_spec(s, BinaryOp::Gt, ValueV::Str(a), ValueV::Str(b), span) == (s, Ok::<ValueV, StopV>(ValueV::Bool(false))),
        binary_spec(s, BinaryOp::Ge, ValueV::Str(a), ValueV::Str(b), span) == (s, Ok::<ValueV, StopV>(ValueV::Bool(false))),
        binary_spec(s, BinaryOp::Gt, ValueV::Str(b), ValueV::Str(a), span) == (s, Ok::<ValueV, StopV>(ValueV::Bool(true))),
{
    law_text_order_lexicographic(a, b, k);
}

/// `+` joins strings and lists end to end.
pub proof fn law_add_joins(s: StV, a: Seq<char>, b: Seq<char>, xs: Seq<ValueV>, ys: Seq<ValueV>, span: Span)
    ensures
        ({
            let (s1, r) = binary_spec(s, BinaryOp::Add, ValueV::Str(a), ValueV::Str(b), span);
            &&& s1 == s
            &&& r matches Ok(ValueV::Str(t))
            &&& r->Ok_0->Str_0.len() == a.len() + b.len()
            &&& r->Ok_0->Str_0.take(a.len() as int) == a
            &&& r->Ok_0->Str_0.skip(a.len() as int) == b
        }),
        ({
            let (s1, r) = binary_spec(s, BinaryOp::Add, ValueV::List(xs), ValueV::List(ys), span);
            &&& s1 == s
            &&& r matches Ok(ValueV::List(zs))
            &&& r->Ok_0->List_0.len() == xs.len() + ys.len()
            &&& r->Ok_0->List_0.take(xs.len() as int) == xs
            &&& r->Ok_0->List_0.skip(xs.len() as int) == ys
        }),
{
    assert((a + b).take(a.len() as int) =~= a);
    assert((a + b).skip(a.len() as int) =~= b);
    assert((xs + ys).take(xs.len() as int) =~= xs);
    assert((xs + ys).skip(xs.len() as int) =~= ys);
}

/// `-` negates an integer and `not` a boolean.
pub proof fn law_unary(s: StV, x: i64, c: bool, span: Span)
    requires
        x != i64::MIN,
    ensures
        unary_spec(s, UnaryOp::Neg, ValueV::Int(x), span) == (s, Ok::<ValueV, StopV>(ValueV::Int((-x) as i64))),
        (-x) as i64 + x == 0,
        unary_spec(s, UnaryOp::Not, ValueV::Bool(c), span) == (s, Ok::<ValueV, StopV>(ValueV::Bool(!c))),
{
}

/// Indexing a list gives the element at that position, counting from the
/// end for a negative index, and fails outside the list.
pub proof fn law_list_index(xs: Seq<ValueV>, k: i64, span: Span)
    ensures
        0 <= k < xs.len() ==> index_spec(ValueV::List(xs), ValueV::Int(k), span) == Ok::<ValueV, StopV>(xs[k as int]),
        -xs.len() <= k < 0 ==> index_spec(ValueV::List(xs), ValueV::Int(k), span) == Ok::<ValueV, StopV>(xs[xs.len() + k]),
        (k >= xs.len() || k < -xs.len()) ==> index_spec(ValueV::List(xs), ValueV::Int(k), span) is Err,
{
}

/// The runtime agrees with the type checker on arithmetic: whenever
/// `+ - * / %` on two numbers gives a value, its type is the one the
/// checker gives the expression (`Float` when either side is a `Float`).
pub proof fn law_arith_matches_checker(s: StV, c: crate::sema::model::CheckerV, op: BinaryOp, a: Value, b: Value, span: Span)
    requires
        a is Int || a is Float,
        b is Int || b is Float,
        op is Add || op is Sub || op is Mul || op is Div || op is Rem,
    ensures
        arith_spec(s, op, a@, b@, span).1 matches Ok(v)
            ==> vty(v) == crate::sema::model::numeric_spec(c, value_ty(a), value_ty(b), span).1,
{
    lemma_vtext(a, false);
    lemma_vtext(b, false);
    let r = arith_spec(s, op, a@, b@, span).1;
    if a is Float || b is Float {
        let (s1, ans) = ask(s, FloatOp { kind: FloatKind::Arith(op), a: num_of(a@)->Some_0, b: num_of(b@)->Some_0 });
        match ans {
            Ok(FloatAnswer::Float(f)) => { lemma_vtext(Value::Float(f), false); },
            _ => {},
        }
    } else {
        match r {
            Ok(ValueV::Int(x)) => { lemma_vtext(Value::Int(x), false); },
            _ => {},
        }
    }
}

/// The runtime agrees with the type checker on comparisons: whenever
/// comparing two values gives a result, it is a `Bool`, the type the
/// checker gives every comparison.
pub proof fn law_comparison_matches_checker(s: StV, c: crate::sema::model::CheckerV, op: BinaryOp, a: Value, b: Value, span: Span)
    requires
        op is Lt || op is Le || op is Gt || op is Ge || op is Eq || op is NotEq,
    ensures
        binary_spec(s, op, a@, b@, span).1 matches Ok(v)
            ==> vty(v) == crate::sema::model::binary_spec(c, op, value_ty(a), value_ty(b), span).1,
{
    let r = binary_spec(s, op, a@, b@, span).1;
    match r {
        Ok(ValueV::Bool(x)) => { lemma_vtext(Value::Bool(x), false); },
        _ => {},
    }
}

} // verus!
