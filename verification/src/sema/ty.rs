//! The type model.
//!
//! Only what the runtime can represent: primitives, `List`, `Map`, tuples,
//! optionals, `Result`, functions and user types (`data`/`enum`). `Py` exists
//! because the parser accepts the annotation, but no `Py` value can ever be
//! produced.

use vstd::prelude::*;
use crate::ast::types::{Type as AstType, TypeKind};
use crate::span::Span;
use crate::text::{push_str_debug, str_debug_spec, str_eq};

verus! {

/// A resolved type.
#[derive(PartialEq, Debug)]
pub enum Ty {
    /// `Int`
    Int,
    /// `Float`
    Float,
    /// `Bool`
    Bool,
    /// `Str`
    Str,
    /// `()` — Unit.
    Unit,
    /// `List<T>`
    List(Box<Ty>),
    /// `Map<K, V>`
    MapOf(Box<Ty>, Box<Ty>),
    /// `(A, B, …)` — a tuple of two or more.
    Tuple(Vec<Ty>),
    /// `T?` — an optional.
    Optional(Box<Ty>),
    /// `Result<T, Failure>`.
    Result(Box<Ty>),
    /// `fn(A) -> B`.
    Fn { params: Vec<Ty>, ret: Box<Ty> },
    /// A user type declared with `data`.
    Data(String),
    /// A user type declared with `enum`.
    Enum(String),
    /// `Py` — parsed but unimplemented.
    Py,
    /// The type of an expression that already failed to check.
    ///
    /// Its only purpose is to stop a single mistake from producing a cascade:
    /// `Unknown` is compatible with everything.
    Unknown,
}

/// The mathematical model of a [`Ty`].
pub enum TyV {
    Int,
    Float,
    Bool,
    Str,
    Unit,
    List(Box<TyV>),
    MapOf(Box<TyV>, Box<TyV>),
    Tuple(Seq<TyV>),
    Optional(Box<TyV>),
    Result(Box<TyV>),
    Fn(Seq<TyV>, Box<TyV>),
    Data(Seq<char>),
    Enum(Seq<char>),
    Py,
    Unknown,
}

pub open spec fn tys_view(ts: Seq<Ty>) -> Seq<TyV>
    decreases ts,
{
    if ts.len() == 0 {
        Seq::empty()
    } else {
        tys_view(ts.drop_last()).push(ty_view(ts.last()))
    }
}

pub open spec fn ty_view(t: Ty) -> TyV
    decreases t,
{
    match t {
        Ty::Int => TyV::Int,
        Ty::Float => TyV::Float,
        Ty::Bool => TyV::Bool,
        Ty::Str => TyV::Str,
        Ty::Unit => TyV::Unit,
        Ty::List(e) => TyV::List(Box::new(ty_view(*e))),
        Ty::MapOf(k, v) => TyV::MapOf(Box::new(ty_view(*k)), Box::new(ty_view(*v))),
        Ty::Tuple(es) => TyV::Tuple(tys_view(es@)),
        Ty::Optional(i) => TyV::Optional(Box::new(ty_view(*i))),
        Ty::Result(o) => TyV::Result(Box::new(ty_view(*o))),
        Ty::Fn { params, ret } => TyV::Fn(tys_view(params@), Box::new(ty_view(*ret))),
        Ty::Data(n) => TyV::Data(n@),
        Ty::Enum(n) => TyV::Enum(n@),
        Ty::Py => TyV::Py,
        Ty::Unknown => TyV::Unknown,
    }
}

impl View for Ty {
    type V = TyV;

    open spec fn view(&self) -> TyV {
        ty_view(*self)
    }
}

pub proof fn lemma_tys_view_len(ts: Seq<Ty>)
    ensures
        tys_view(ts).len() == ts.len(),
    decreases ts.len(),
{
    if ts.len() > 0 {
        lemma_tys_view_len(ts.drop_last());
    }
}

pub proof fn lemma_tys_view_index(ts: Seq<Ty>, i: int)
    requires
        0 <= i < ts.len(),
    ensures
        tys_view(ts)[i] == ty_view(ts[i]),
        tys_view(ts).len() == ts.len(),
    decreases ts.len(),
{
    lemma_tys_view_len(ts);
    if i < ts.len() - 1 {
        lemma_tys_view_index(ts.drop_last(), i);
    }
}

pub proof fn lemma_tys_view_take(ts: Seq<Ty>, i: int)
    requires
        0 <= i <= ts.len(),
    ensures
        tys_view(ts.take(i)) == tys_view(ts).take(i),
    decreases ts.len(),
{
    lemma_tys_view_len(ts);
    lemma_tys_view_len(ts.take(i));
    if i < ts.len() {
        assert(ts.drop_last().take(i) =~= ts.take(i));
        lemma_tys_view_take(ts.drop_last(), i);
        assert(tys_view(ts).drop_last() == tys_view(ts.drop_last()));
        assert(tys_view(ts).take(i) =~= tys_view(ts).drop_last().take(i));
    } else {
        assert(ts.take(i) =~= ts);
        assert(tys_view(ts).take(i) =~= tys_view(ts));
    }
}

pub proof fn lemma_tys_view_push(ts: Seq<Ty>, t: Ty)
    ensures
        tys_view(ts.push(t)) == tys_view(ts).push(ty_view(t)),
{
    assert(ts.push(t).drop_last() =~= ts);
}

// --- Names ------------------------------------------------------------------------

/// The spellings of `ts` joined by `, `.
pub open spec fn names_of(ts: Seq<TyV>) -> Seq<char>
    decreases ts,
{
    if ts.len() == 0 {
        Seq::empty()
    } else if ts.len() == 1 {
        ty_name(ts[0])
    } else {
        names_of(ts.drop_last()) + ", "@ + ty_name(ts.last())
    }
}

/// The human-readable name of a type, as diagnostics print it.
pub open spec fn ty_name(t: TyV) -> Seq<char>
    decreases t,
{
    match t {
        TyV::Int => "Int"@,
        TyV::Float => "Float"@,
        TyV::Bool => "Bool"@,
        TyV::Str => "Str"@,
        TyV::Unit => "()"@,
        TyV::List(e) => "List<"@ + ty_name(*e) + ">"@,
        TyV::MapOf(k, v) => "Map<"@ + ty_name(*k) + ", "@ + ty_name(*v) + ">"@,
        TyV::Tuple(es) => "("@ + names_of(es) + ")"@,
        TyV::Optional(i) => ty_name(*i) + "?"@,
        TyV::Result(o) => "Result<"@ + ty_name(*o) + ", Failure>"@,
        TyV::Fn(ps, r) => "fn("@ + names_of(ps) + ") -> "@ + ty_name(*r),
        TyV::Data(n) => n,
        TyV::Enum(n) => n,
        TyV::Py => "Py"@,
        TyV::Unknown => "?"@,
    }
}

/// The `Debug` forms of `ts` joined by `, `.
pub open spec fn debugs_of(ts: Seq<TyV>) -> Seq<char>
    decreases ts,
{
    if ts.len() == 0 {
        Seq::empty()
    } else if ts.len() == 1 {
        ty_debug(ts[0])
    } else {
        debugs_of(ts.drop_last()) + ", "@ + ty_debug(ts.last())
    }
}

/// The internal (`Debug`) form of a type, which tells apart types whose
/// names print the same (a `data` and an `enum` both called `Shape`).
pub open spec fn ty_debug(t: TyV) -> Seq<char>
    decreases t,
{
    match t {
        TyV::Int => "Int"@,
        TyV::Float => "Float"@,
        TyV::Bool => "Bool"@,
        TyV::Str => "Str"@,
        TyV::Unit => "Unit"@,
        TyV::List(e) => "List("@ + ty_debug(*e) + ")"@,
        TyV::MapOf(k, v) => "Map("@ + ty_debug(*k) + ", "@ + ty_debug(*v) + ")"@,
        TyV::Tuple(es) => "Tuple(["@ + debugs_of(es) + "])"@,
        TyV::Optional(i) => "Optional("@ + ty_debug(*i) + ")"@,
        TyV::Result(o) => "Result("@ + ty_debug(*o) + ")"@,
        TyV::Fn(ps, r) => "Fn { params: ["@ + debugs_of(ps) + "], ret: "@ + ty_debug(*r) + " }"@,
        TyV::Data(n) => "Data("@ + str_debug_spec(n) + ")"@,
        TyV::Enum(n) => "Enum("@ + str_debug_spec(n) + ")"@,
        TyV::Py => "Py"@,
        TyV::Unknown => "Unknown"@,
    }
}

impl Ty {
    /// Whether this type is [`Ty::Unknown`].
    pub fn is_unknown(&self) -> (b: bool)
        ensures
            b == (self@ is Unknown),
    {
        match self {
            Ty::Unknown => true,
            _ => false,
        }
    }

    /// Whether a value of this type may be used as `Bool` (there is no
    /// truthiness).
    pub fn is_bool(&self) -> (b: bool)
        ensures
            b == (self@ is Bool),
    {
        match self {
            Ty::Bool => true,
            _ => false,
        }
    }

    /// Whether this is a numeric type (`Int` or `Float`).
    pub fn is_numeric(&self) -> (b: bool)
        ensures
            b == (self@ is Int || self@ is Float),
    {
        match self {
            Ty::Int | Ty::Float => true,
            _ => false,
        }
    }

    /// A copy of this type.
    pub fn duplicate(&self) -> (t: Ty)
        ensures
            t@ == self@,
        decreases *self,
    {
        match self {
            Ty::Int => Ty::Int,
            Ty::Float => Ty::Float,
            Ty::Bool => Ty::Bool,
            Ty::Str => Ty::Str,
            Ty::Unit => Ty::Unit,
            Ty::List(e) => Ty::List(Box::new(e.duplicate())),
            Ty::MapOf(k, v) => Ty::MapOf(Box::new(k.duplicate()), Box::new(v.duplicate())),
            Ty::Tuple(es) => Ty::Tuple(duplicate_all(es)),
            Ty::Optional(i) => Ty::Optional(Box::new(i.duplicate())),
            Ty::Result(o) => Ty::Result(Box::new(o.duplicate())),
            Ty::Fn { params, ret } => Ty::Fn { params: duplicate_all(params), ret: Box::new(ret.duplicate()) },
            Ty::Data(n) => Ty::Data(n.clone()),
            Ty::Enum(n) => Ty::Enum(n.clone()),
            Ty::Py => Ty::Py,
            Ty::Unknown => Ty::Unknown,
        }
    }

    /// A human-readable name, for diagnostics.
    pub fn name(&self) -> (s: String)
        ensures
            s@ == ty_name(self@),
    {
        let mut s = String::new();
        push_name(&mut s, self);
        assert(s@ =~= ty_name(self@));
        s
    }
}

/// Copies of every type in `ts`.
pub fn duplicate_all(ts: &Vec<Ty>) -> (r: Vec<Ty>)
    ensures
        tys_view(r@) == tys_view(ts@),
    decreases ts@,
{
    let mut r: Vec<Ty> = Vec::new();
    let mut i: usize = 0;
    while i < ts.len()
        invariant
            i <= ts@.len(),
            tys_view(r@) == tys_view(ts@.take(i as int)),
        decreases ts@.len() - i,
    {
        proof {
            assert(decreases_to!(ts@ => ts@[i as int]));
        }
        let t = ts[i].duplicate();
        let ghost r0 = r@;
        r.push(t);
        proof {
            lemma_tys_view_push(r0, t);
            let k = ts@.take(i + 1);
            assert(k.drop_last() =~= ts@.take(i as int));
            assert(k.last() == ts@[i as int]);
        }
        i = i + 1;
    }
    assert(ts@.take(i as int) =~= ts@);
    r
}

/// Whether two types are the same.
pub fn ty_eq(a: &Ty, b: &Ty) -> (r: bool)
    ensures
        r == (a@ == b@),
    decreases *a,
{
    match (a, b) {
        (Ty::Int, Ty::Int) => true,
        (Ty::Float, Ty::Float) => true,
        (Ty::Bool, Ty::Bool) => true,
        (Ty::Str, Ty::Str) => true,
        (Ty::Unit, Ty::Unit) => true,
        (Ty::List(x), Ty::List(y)) => ty_eq(x, y),
        (Ty::MapOf(k1, v1), Ty::MapOf(k2, v2)) => ty_eq(k1, k2) && ty_eq(v1, v2),
        (Ty::Tuple(xs), Ty::Tuple(ys)) => tys_eq(xs, ys),
        (Ty::Optional(x), Ty::Optional(y)) => ty_eq(x, y),
        (Ty::Result(x), Ty::Result(y)) => ty_eq(x, y),
        (Ty::Fn { params: p1, ret: r1 }, Ty::Fn { params: p2, ret: r2 }) => tys_eq(p1, p2) && ty_eq(r1, r2),
        (Ty::Data(x), Ty::Data(y)) => str_eq(x.as_str(), y.as_str()),
        (Ty::Enum(x), Ty::Enum(y)) => str_eq(x.as_str(), y.as_str()),
        (Ty::Py, Ty::Py) => true,
        (Ty::Unknown, Ty::Unknown) => true,
        _ => false,
    }
}

/// Whether two lists of types are the same.
pub fn tys_eq(xs: &Vec<Ty>, ys: &Vec<Ty>) -> (r: bool)
    ensures
        r == (tys_view(xs@) == tys_view(ys@)),
    decreases xs@,
{
    proof {
        lemma_tys_view_len(xs@);
        lemma_tys_view_len(ys@);
    }
    if xs.len() != ys.len() {
        return false;
    }
    let mut i: usize = 0;
    while i < xs.len()
        invariant
            i <= xs@.len(),
            xs@.len() == ys@.len(),
            tys_view(xs@).len() == xs@.len(),
            tys_view(ys@).len() == ys@.len(),
            forall|k: int| 0 <= k < i ==> tys_view(xs@)[k] == tys_view(ys@)[k],
        decreases xs@.len() - i,
    {
        proof {
            assert(decreases_to!(xs@ => xs@[i as int]));
            lemma_tys_view_index(xs@, i as int);
            lemma_tys_view_index(ys@, i as int);
        }
        if !ty_eq(&xs[i], &ys[i]) {
            return false;
        }
        i = i + 1;
    }
    assert(tys_view(xs@) =~= tys_view(ys@));
    true
}

fn push_names(out: &mut String, ts: &Vec<Ty>)
    ensures
        final(out)@ == old(out)@ + names_of(tys_view(ts@)),
    decreases ts@,
{
    let ghost base = out@;
    let mut i: usize = 0;
    while i < ts.len()
        invariant
            i <= ts@.len(),
            out@ == base + names_of(tys_view(ts@.take(i as int))),
        decreases ts@.len() - i,
    {
        if i > 0 {
            out.append(", ");
        }
        proof {
            assert(decreases_to!(ts@ => ts@[i as int]));
        }
        push_name(out, &ts[i]);
        proof {
            let k = ts@.take(i + 1);
            assert(k.drop_last() =~= ts@.take(i as int));
            lemma_tys_view_push(ts@.take(i as int), ts@[i as int]);
            assert(k =~= ts@.take(i as int).push(ts@[i as int]));
            lemma_tys_view_len(ts@.take(i as int));
            let sv = tys_view(ts@.take(i as int));
            assert(tys_view(k).drop_last() =~= sv);
            assert(tys_view(k).last() == ty_view(ts@[i as int]));
            if i == 0 {
                assert(tys_view(k).len() == 1);
                assert(tys_view(k)[0] == ty_view(ts@[i as int]));
            }
            assert(out@ =~= base + names_of(tys_view(k)));
        }
        i = i + 1;
    }
    assert(ts@.take(i as int) =~= ts@);
}

/// Appends the name of `t`.
pub fn push_name(out: &mut String, t: &Ty)
    ensures
        final(out)@ == old(out)@ + ty_name(t@),
    decreases *t,
{
    let ghost before = out@;
    match t {
        Ty::Int => out.append("Int"),
        Ty::Float => out.append("Float"),
        Ty::Bool => out.append("Bool"),
        Ty::Str => out.append("Str"),
        Ty::Unit => out.append("()"),
        Ty::List(e) => {
            out.append("List<");
            push_name(out, e);
            out.append(">");
        },
        Ty::MapOf(k, v) => {
            out.append("Map<");
            push_name(out, k);
            out.append(", ");
            push_name(out, v);
            out.append(">");
        },
        Ty::Tuple(es) => {
            out.append("(");
            push_names(out, es);
            out.append(")");
        },
        Ty::Optional(i) => {
            push_name(out, i);
            out.append("?");
        },
        Ty::Result(o) => {
            out.append("Result<");
            push_name(out, o);
            out.append(", Failure>");
        },
        Ty::Fn { params, ret } => {
            out.append("fn(");
            push_names(out, params);
            out.append(") -> ");
            push_name(out, ret);
        },
        Ty::Data(n) => out.append(n.as_str()),
        Ty::Enum(n) => out.append(n.as_str()),
        Ty::Py => out.append("Py"),
        Ty::Unknown => out.append("?"),
    }
    assert(out@ =~= before + ty_name(t@));
}

fn push_debugs(out: &mut String, ts: &Vec<Ty>)
    ensures
        final(out)@ == old(out)@ + debugs_of(tys_view(ts@)),
    decreases ts@,
{
    let ghost base = out@;
    let mut i: usize = 0;
    while i < ts.len()
        invariant
            i <= ts@.len(),
            out@ == base + debugs_of(tys_view(ts@.take(i as int))),
        decreases ts@.len() - i,
    {
        if i > 0 {
            out.append(", ");
        }
        proof {
            assert(decreases_to!(ts@ => ts@[i as int]));
        }
        push_debug(out, &ts[i]);
        proof {
            let k = ts@.take(i + 1);
            assert(k.drop_last() =~= ts@.take(i as int));
            lemma_tys_view_push(ts@.take(i as int), ts@[i as int]);
            assert(k =~= ts@.take(i as int).push(ts@[i as int]));
            lemma_tys_view_len(ts@.take(i as int));
            let sv = tys_view(ts@.take(i as int));
            assert(tys_view(k).drop_last() =~= sv);
            assert(tys_view(k).last() == ty_view(ts@[i as int]));
            if i == 0 {
                assert(tys_view(k).len() == 1);
                assert(tys_view(k)[0] == ty_view(ts@[i as int]));
            }
            assert(out@ =~= base + debugs_of(tys_view(k)));
        }
        i = i + 1;
    }
    assert(ts@.take(i as int) =~= ts@);
}

/// Appends the internal form of `t`.
pub fn push_debug(out: &mut String, t: &Ty)
    ensures
        final(out)@ == old(out)@ + ty_debug(t@),
    decreases *t,
{
    let ghost before = out@;
    match t {
        Ty::Int => out.append("Int"),
        Ty::Float => out.append("Float"),
        Ty::Bool => out.append("Bool"),
        Ty::Str => out.append("Str"),
        Ty::Unit => out.append("Unit"),
        Ty::List(e) => {
            out.append("List(");
            push_debug(out, e);
            out.append(")");
        },
        Ty::MapOf(k, v) => {
            out.append("Map(");
            push_debug(out, k);
            out.append(", ");
            push_debug(out, v);
            out.append(")");
        },
        Ty::Tuple(es) => {
            out.append("Tuple([");
            push_debugs(out, es);
            out.append("])");
        },
        Ty::Optional(i) => {
            out.append("Optional(");
            push_debug(out, i);
            out.append(")");
        },
        Ty::Result(o) => {
            out.append("Result(");
            push_debug(out, o);
            out.append(")");
        },
        Ty::Fn { params, ret } => {
            out.append("Fn { params: [");
            push_debugs(out, params);
            out.append("], ret: ");
            push_debug(out, ret);
            out.append(" }");
        },
        Ty::Data(n) => {
            out.append("Data(");
            push_str_debug(out, n.as_str());
            out.append(")");
        },
        Ty::Enum(n) => {
            out.append("Enum(");
            push_str_debug(out, n.as_str());
            out.append(")");
        },
        Ty::Py => out.append("Py"),
        Ty::Unknown => out.append("Unknown"),
    }
    assert(out@ =~= before + ty_debug(t@));
}

// --- Resolving annotations -------------------------------------------------------

/// A problem found while resolving a type annotation.
#[derive(Clone, PartialEq, Eq, Debug)]
pub enum TypeProblem {
    /// A builtin was given the wrong number of type arguments.
    WrongArity { name: String, expected: usize, found: usize, span: Span },
    /// A tuple with fewer than two elements.
    TupleTooShort,
    /// Generic user types are not supported.
    GenericsUnsupported { span: Span },
}

/// The model of a [`TypeProblem`].
pub enum ProblemV {
    WrongArity(Seq<char>, nat, nat, Span),
    TupleTooShort,
    GenericsUnsupported(Span),
}

impl View for TypeProblem {
    type V = ProblemV;

    open spec fn view(&self) -> ProblemV {
        match self {
            TypeProblem::WrongArity { name, expected, found, span } =>
                ProblemV::WrongArity(name@, *expected as nat, *found as nat, *span),
            TypeProblem::TupleTooShort => ProblemV::TupleTooShort,
            TypeProblem::GenericsUnsupported { span } => ProblemV::GenericsUnsupported(*span),
        }
    }
}

/// The model of a resolution result.
pub open spec fn resolved_view(r: Result<Ty, TypeProblem>) -> Result<TyV, ProblemV> {
    match r {
        Ok(t) => Ok(t@),
        Err(p) => Err(p@),
    }
}

/// Resolving each annotation in order; the first problem wins.
pub open spec fn resolve_all_spec(ts: Seq<AstType>) -> Result<Seq<TyV>, ProblemV>
    decreases ts,
{
    if ts.len() == 0 {
        Ok(Seq::empty())
    } else {
        match resolve_all_spec(ts.drop_last()) {
            Err(p) => Err(p),
            Ok(vs) => match resolve_spec(ts.last()) {
                Err(p) => Err(p),
                Ok(v) => Ok(vs.push(v)),
            },
        }
    }
}

/// Whether `name` is a builtin that takes no type argument.
pub open spec fn is_plain_builtin(name: Seq<char>) -> bool {
    name == "Int"@ || name == "Float"@ || name == "Bool"@ || name == "Str"@ || name == "Py"@ || name == "Failure"@
}

/// Resolving a named type with its arguments, checking generic arity.
///
/// A user type's name is carried through as `Data(name)`; the checker later
/// tells `data` and `enum` apart.
pub open spec fn resolve_named_spec(name: Seq<char>, args: Seq<AstType>, span: Span) -> Result<TyV, ProblemV>
    decreases args,
{
    let n = args.len();
    if name == "Int"@ && n == 0 {
        Ok(TyV::Int)
    } else if name == "Float"@ && n == 0 {
        Ok(TyV::Float)
    } else if name == "Bool"@ && n == 0 {
        Ok(TyV::Bool)
    } else if name == "Str"@ && n == 0 {
        Ok(TyV::Str)
    } else if name == "Py"@ && n == 0 {
        Ok(TyV::Py)
    } else if name == "Failure"@ && n == 0 {
        Ok(TyV::Data("Failure"@))
    } else if name == "List"@ && n == 1 {
        match resolve_spec(args[0]) {
            Ok(e) => Ok(TyV::List(Box::new(e))),
            Err(p) => Err(p),
        }
    } else if name == "Map"@ && n == 2 {
        match resolve_spec(args[0]) {
            Err(p) => Err(p),
            Ok(k) => match resolve_spec(args[1]) {
                Err(p) => Err(p),
                Ok(v) => Ok(TyV::MapOf(Box::new(k), Box::new(v))),
            },
        }
    } else if name == "Result"@ && n == 1 {
        match resolve_spec(args[0]) {
            Ok(o) => Ok(TyV::Result(Box::new(o))),
            Err(p) => Err(p),
        }
    } else if is_plain_builtin(name) {
        Err(ProblemV::WrongArity(name, 0, n, span))
    } else if name == "List"@ || name == "Result"@ {
        Err(ProblemV::WrongArity(name, 1, n, span))
    } else if name == "Map"@ {
        Err(ProblemV::WrongArity(name, 2, n, span))
    } else if n == 0 {
        Ok(TyV::Data(name))
    } else {
        Err(ProblemV::GenericsUnsupported(span))
    }
}

/// What resolving an annotation gives.
pub open spec fn resolve_spec(t: AstType) -> Result<TyV, ProblemV>
    decreases t,
{
    match t.kind {
        TypeKind::Py => Ok(TyV::Py),
        TypeKind::Unit => Ok(TyV::Unit),
        TypeKind::Optional(inner) => match resolve_spec(*inner) {
            Ok(i) => Ok(TyV::Optional(Box::new(i))),
            Err(p) => Err(p),
        },
        TypeKind::Tuple(elements) => match resolve_all_spec(elements@) {
            Err(p) => Err(p),
            Ok(vs) => if vs.len() < 2 { Err(ProblemV::TupleTooShort) } else { Ok(TyV::Tuple(vs)) },
        },
        TypeKind::Fn { params, ret } => match resolve_all_spec(params@) {
            Err(p) => Err(p),
            Ok(ps) => match resolve_spec(*ret) {
                Err(p) => Err(p),
                Ok(r) => Ok(TyV::Fn(ps, Box::new(r))),
            },
        },
        TypeKind::Named { name, args } => resolve_named_spec(name@, args@, t.span),
    }
}

fn resolve_all(ts: &Vec<AstType>) -> (r: Result<Vec<Ty>, TypeProblem>)
    ensures
        match (r, resolve_all_spec(ts@)) {
            (Ok(v), Ok(w)) => tys_view(v@) == w,
            (Err(p), Err(q)) => p@ == q,
            _ => false,
        },
    decreases ts@,
{
    let mut out: Vec<Ty> = Vec::new();
    let mut i: usize = 0;
    while i < ts.len()
        invariant
            i <= ts@.len(),
            resolve_all_spec(ts@.take(i as int)) == Ok::<Seq<TyV>, ProblemV>(tys_view(out@)),
        decreases ts@.len() - i,
    {
        proof {
            assert(decreases_to!(ts@ => ts@[i as int]));
        }
        let r = resolve_type(&ts[i]);
        proof {
            let k = ts@.take(i + 1);
            assert(k.drop_last() =~= ts@.take(i as int));
            assert(k.last() == ts@[i as int]);
        }
        match r {
            Ok(t) => {
                let ghost o0 = out@;
                out.push(t);
                proof {
                    lemma_tys_view_push(o0, t);
                }
            },
            Err(p) => {
                proof {
                    lemma_resolve_all_prefix_err(ts@, i as int + 1);
                }
                return Err(p);
            },
        }
        i = i + 1;
    }
    assert(ts@.take(i as int) =~= ts@);
    Ok(out)
}

/// Once a prefix fails to resolve, the whole list fails the same way.
proof fn lemma_resolve_all_prefix_err(ts: Seq<AstType>, k: int)
    requires
        0 <= k <= ts.len(),
        resolve_all_spec(ts.take(k)) is Err,
    ensures
        resolve_all_spec(ts) == resolve_all_spec(ts.take(k)),
    decreases ts.len() - k,
{
    if k < ts.len() {
        let k1 = ts.take(k + 1);
        assert(k1.drop_last() =~= ts.take(k));
        lemma_resolve_all_prefix_err(ts, k + 1);
    } else {
        assert(ts.take(k) =~= ts);
    }
}

/// Converts a parsed type annotation into a [`Ty`].
///
/// `List` and `Result` take one type argument, `Map` two, the other builtins
/// none; a tuple needs two elements or more; a user type takes none.
pub fn resolve_type(ast: &AstType) -> (r: Result<Ty, TypeProblem>)
    ensures
        resolved_view(r) == resolve_spec(*ast),
    decreases *ast,
{
    match &ast.kind {
        TypeKind::Py => Ok(Ty::Py),
        TypeKind::Unit => Ok(Ty::Unit),
        TypeKind::Optional(inner) => {
            match resolve_type(inner) {
                Ok(t) => Ok(Ty::Optional(Box::new(t))),
                Err(p) => Err(p),
            }
        },
        TypeKind::Tuple(elements) => {
            match resolve_all(elements) {
                Err(p) => Err(p),
                Ok(vs) => {
                    proof {
                        lemma_tys_view_len(vs@);
                    }
                    if vs.len() < 2 {
                        Err(TypeProblem::TupleTooShort)
                    } else {
                        Ok(Ty::Tuple(vs))
                    }
                },
            }
        },
        TypeKind::Fn { params, ret } => {
            match resolve_all(params) {
                Err(p) => Err(p),
                Ok(ps) => match resolve_type(ret) {
                    Err(p) => Err(p),
                    Ok(r) => Ok(Ty::Fn { params: ps, ret: Box::new(r) }),
                },
            }
        },
        TypeKind::Named { name, args } => resolve_named(name, args, ast.span),
    }
}

/// Resolves a named type, checking its generic arity.
fn resolve_named(name: &String, args: &Vec<AstType>, span: Span) -> (r: Result<Ty, TypeProblem>)
    ensures
        resolved_view(r) == resolve_named_spec(name@, args@, span),
    decreases args@,
{
    let n = args.len();
    let s = name.as_str();
    let is_int = str_eq(s, "Int");
    let is_float = str_eq(s, "Float");
    let is_bool = str_eq(s, "Bool");
    let is_str = str_eq(s, "Str");
    let is_py = str_eq(s, "Py");
    let is_failure = str_eq(s, "Failure");
    let is_list = str_eq(s, "List");
    let is_map = str_eq(s, "Map");
    let is_result = str_eq(s, "Result");
    if is_int && n == 0 {
        Ok(Ty::Int)
    } else if is_float && n == 0 {
        Ok(Ty::Float)
    } else if is_bool && n == 0 {
        Ok(Ty::Bool)
    } else if is_str && n == 0 {
        Ok(Ty::Str)
    } else if is_py && n == 0 {
        Ok(Ty::Py)
    } else if is_failure && n == 0 {
        Ok(Ty::Data(String::from_str("Failure")))
    } else if is_list && n == 1 {
        proof { assert(decreases_to!(args@ => args@[0])); }
        match resolve_type(&args[0]) {
            Ok(e) => Ok(Ty::List(Box::new(e))),
            Err(p) => Err(p),
        }
    } else if is_map && n == 2 {
        proof {
            assert(decreases_to!(args@ => args@[0]));
            assert(decreases_to!(args@ => args@[1]));
        }
        match resolve_type(&args[0]) {
            Err(p) => Err(p),
            Ok(k) => match resolve_type(&args[1]) {
                Err(p) => Err(p),
                Ok(v) => Ok(Ty::MapOf(Box::new(k), Box::new(v))),
            },
        }
    } else if is_result && n == 1 {
        proof { assert(decreases_to!(args@ => args@[0])); }
        match resolve_type(&args[0]) {
            Ok(o) => Ok(Ty::Result(Box::new(o))),
            Err(p) => Err(p),
        }
    } else if is_int || is_float || is_bool || is_str || is_py || is_failure {
        Err(TypeProblem::WrongArity { name: name.clone(), expected: 0, found: n, span })
    } else if is_list || is_result {
        Err(TypeProblem::WrongArity { name: name.clone(), expected: 1, found: n, span })
    } else if is_map {
        Err(TypeProblem::WrongArity { name: name.clone(), expected: 2, found: n, span })
    } else if n == 0 {
        Ok(Ty::Data(name.clone()))
    } else {
        Err(TypeProblem::GenericsUnsupported { span })
    }
}

} // verus!
