//! Runtime values and their structural equality.
//!
//! Values here have value semantics: an aggregate owns its elements. A
//! function value is a reference, told apart by its identity.

use vstd::prelude::*;
use crate::lexer::token::FloatValue;
use crate::runtime::failure::{Failure, failure_eq};
use crate::runtime::floats::{float_bits_eq, float_eq, int_equals_float, int_float_eq};
use crate::runtime::value::MapKey;
use crate::text::{int_text, push_i64, push_str_debug, str_debug_spec, str_eq};
use crate::runtime::failure::{render, render_spec, FailureKind};
use crate::runtime::floats::{exponent_field, float_integer, is_nan_bits, is_zero_bits};
use crate::runtime::value::key_text;
use crate::dump::{float_text_spec, has_point_or_exponent};
use crate::sema::ty::{Ty, TyV, lemma_tys_view_push, tys_view};

verus! {

/// A runtime value.
#[derive(Debug)]
pub enum Value {
    /// A 64-bit integer.
    Int(i64),
    /// A double, by its bits and std's `Display` spelling.
    Float(FloatValue),
    /// A boolean.
    Bool(bool),
    /// A string.
    Str(String),
    /// `()`
    Unit,
    /// A list.
    List(Vec<Value>),
    /// A map: its entries in insertion order, each key once.
    MapOf(Vec<(MapKey, Value)>),
    /// A tuple.
    Tuple(Vec<Value>),
    /// A `data` instance: the type name and its fields in declaration order.
    Data { name: String, fields: Vec<(String, Value)> },
    /// An `enum` value: the type name, the variant name and its payload.
    Variant { enum_name: String, variant: String, payload: Vec<Value> },
    /// `none` for an optional.
    NoneLit,
    /// A function value: its name and the identity of the function object.
    Function { name: String, id: u64 },
    /// An `Ok`/`Err` result.
    Result { ok: bool, value: Box<Value>, failure: Option<Failure> },
}

/// Whether two map keys are the same key.
pub open spec fn key_same(a: MapKey, b: MapKey) -> bool {
    match (a, b) {
        (MapKey::Int(x), MapKey::Int(y)) => x == y,
        (MapKey::Str(x), MapKey::Str(y)) => x@ == y@,
        (MapKey::Bool(x), MapKey::Bool(y)) => x == y,
        _ => false,
    }
}

/// The last index of `es` whose key is `key`.
pub open spec fn key_index(es: Seq<(MapKey, Value)>, key: MapKey) -> Option<int>
    decreases es.len(),
{
    if es.len() == 0 {
        None
    } else if key_same(es.last().0, key) {
        Some(es.len() - 1)
    } else {
        key_index(es.drop_last(), key)
    }
}

/// Structural equality (numbers compare by their mathematical value across
/// `Int` and `Float`; functions compare by identity).
pub open spec fn value_eq(a: Value, b: Value) -> bool
    decreases a,
{
    match a {
        Value::Int(x) => match b {
            Value::Int(y) => x == y,
            Value::Float(y) => int_float_eq(x, y.bits),
            _ => false,
        },
        Value::Float(x) => match b {
            Value::Float(y) => float_eq(x.bits, y.bits),
            Value::Int(y) => int_float_eq(y, x.bits),
            _ => false,
        },
        Value::Bool(x) => b matches Value::Bool(y) && x == y,
        Value::Str(x) => b matches Value::Str(y) && x@ == y@,
        Value::Unit => b is Unit,
        Value::NoneLit => b is NoneLit,
        Value::List(xs) => b matches Value::List(ys) && values_eq(xs@, ys@),
        Value::Tuple(xs) => b matches Value::Tuple(ys) && values_eq(xs@, ys@),
        Value::MapOf(es) => b matches Value::MapOf(fs) && es@.len() == fs@.len() && entries_in(es@, fs@),
        Value::Data { name, fields } => b matches Value::Data { name: n2, fields: f2 }
            && name@ == n2@ && fields_eq(fields@, f2@),
        Value::Variant { enum_name, variant, payload } => b matches Value::Variant {
            enum_name: e2, variant: v2, payload: p2 }
            && enum_name@ == e2@ && variant@ == v2@ && values_eq(payload@, p2@),
        Value::Function { id, .. } => b matches Value::Function { id: id2, .. } && id == id2,
        Value::Result { ok, value, failure } => b matches Value::Result { ok: ok2, value: value2, failure: failure2 }
            && ok == ok2 && value_eq(*value, *value2) && match (failure, failure2) {
                (Option::None, Option::None) => true,
                (Option::Some(f), Option::Some(g)) => failure_eq(f, g),
                _ => false,
            },
    }
}

/// Element-wise equality.
pub open spec fn values_eq(xs: Seq<Value>, ys: Seq<Value>) -> bool
    decreases xs,
{
    xs.len() == ys.len() && forall|k: int| 0 <= k < xs.len() ==> value_eq(#[trigger] xs[k], ys[k])
}

/// Field-wise equality: the same names in the same order, equal values.
pub open spec fn fields_eq(fs: Seq<(String, Value)>, gs: Seq<(String, Value)>) -> bool
    decreases fs,
{
    fs.len() == gs.len() && forall|k: int| 0 <= k < fs.len()
        ==> (#[trigger] fs[k]).0@ == gs[k].0@ && value_eq(fs[k].1, gs[k].1)
}

/// Every entry of `es` has its key in `other`, with an equal value.
pub open spec fn entries_in(es: Seq<(MapKey, Value)>, other: Seq<(MapKey, Value)>) -> bool
    decreases es,
{
    forall|k: int| 0 <= k < es.len() ==> match key_index(other, (#[trigger] es[k]).0) {
        Option::Some(j) => value_eq(es[k].1, other[j].1),
        Option::None => false,
    }
}

/// Whether two keys are the same key.
pub fn keys_same(a: &MapKey, b: &MapKey) -> (r: bool)
    ensures
        r == key_same(*a, *b),
{
    match (a, b) {
        (MapKey::Int(x), MapKey::Int(y)) => *x == *y,
        (MapKey::Str(x), MapKey::Str(y)) => str_eq(x.as_str(), y.as_str()),
        (MapKey::Bool(x), MapKey::Bool(y)) => *x == *y,
        _ => false,
    }
}

/// The last index of `es` whose key is `key`.
pub fn find_key(es: &Vec<(MapKey, Value)>, key: &MapKey) -> (r: Option<usize>)
    ensures
        match r {
            Option::Some(j) => key_index(es@, *key) == Some(j as int) && j < es@.len(),
            Option::None => key_index(es@, *key) is None,
        },
{
    let mut k = es.len();
    assert(es@.take(k as int) =~= es@);
    while k > 0
        invariant
            k <= es@.len(),
            key_index(es@, *key) == key_index(es@.take(k as int), *key),
        decreases k,
    {
        proof {
            let t = es@.take(k as int);
            assert(t.drop_last() =~= es@.take(k - 1));
            assert(t.last() == es@[k - 1]);
        }
        if keys_same(&es[k - 1].0, key) {
            return Some(k - 1);
        }
        k = k - 1;
    }
    None
}

impl Value {
    /// Structural equality.
    pub fn equals(&self, other: &Value) -> (b: bool)
        ensures
            b == value_eq(*self, *other),
        decreases *self,
    {
        match self {
            Value::Int(x) => match other {
                Value::Int(y) => *x == *y,
                Value::Float(y) => int_equals_float(*x, y.bits),
                _ => false,
            },
            Value::Float(x) => match other {
                Value::Float(y) => float_bits_eq(x.bits, y.bits),
                Value::Int(y) => int_equals_float(*y, x.bits),
                _ => false,
            },
            Value::Bool(x) => match other {
                Value::Bool(y) => *x == *y,
                _ => false,
            },
            Value::Str(x) => match other {
                Value::Str(y) => str_eq(x.as_str(), y.as_str()),
                _ => false,
            },
            Value::Unit => matches!(other, Value::Unit),
            Value::NoneLit => matches!(other, Value::NoneLit),
            Value::List(xs) => match other {
                Value::List(ys) => values_equal(xs, ys),
                _ => false,
            },
            Value::Tuple(xs) => match other {
                Value::Tuple(ys) => values_equal(xs, ys),
                _ => false,
            },
            Value::MapOf(es) => match other {
                Value::MapOf(fs) => es.len() == fs.len() && entries_found(es, fs),
                _ => false,
            },
            Value::Data { name, fields } => match other {
                Value::Data { name: n2, fields: f2 } => str_eq(name.as_str(), n2.as_str()) && fields_equal(fields, f2),
                _ => false,
            },
            Value::Variant { enum_name, variant, payload } => match other {
                Value::Variant { enum_name: e2, variant: v2, payload: p2 } =>
                    str_eq(enum_name.as_str(), e2.as_str()) && str_eq(variant.as_str(), v2.as_str())
                        && values_equal(payload, p2),
                _ => false,
            },
            Value::Function { id, .. } => match other {
                Value::Function { id: id2, .. } => *id == *id2,
                _ => false,
            },
            Value::Result { ok, value, failure } => match other {
                Value::Result { ok: ok2, value: value2, failure: failure2 } => {
                    if *ok != *ok2 {
                        return false;
                    }
                    let inner: &Value = value;
                    if !inner.equals(value2) {
                        return false;
                    }
                    match (failure, failure2) {
                        (Option::None, Option::None) => true,
                        (Option::Some(f), Option::Some(g)) => f.equals(g),
                        _ => false,
                    }
                },
                _ => false,
            },
        }
    }
}

/// Element-wise equality of two lists of values.
pub fn values_equal(xs: &Vec<Value>, ys: &Vec<Value>) -> (r: bool)
    ensures
        r == values_eq(xs@, ys@),
    decreases xs@,
{
    if xs.len() != ys.len() {
        return false;
    }
    let mut i: usize = 0;
    while i < xs.len()
        invariant
            i <= xs@.len(),
            xs@.len() == ys@.len(),
            forall|k: int| 0 <= k < i ==> value_eq(#[trigger] xs@[k], ys@[k]),
        decreases xs@.len() - i,
    {
        proof {
            assert(decreases_to!(xs@ => xs@[i as int]));
        }
        if !xs[i].equals(&ys[i]) {
            return false;
        }
        i = i + 1;
    }
    true
}

/// Field-wise equality of two `data` field lists.
pub fn fields_equal(fs: &Vec<(String, Value)>, gs: &Vec<(String, Value)>) -> (r: bool)
    ensures
        r == fields_eq(fs@, gs@),
    decreases fs@,
{
    if fs.len() != gs.len() {
        return false;
    }
    let mut i: usize = 0;
    while i < fs.len()
        invariant
            i <= fs@.len(),
            fs@.len() == gs@.len(),
            forall|k: int| 0 <= k < i ==> (#[trigger] fs@[k]).0@ == gs@[k].0@ && value_eq(fs@[k].1, gs@[k].1),
        decreases fs@.len() - i,
    {
        proof {
            assert(decreases_to!(fs@ => fs@[i as int]));
            assert(decreases_to!(fs@[i as int] => fs@[i as int].1));
        }
        if !str_eq(fs[i].0.as_str(), gs[i].0.as_str()) {
            return false;
        }
        if !fs[i].1.equals(&gs[i].1) {
            return false;
        }
        i = i + 1;
    }
    true
}

/// Whether every entry of `es` is found in `other` with an equal value.
pub fn entries_found(es: &Vec<(MapKey, Value)>, other: &Vec<(MapKey, Value)>) -> (r: bool)
    ensures
        r == entries_in(es@, other@),
    decreases es@,
{
    let mut i: usize = 0;
    while i < es.len()
        invariant
            i <= es@.len(),
            forall|k: int| 0 <= k < i ==> match key_index(other@, (#[trigger] es@[k]).0) {
                Option::Some(j) => value_eq(es@[k].1, other@[j].1),
                Option::None => false,
            },
        decreases es@.len() - i,
    {
        proof {
            assert(decreases_to!(es@ => es@[i as int]));
            assert(decreases_to!(es@[i as int] => es@[i as int].1));
        }
        match find_key(other, &es[i].0) {
            Option::Some(j) => {
                if !es[i].1.equals(&other[j].1) {
                    return false;
                }
            },
            Option::None => {
                return false;
            },
        }
        i = i + 1;
    }
    true
}


/// How a double prints: a NaN or an infinity as std spells it, any other
/// value with a decimal point or an exponent (`1.0`, `1.5`, `1e300`).
pub open spec fn float_shown(f: FloatValue) -> Seq<char> {
    if exponent_field(f.bits) == 2047 { f.display@ } else { float_text_spec(f.display@) }
}

/// How a map key prints inside a map: a string key in its `Debug` form.
pub open spec fn key_shown(k: MapKey) -> Seq<char> {
    match k {
        MapKey::Str(s) => str_debug_spec(s@),
        _ => key_text(k),
    }
}

/// How `print` shows a value (`quoted == false`) and how it is shown inside
/// an aggregate (`quoted == true`): only the quoting of strings differs.
pub open spec fn value_text(v: Value, quoted: bool) -> Seq<char>
    decreases v,
{
    match v {
        Value::Int(x) => int_text(x as int),
        Value::Float(f) => float_shown(f),
        Value::Bool(b) => if b { "true"@ } else { "false"@ },
        Value::Str(s) => if quoted { str_debug_spec(s@) } else { s@ },
        Value::Unit => "()"@,
        Value::NoneLit => "none"@,
        Value::List(xs) => "["@ + values_text(xs@) + "]"@,
        Value::MapOf(es) => "#{"@ + entries_text(es@) + "}"@,
        Value::Tuple(xs) => "("@ + values_text(xs@) + (if xs@.len() == 1 { ","@ } else { Seq::empty() }) + ")"@,
        Value::Data { name, fields } => name@ + "("@ + fields_text(fields@) + ")"@,
        Value::Variant { variant, payload, .. } => if payload@.len() == 0 {
            variant@
        } else {
            variant@ + "("@ + values_text(payload@) + ")"@
        },
        Value::Function { name, .. } => "<fn "@ + name@ + ">"@,
        Value::Result { ok, value, failure } => if ok {
            "Ok("@ + value_text(*value, true) + ")"@
        } else {
            "Err("@ + match failure {
                Option::Some(f) => render_spec(f.kind, f.message@),
                Option::None => "Failure"@,
            } + ")"@
        },
    }
}

/// Values shown quoted and joined by `, `.
pub open spec fn values_text(xs: Seq<Value>) -> Seq<char>
    decreases xs,
{
    if xs.len() == 0 {
        Seq::empty()
    } else if xs.len() == 1 {
        value_text(xs[0], true)
    } else {
        values_text(xs.drop_last()) + ", "@ + value_text(xs.last(), true)
    }
}

/// Map entries `key: value` joined by `, `.
pub open spec fn entries_text(es: Seq<(MapKey, Value)>) -> Seq<char>
    decreases es,
{
    if es.len() == 0 {
        Seq::empty()
    } else {
        let one = key_shown(es.last().0) + ": "@ + value_text(es.last().1, true);
        if es.len() == 1 { one } else { entries_text(es.drop_last()) + ", "@ + one }
    }
}

/// `data` fields `name: value` joined by `, `.
pub open spec fn fields_text(fs: Seq<(String, Value)>) -> Seq<char>
    decreases fs,
{
    if fs.len() == 0 {
        Seq::empty()
    } else {
        let one = fs.last().0@ + ": "@ + value_text(fs.last().1, true);
        if fs.len() == 1 { one } else { fields_text(fs.drop_last()) + ", "@ + one }
    }
}

/// Appends how `v` is shown.
pub fn write_value(out: &mut String, v: &Value, quoted: bool)
    ensures
        final(out)@ == old(out)@ + value_text(*v, quoted),
    decreases *v, 1nat,
{
    let ghost before = out@;
    match v {
        Value::Int(x) => {
            push_i64(out, *x);
        },
        Value::Float(f) => {
            let e = (f.bits / 4503599627370496) % 2048;
            out.append(f.display.as_str());
            if e != 2047 && !has_point_or_exponent(f.display.as_str()) {
                out.append(".0");
            }
        },
        Value::Bool(b) => {
            if *b {
                out.append("true");
            } else {
                out.append("false");
            }
        },
        Value::Str(s) => {
            if quoted {
                push_str_debug(out, s.as_str());
            } else {
                out.append(s.as_str());
            }
        },
        Value::Unit => {
            out.append("()");
        },
        Value::NoneLit => {
            out.append("none");
        },
        Value::List(xs) => {
            out.append("[");
            write_values(out, xs);
            out.append("]");
        },
        Value::MapOf(es) => {
            out.append("#{");
            write_entries(out, es);
            out.append("}");
        },
        Value::Tuple(xs) => {
            out.append("(");
            write_values(out, xs);
            if xs.len() == 1 {
                out.append(",");
            }
            out.append(")");
        },
        Value::Data { name, fields } => {
            out.append(name.as_str());
            out.append("(");
            write_fields(out, fields);
            out.append(")");
        },
        Value::Variant { variant, payload, .. } => {
            out.append(variant.as_str());
            if payload.len() > 0 {
                out.append("(");
                write_values(out, payload);
                out.append(")");
            }
        },
        Value::Function { name, .. } => {
            out.append("<fn ");
            out.append(name.as_str());
            out.append(">");
        },
        Value::Result { ok, value, failure } => {
            if *ok {
                out.append("Ok(");
                let inner: &Value = value;
                write_value(out, inner, true);
                out.append(")");
            } else {
                out.append("Err(");
                match failure {
                    Option::Some(f) => {
                        let r = render(f);
                        out.append(r.as_str());
                    },
                    Option::None => {
                        out.append("Failure");
                    },
                }
                out.append(")");
            }
        },
    }
    assert(out@ =~= before + value_text(*v, quoted));
}

/// Appends `xs` shown quoted and joined by `, `.
fn write_values(out: &mut String, xs: &Vec<Value>)
    ensures
        final(out)@ == old(out)@ + values_text(xs@),
    decreases xs@, 0nat,
{
    let ghost before = out@;
    let mut i: usize = 0;
    while i < xs.len()
        invariant
            i <= xs@.len(),
            out@ == before + values_text(xs@.take(i as int)),
        decreases xs@.len() - i,
    {
        proof {
            assert(decreases_to!(xs@ => xs@[i as int]));
            let t = xs@.take(i + 1);
            assert(t.drop_last() =~= xs@.take(i as int));
            assert(t.last() == xs@[i as int]);
            if i == 0 {
                assert(t.len() == 1 && t[0] == xs@[0]);
            }
        }
        let ghost o0 = out@;
        if i > 0 {
            out.append(", ");
        }
        write_value(out, &xs[i], true);
        proof {
            let t = xs@.take(i + 1);
            if i == 0 {
                assert(values_text(xs@.take(0)) =~= Seq::<char>::empty());
                assert(out@ =~= before + values_text(t));
            } else {
                assert(out@ =~= before + values_text(t));
            }
        }
        i = i + 1;
    }
    assert(xs@.take(i as int) =~= xs@);
}

/// Appends the entries of a map.
fn write_entries(out: &mut String, es: &Vec<(MapKey, Value)>)
    ensures
        final(out)@ == old(out)@ + entries_text(es@),
    decreases es@, 0nat,
{
    let ghost before = out@;
    let mut i: usize = 0;
    while i < es.len()
        invariant
            i <= es@.len(),
            out@ == before + entries_text(es@.take(i as int)),
        decreases es@.len() - i,
    {
        proof {
            assert(decreases_to!(es@ => es@[i as int]));
            assert(decreases_to!(es@[i as int] => es@[i as int].1));
            let t = es@.take(i + 1);
            assert(t.drop_last() =~= es@.take(i as int));
            assert(t.last() == es@[i as int]);
        }
        if i > 0 {
            out.append(", ");
        }
        match &es[i].0 {
            MapKey::Str(s) => push_str_debug(out, s.as_str()),
            other => {
                let k = other.text();
                out.append(k.as_str());
            },
        }
        out.append(": ");
        write_value(out, &es[i].1, true);
        proof {
            let t = es@.take(i + 1);
            if i == 0 {
                assert(entries_text(es@.take(0)) =~= Seq::<char>::empty());
            }
            assert(out@ =~= before + entries_text(t));
        }
        i = i + 1;
    }
    assert(es@.take(i as int) =~= es@);
}

/// Appends the fields of a `data` value.
fn write_fields(out: &mut String, fs: &Vec<(String, Value)>)
    ensures
        final(out)@ == old(out)@ + fields_text(fs@),
    decreases fs@, 0nat,
{
    let ghost before = out@;
    let mut i: usize = 0;
    while i < fs.len()
        invariant
            i <= fs@.len(),
            out@ == before + fields_text(fs@.take(i as int)),
        decreases fs@.len() - i,
    {
        proof {
            assert(decreases_to!(fs@ => fs@[i as int]));
            assert(decreases_to!(fs@[i as int] => fs@[i as int].1));
            let t = fs@.take(i + 1);
            assert(t.drop_last() =~= fs@.take(i as int));
            assert(t.last() == fs@[i as int]);
        }
        if i > 0 {
            out.append(", ");
        }
        out.append(fs[i].0.as_str());
        out.append(": ");
        write_value(out, &fs[i].1, true);
        proof {
            let t = fs@.take(i + 1);
            if i == 0 {
                assert(fields_text(fs@.take(0)) =~= Seq::<char>::empty());
            }
            assert(out@ =~= before + fields_text(t));
        }
        i = i + 1;
    }
    assert(fs@.take(i as int) =~= fs@);
}

/// How `print` shows a value: strings unquoted at the top level.
pub fn display(v: &Value) -> (s: String)
    ensures
        s@ == value_text(*v, false),
{
    let mut s = String::new();
    write_value(&mut s, v, false);
    assert(s@ =~= value_text(*v, false));
    s
}

/// A value shown with strings quoted.
pub fn repr(v: &Value) -> (s: String)
    ensures
        s@ == value_text(*v, true),
{
    let mut s = String::new();
    write_value(&mut s, v, true);
    assert(s@ =~= value_text(*v, true));
    s
}


/// The type a value has, as far as it can be told at run time: an empty
/// collection's element type, `none`, a function and a result's payload are
/// unknown.
pub open spec fn value_ty(v: Value) -> TyV
    decreases v,
{
    match v {
        Value::Int(_) => TyV::Int,
        Value::Float(_) => TyV::Float,
        Value::Bool(_) => TyV::Bool,
        Value::Str(_) => TyV::Str,
        Value::Unit => TyV::Unit,
        Value::List(xs) => TyV::List(Box::new(if xs@.len() > 0 { value_ty(xs@[0]) } else { TyV::Unknown })),
        Value::MapOf(es) => if es@.len() > 0 {
            TyV::MapOf(Box::new(key_ty(es@[0].0)), Box::new(value_ty(es@[0].1)))
        } else {
            TyV::MapOf(Box::new(TyV::Unknown), Box::new(TyV::Unknown))
        },
        Value::Tuple(xs) => TyV::Tuple(values_ty(xs@)),
        Value::Data { name, .. } => TyV::Data(name@),
        Value::Variant { enum_name, .. } => TyV::Enum(enum_name@),
        Value::NoneLit => TyV::Unknown,
        Value::Function { .. } => TyV::Unknown,
        Value::Result { .. } => TyV::Result(Box::new(TyV::Unknown)),
    }
}

/// The type of a map key.
pub open spec fn key_ty(k: MapKey) -> TyV {
    match k {
        MapKey::Int(_) => TyV::Int,
        MapKey::Str(_) => TyV::Str,
        MapKey::Bool(_) => TyV::Bool,
    }
}

/// The types of `xs`, in order.
pub open spec fn values_ty(xs: Seq<Value>) -> Seq<TyV>
    decreases xs,
{
    if xs.len() == 0 {
        Seq::empty()
    } else {
        values_ty(xs.drop_last()).push(value_ty(xs.last()))
    }
}

impl Value {
    /// The type of this value, as far as it can be told at run time.
    pub fn ty(&self) -> (t: Ty)
        ensures
            t@ == value_ty(*self),
        decreases *self, 1nat,
    {
        assert(ty_view_unknown()) by { reveal_with_fuel(crate::sema::ty::ty_view, 2); }
        match self {
            Value::Int(_) => Ty::Int,
            Value::Float(_) => Ty::Float,
            Value::Bool(_) => Ty::Bool,
            Value::Str(_) => Ty::Str,
            Value::Unit => Ty::Unit,
            Value::List(xs) => {
                if xs.len() > 0 {
                    proof { assert(decreases_to!(xs@ => xs@[0])); }
                    Ty::List(Box::new(xs[0].ty()))
                } else {
                    Ty::List(Box::new(Ty::Unknown))
                }
            },
            Value::MapOf(es) => {
                if es.len() > 0 {
                    proof {
                        assert(decreases_to!(es@ => es@[0]));
                        assert(decreases_to!(es@[0] => es@[0].1));
                    }
                    Ty::MapOf(Box::new(es[0].0.ty()), Box::new(es[0].1.ty()))
                } else {
                    Ty::MapOf(Box::new(Ty::Unknown), Box::new(Ty::Unknown))
                }
            },
            Value::Tuple(xs) => Ty::Tuple(types_of(xs)),
            Value::Data { name, .. } => Ty::Data(name.clone()),
            Value::Variant { enum_name, .. } => Ty::Enum(enum_name.clone()),
            Value::NoneLit => Ty::Unknown,
            Value::Function { .. } => Ty::Unknown,
            Value::Result { .. } => Ty::Result(Box::new(Ty::Unknown)),
        }
    }
}

/// `Unknown` inside a list, map or result type views as `Unknown`.
spec fn ty_view_unknown() -> bool {
    &&& Ty::List(Box::new(Ty::Unknown))@ == TyV::List(Box::new(TyV::Unknown))
    &&& Ty::MapOf(Box::new(Ty::Unknown), Box::new(Ty::Unknown))@ == TyV::MapOf(Box::new(TyV::Unknown), Box::new(TyV::Unknown))
    &&& Ty::Result(Box::new(Ty::Unknown))@ == TyV::Result(Box::new(TyV::Unknown))
}

/// The types of a list of values.
fn types_of(xs: &Vec<Value>) -> (r: Vec<Ty>)
    ensures
        tys_view(r@) == values_ty(xs@),
    decreases xs@, 0nat,
{
    let mut r: Vec<Ty> = Vec::new();
    let mut i: usize = 0;
    while i < xs.len()
        invariant
            i <= xs@.len(),
            tys_view(r@) == values_ty(xs@.take(i as int)),
        decreases xs@.len() - i,
    {
        proof { assert(decreases_to!(xs@ => xs@[i as int])); }
        let t = xs[i].ty();
        let ghost r0 = r@;
        r.push(t);
        proof {
            lemma_tys_view_push(r0, t);
            let k = xs@.take(i + 1);
            assert(k.drop_last() =~= xs@.take(i as int));
            assert(k.last() == xs@[i as int]);
        }
        i = i + 1;
    }
    assert(xs@.take(i as int) =~= xs@);
    r
}


impl MapKey {
    /// The value form of this key.
    pub fn to_value(&self) -> (v: Value)
        ensures
            match *self {
                MapKey::Int(x) => v == Value::Int(x),
                MapKey::Str(t) => v matches Value::Str(u) && u@ == t@,
                MapKey::Bool(b) => v == Value::Bool(b),
            },
    {
        match self {
            MapKey::Int(x) => Value::Int(*x),
            MapKey::Str(t) => Value::Str(t.clone()),
            MapKey::Bool(b) => Value::Bool(*b),
        }
    }

    /// The key for a value, when the value may be one (`Int`, `Str` or
    /// `Bool`).
    pub fn from_value(v: &Value) -> (k: Option<MapKey>)
        ensures
            match *v {
                Value::Int(x) => k == Some(MapKey::Int(x)),
                Value::Str(t) => k matches Some(MapKey::Str(u)) && u@ == t@,
                Value::Bool(b) => k == Some(MapKey::Bool(b)),
                _ => k is None,
            },
    {
        match v {
            Value::Int(x) => Some(MapKey::Int(*x)),
            Value::Str(t) => Some(MapKey::Str(t.clone())),
            Value::Bool(b) => Some(MapKey::Bool(*b)),
            _ => None,
        }
    }
}


/// Inserts `value` under `key` into map entries: an existing key keeps its
/// position and gets the new value; a new key goes last.
pub fn map_insert(es: &mut Vec<(MapKey, Value)>, key: MapKey, value: Value)
    ensures
        match key_index(old(es)@, key) {
            Option::Some(j) => final(es)@ == old(es)@.update(j, (key, value)),
            Option::None => final(es)@ == old(es)@.push((key, value)),
        },
{
    match find_key(es, &key) {
        Option::Some(j) => {
            es.set(j, (key, value));
        },
        Option::None => {
            es.push((key, value));
        },
    }
}

/// The value stored under `key`, if any.
pub fn map_get<'a>(es: &'a Vec<(MapKey, Value)>, key: &MapKey) -> (r: Option<&'a Value>)
    ensures
        match key_index(es@, *key) {
            Option::Some(j) => r == Some(&es@[j].1),
            Option::None => r is None,
        },
{
    match find_key(es, key) {
        Option::Some(j) => Some(&es[j].1),
        Option::None => None,
    }
}


/// The model of a [`Value`]: strings as character sequences, lists as
/// sequences.
pub enum ValueV {
    Int(i64),
    Float(u64, Seq<char>),
    Bool(bool),
    Str(Seq<char>),
    Unit,
    List(Seq<ValueV>),
    MapOf(Seq<(MapKey, ValueV)>),
    Tuple(Seq<ValueV>),
    Data(Seq<char>, Seq<(Seq<char>, ValueV)>),
    Variant(Seq<char>, Seq<char>, Seq<ValueV>),
    NoneLit,
    Function(Seq<char>, u64),
    Result(bool, Box<ValueV>, Option<(FailureKind, Seq<char>)>),
}

/// The model of a value.
pub open spec fn value_view(v: Value) -> ValueV
    decreases v,
{
    match v {
        Value::Int(x) => ValueV::Int(x),
        Value::Float(f) => ValueV::Float(f.bits, f.display@),
        Value::Bool(b) => ValueV::Bool(b),
        Value::Str(s) => ValueV::Str(s@),
        Value::Unit => ValueV::Unit,
        Value::List(xs) => ValueV::List(values_view(xs@)),
        Value::MapOf(es) => ValueV::MapOf(entries_view(es@)),
        Value::Tuple(xs) => ValueV::Tuple(values_view(xs@)),
        Value::Data { name, fields } => ValueV::Data(name@, data_fields_view(fields@)),
        Value::Variant { enum_name, variant, payload } => ValueV::Variant(enum_name@, variant@, values_view(payload@)),
        Value::NoneLit => ValueV::NoneLit,
        Value::Function { name, id } => ValueV::Function(name@, id),
        Value::Result { ok, value, failure } => ValueV::Result(ok, Box::new(value_view(*value)), match failure {
            Option::Some(f) => Option::Some((f.kind, f.message@)),
            Option::None => Option::None,
        }),
    }
}

/// The models of a list of values.
pub open spec fn values_view(xs: Seq<Value>) -> Seq<ValueV>
    decreases xs,
{
    if xs.len() == 0 { Seq::empty() } else { values_view(xs.drop_last()).push(value_view(xs.last())) }
}

/// The models of map entries.
pub open spec fn entries_view(es: Seq<(MapKey, Value)>) -> Seq<(MapKey, ValueV)>
    decreases es,
{
    if es.len() == 0 { Seq::empty() } else { entries_view(es.drop_last()).push((es.last().0, value_view(es.last().1))) }
}

/// The models of `data` fields.
pub open spec fn data_fields_view(fs: Seq<(String, Value)>) -> Seq<(Seq<char>, ValueV)>
    decreases fs,
{
    if fs.len() == 0 { Seq::empty() } else { data_fields_view(fs.drop_last()).push((fs.last().0@, value_view(fs.last().1))) }
}

impl View for Value {
    type V = ValueV;

    open spec fn view(&self) -> ValueV {
        value_view(*self)
    }
}

/// The model of a list grows with the list.
pub proof fn lemma_values_view_push(xs: Seq<Value>, x: Value)
    ensures
        values_view(xs.push(x)) == values_view(xs).push(value_view(x)),
{
    assert(xs.push(x).drop_last() =~= xs);
}

/// The model of a list has its length and its elements' models.
pub proof fn lemma_values_view_index(xs: Seq<Value>)
    ensures
        values_view(xs).len() == xs.len(),
        forall|i: int| 0 <= i < xs.len() ==> #[trigger] values_view(xs)[i] == value_view(xs[i]),
    decreases xs.len(),
{
    if xs.len() > 0 {
        lemma_values_view_index(xs.drop_last());
        assert forall|i: int| 0 <= i < xs.len() implies #[trigger] values_view(xs)[i] == value_view(xs[i]) by {
            if i < xs.len() - 1 {
                assert(xs.drop_last()[i] == xs[i]);
            }
        }
    }
}

/// A copy of the value.
impl Value {
    pub fn duplicate(&self) -> (r: Value)
        ensures
            r@ == self@,
        decreases *self, 2nat,
    {
        match self {
            Value::Int(x) => Value::Int(*x),
            Value::Float(f) => Value::Float(FloatValue { bits: f.bits, display: f.display.clone() }),
            Value::Bool(b) => Value::Bool(*b),
            Value::Str(s) => Value::Str(s.clone()),
            Value::Unit => Value::Unit,
            Value::List(xs) => Value::List(duplicate_values(xs)),
            Value::MapOf(es) => Value::MapOf(duplicate_entries(es)),
            Value::Tuple(xs) => Value::Tuple(duplicate_values(xs)),
            Value::Data { name, fields } => Value::Data { name: name.clone(), fields: duplicate_fields(fields) },
            Value::Variant { enum_name, variant, payload } => Value::Variant {
                enum_name: enum_name.clone(), variant: variant.clone(), payload: duplicate_values(payload) },
            Value::NoneLit => Value::NoneLit,
            Value::Function { name, id } => Value::Function { name: name.clone(), id: *id },
            Value::Result { ok, value, failure } => {
                let inner: &Value = value;
                let v = inner.duplicate();
                let f = match failure {
                    Option::Some(f) => Option::Some(Failure::new(f.kind, f.message.as_str(), f.span)),
                    Option::None => Option::None,
                };
                Value::Result { ok: *ok, value: Box::new(v), failure: f }
            },
        }
    }
}

/// Copies of a list of values.
pub fn duplicate_values(xs: &Vec<Value>) -> (r: Vec<Value>)
    ensures
        values_view(r@) == values_view(xs@),
    decreases xs@, 1nat,
{
    let mut r: Vec<Value> = Vec::new();
    let mut i: usize = 0;
    while i < xs.len()
        invariant
            i <= xs@.len(),
            values_view(r@) == values_view(xs@.take(i as int)),
        decreases xs@.len() - i,
    {
        proof { assert(decreases_to!(xs@ => xs@[i as int])); }
        let v = xs[i].duplicate();
        let ghost r0 = r@;
        r.push(v);
        proof {
            lemma_values_view_push(r0, v);
            let t = xs@.take(i + 1);
            assert(t.drop_last() =~= xs@.take(i as int));
            assert(t.last() == xs@[i as int]);
        }
        i = i + 1;
    }
    assert(xs@.take(i as int) =~= xs@);
    r
}

/// Copies of map entries.
fn duplicate_entries(es: &Vec<(MapKey, Value)>) -> (r: Vec<(MapKey, Value)>)
    ensures
        entries_view(r@) == entries_view(es@),
    decreases es@, 1nat,
{
    let mut r: Vec<(MapKey, Value)> = Vec::new();
    let mut i: usize = 0;
    while i < es.len()
        invariant
            i <= es@.len(),
            entries_view(r@) == entries_view(es@.take(i as int)),
        decreases es@.len() - i,
    {
        proof {
            assert(decreases_to!(es@ => es@[i as int]));
            assert(decreases_to!(es@[i as int] => es@[i as int].1));
        }
        let k = copy_key(&es[i].0);
        let v = es[i].1.duplicate();
        let ghost r0 = r@;
        r.push((k, v));
        proof {
            assert(r@.drop_last() =~= r0);
            let t = es@.take(i + 1);
            assert(t.drop_last() =~= es@.take(i as int));
            assert(t.last() == es@[i as int]);
        }
        i = i + 1;
    }
    assert(es@.take(i as int) =~= es@);
    r
}

/// A copy of a map key.
pub fn copy_key(k: &MapKey) -> (r: MapKey)
    ensures
        r == *k,
{
    match k {
        MapKey::Int(x) => MapKey::Int(*x),
        MapKey::Str(t) => MapKey::Str(t.clone()),
        MapKey::Bool(b) => MapKey::Bool(*b),
    }
}

/// Copies of `data` fields.
fn duplicate_fields(fs: &Vec<(String, Value)>) -> (r: Vec<(String, Value)>)
    ensures
        data_fields_view(r@) == data_fields_view(fs@),
    decreases fs@, 1nat,
{
    let mut r: Vec<(String, Value)> = Vec::new();
    let mut i: usize = 0;
    while i < fs.len()
        invariant
            i <= fs@.len(),
            data_fields_view(r@) == data_fields_view(fs@.take(i as int)),
        decreases fs@.len() - i,
    {
        proof {
            assert(decreases_to!(fs@ => fs@[i as int]));
            assert(decreases_to!(fs@[i as int] => fs@[i as int].1));
        }
        let n = fs[i].0.clone();
        let v = fs[i].1.duplicate();
        let ghost r0 = r@;
        r.push((n, v));
        proof {
            assert(r@.drop_last() =~= r0);
            let t = fs@.take(i + 1);
            assert(t.drop_last() =~= fs@.take(i as int));
            assert(t.last() == fs@[i as int]);
        }
        i = i + 1;
    }
    assert(fs@.take(i as int) =~= fs@);
    r
}


/// The model of map entries has their length, keys and values' models.
pub proof fn lemma_entries_view_index(es: Seq<(MapKey, Value)>)
    ensures
        entries_view(es).len() == es.len(),
        forall|i: int| 0 <= i < es.len() ==> #[trigger] entries_view(es)[i] == (es[i].0, value_view(es[i].1)),
    decreases es.len(),
{
    if es.len() > 0 {
        lemma_entries_view_index(es.drop_last());
        assert forall|i: int| 0 <= i < es.len() implies #[trigger] entries_view(es)[i] == (es[i].0, value_view(es[i].1)) by {
            if i < es.len() - 1 {
                assert(es.drop_last()[i] == es[i]);
            }
        }
    }
}

/// The model of `data` fields has their length, names and values' models.
pub proof fn lemma_data_fields_view_index(fs: Seq<(String, Value)>)
    ensures
        data_fields_view(fs).len() == fs.len(),
        forall|i: int| 0 <= i < fs.len() ==> #[trigger] data_fields_view(fs)[i] == (fs[i].0@, value_view(fs[i].1)),
    decreases fs.len(),
{
    if fs.len() > 0 {
        lemma_data_fields_view_index(fs.drop_last());
        assert forall|i: int| 0 <= i < fs.len() implies #[trigger] data_fields_view(fs)[i] == (fs[i].0@, value_view(fs[i].1)) by {
            if i < fs.len() - 1 {
                assert(fs.drop_last()[i] == fs[i]);
            }
        }
    }
}

proof fn lemma_key_index_view(es: Seq<(MapKey, Value)>, fs: Seq<(MapKey, Value)>, key: MapKey)
    requires
        entries_view(es) == entries_view(fs),
    ensures
        key_index(es, key) == key_index(fs, key),
    decreases es.len(),
{
    lemma_entries_view_index(es);
    lemma_entries_view_index(fs);
    if es.len() > 0 {
        assert(entries_view(es).last() == entries_view(fs).last());
        assert(es.last().0 == fs.last().0);
        assert(entries_view(es).drop_last() =~= entries_view(es.drop_last()));
        assert(entries_view(fs).drop_last() =~= entries_view(fs.drop_last()));
        lemma_key_index_view(es.drop_last(), fs.drop_last(), key);
    }
}

/// Values with the same model are the same kind of value, with the same
/// scalar contents.
proof fn lemma_view_same_kind(x: Value, y: Value)
    requires
        x@ == y@,
    ensures
        x is Int <==> y is Int,
        x is Float <==> y is Float,
        x is Bool <==> y is Bool,
        x is Str <==> y is Str,
        x is Unit <==> y is Unit,
        x is NoneLit <==> y is NoneLit,
        x is List <==> y is List,
        x is MapOf <==> y is MapOf,
        x is Tuple <==> y is Tuple,
        x is Data <==> y is Data,
        x is Variant <==> y is Variant,
        x is Function <==> y is Function,
        x is Result <==> y is Result,
        x is Int ==> x->Int_0 == y->Int_0,
        x is Float ==> x->Float_0.bits == y->Float_0.bits,
        x is Bool ==> x->Bool_0 == y->Bool_0,
        x is Str ==> x->Str_0@ == y->Str_0@,
        x is Function ==> x->id == y->id,
        x is Data ==> x->Data_name@ == y->Data_name@,
        x is Variant ==> x->enum_name@ == y->enum_name@ && x->variant@ == y->variant@,
        x is Result ==> x->ok == y->ok && (x->failure is None <==> y->failure is None)
            && (x->failure is Some ==> failure_eq(x->failure->Some_0, y->failure->Some_0)),
{
}

/// Equality depends only on the values' models.
pub proof fn lemma_eq_by_view(a: Value, b: Value, c: Value, d: Value)
    requires
        a@ == c@,
        b@ == d@,
    ensures
        value_eq(a, b) == value_eq(c, d),
    decreases a,
{
    lemma_view_same_kind(a, c);
    lemma_view_same_kind(b, d);
    match (a, c) {
        (Value::List(xs), Value::List(zs)) => {
            lemma_values_view_index(xs@);
            lemma_values_view_index(zs@);
            if let (Value::List(ys), Value::List(ws)) = (b, d) {
                lemma_values_view_index(ys@);
                lemma_values_view_index(ws@);
                assert forall|k: int| 0 <= k < xs@.len() && k < ys@.len()
                    implies value_eq(xs@[k], ys@[k]) == value_eq(zs@[k], ws@[k]) by {
                    assert(decreases_to!(xs => xs@[k]));
                    assert(values_view(xs@)[k] == values_view(zs@)[k]);
                    assert(values_view(ys@)[k] == values_view(ws@)[k]);
                    lemma_eq_by_view(xs@[k], ys@[k], zs@[k], ws@[k]);
                }
                if values_eq(xs@, ys@) {
                    assert forall|k: int| 0 <= k < zs@.len() implies value_eq(#[trigger] zs@[k], ws@[k]) by {
                        assert(value_eq(xs@[k], ys@[k]));
                    }
                }
                if values_eq(zs@, ws@) {
                    assert forall|k: int| 0 <= k < xs@.len() implies value_eq(#[trigger] xs@[k], ys@[k]) by {
                        assert(value_eq(zs@[k], ws@[k]));
                    }
                }
            }
        },
        (Value::Tuple(xs), Value::Tuple(zs)) => {
            lemma_values_view_index(xs@);
            lemma_values_view_index(zs@);
            if let (Value::Tuple(ys), Value::Tuple(ws)) = (b, d) {
                lemma_values_view_index(ys@);
                lemma_values_view_index(ws@);
                assert forall|k: int| 0 <= k < xs@.len() && k < ys@.len()
                    implies value_eq(xs@[k], ys@[k]) == value_eq(zs@[k], ws@[k]) by {
                    assert(decreases_to!(xs => xs@[k]));
                    assert(values_view(xs@)[k] == values_view(zs@)[k]);
                    assert(values_view(ys@)[k] == values_view(ws@)[k]);
                    lemma_eq_by_view(xs@[k], ys@[k], zs@[k], ws@[k]);
                }
                if values_eq(xs@, ys@) {
                    assert forall|k: int| 0 <= k < zs@.len() implies value_eq(#[trigger] zs@[k], ws@[k]) by {
                        assert(value_eq(xs@[k], ys@[k]));
                    }
                }
                if values_eq(zs@, ws@) {
                    assert forall|k: int| 0 <= k < xs@.len() implies value_eq(#[trigger] xs@[k], ys@[k]) by {
                        assert(value_eq(zs@[k], ws@[k]));
                    }
                }
            }
        },
        (Value::Variant { payload: xs, .. }, Value::Variant { payload: zs, .. }) => {
            lemma_values_view_index(xs@);
            lemma_values_view_index(zs@);
            if let (Value::Variant { payload: ys, .. }, Value::Variant { payload: ws, .. }) = (b, d) {
                lemma_values_view_index(ys@);
                lemma_values_view_index(ws@);
                assert forall|k: int| 0 <= k < xs@.len() && k < ys@.len()
                    implies value_eq(xs@[k], ys@[k]) == value_eq(zs@[k], ws@[k]) by {
                    assert(decreases_to!(xs => xs@[k]));
                    assert(values_view(xs@)[k] == values_view(zs@)[k]);
                    assert(values_view(ys@)[k] == values_view(ws@)[k]);
                    lemma_eq_by_view(xs@[k], ys@[k], zs@[k], ws@[k]);
                }
                if values_eq(xs@, ys@) {
                    assert forall|k: int| 0 <= k < zs@.len() implies value_eq(#[trigger] zs@[k], ws@[k]) by {
                        assert(value_eq(xs@[k], ys@[k]));
                    }
                }
                if values_eq(zs@, ws@) {
                    assert forall|k: int| 0 <= k < xs@.len() implies value_eq(#[trigger] xs@[k], ys@[k]) by {
                        assert(value_eq(zs@[k], ws@[k]));
                    }
                }
            }
        },
        (Value::Data { fields: xs, .. }, Value::Data { fields: zs, .. }) => {
            lemma_data_fields_view_index(xs@);
            lemma_data_fields_view_index(zs@);
            if let (Value::Data { fields: ys, .. }, Value::Data { fields: ws, .. }) = (b, d) {
                lemma_data_fields_view_index(ys@);
                lemma_data_fields_view_index(ws@);
                assert forall|k: int| 0 <= k < xs@.len() && k < ys@.len()
                    implies value_eq(xs@[k].1, ys@[k].1) == value_eq(zs@[k].1, ws@[k].1) by {
                    assert(decreases_to!(xs => xs@[k]));
                    assert(data_fields_view(xs@)[k] == data_fields_view(zs@)[k]);
                    assert(data_fields_view(ys@)[k] == data_fields_view(ws@)[k]);
                    lemma_eq_by_view(xs@[k].1, ys@[k].1, zs@[k].1, ws@[k].1);
                }
                if fields_eq(xs@, ys@) {
                    assert forall|k: int| 0 <= k < zs@.len() implies (#[trigger] zs@[k]).0@ == ws@[k].0@
                        && value_eq(zs@[k].1, ws@[k].1) by {
                        assert(data_fields_view(xs@)[k] == data_fields_view(zs@)[k]);
                        assert(data_fields_view(ys@)[k] == data_fields_view(ws@)[k]);
                        assert(xs@[k].0@ == ys@[k].0@ && value_eq(xs@[k].1, ys@[k].1));
                    }
                }
                if fields_eq(zs@, ws@) {
                    assert forall|k: int| 0 <= k < xs@.len() implies (#[trigger] xs@[k]).0@ == ys@[k].0@
                        && value_eq(xs@[k].1, ys@[k].1) by {
                        assert(data_fields_view(xs@)[k] == data_fields_view(zs@)[k]);
                        assert(data_fields_view(ys@)[k] == data_fields_view(ws@)[k]);
                        assert(zs@[k].0@ == ws@[k].0@ && value_eq(zs@[k].1, ws@[k].1));
                    }
                }
            }
        },
        (Value::MapOf(xs), Value::MapOf(zs)) => {
            lemma_entries_view_index(xs@);
            lemma_entries_view_index(zs@);
            if let (Value::MapOf(ys), Value::MapOf(ws)) = (b, d) {
                lemma_entries_view_index(ys@);
                lemma_entries_view_index(ws@);
                assert forall|k: int| #![trigger xs@[k]] #![trigger zs@[k]] 0 <= k < xs@.len() implies
                    (match key_index(ys@, xs@[k].0) {
                        Option::Some(j) => value_eq(xs@[k].1, ys@[j].1),
                        Option::None => false,
                    }) == (match key_index(ws@, zs@[k].0) {
                        Option::Some(j) => value_eq(zs@[k].1, ws@[j].1),
                        Option::None => false,
                    }) by {
                    assert(entries_view(xs@)[k] == entries_view(zs@)[k]);
                    assert(xs@[k].0 == zs@[k].0);
                    lemma_key_index_view(ys@, ws@, xs@[k].0);
                    lemma_key_index_range(ys@, xs@[k].0);
                    if let Option::Some(j) = key_index(ys@, xs@[k].0) {
                        assert(decreases_to!(xs => xs@[k]));
                        assert(entries_view(ys@)[j] == entries_view(ws@)[j]);
                        lemma_eq_by_view(xs@[k].1, ys@[j].1, zs@[k].1, ws@[j].1);
                    }
                }
                if entries_in(xs@, ys@) {
                    assert forall|k: int| 0 <= k < zs@.len() implies (match key_index(ws@, (#[trigger] zs@[k]).0) {
                        Option::Some(j) => value_eq(zs@[k].1, ws@[j].1),
                        Option::None => false,
                    }) by {
                        assert(xs@[k] == xs@[k]);
                    }
                }
                if entries_in(zs@, ws@) {
                    assert forall|k: int| 0 <= k < xs@.len() implies (match key_index(ys@, (#[trigger] xs@[k]).0) {
                        Option::Some(j) => value_eq(xs@[k].1, ys@[j].1),
                        Option::None => false,
                    }) by {
                        assert(zs@[k] == zs@[k]);
                    }
                }
                assert(xs@.len() == zs@.len() && ys@.len() == ws@.len());
                assert(entries_in(xs@, ys@) == entries_in(zs@, ws@));
            }
            assert(value_eq(a, b) == value_eq(c, d));
        },
        (Value::Result { value: x, .. }, Value::Result { value: z, .. }) => {
            if let (Value::Result { value: y, .. }, Value::Result { value: w, .. }) = (b, d) {
                lemma_eq_by_view(*x, *y, *z, *w);
            }
            assert(value_eq(a, b) == value_eq(c, d));
        },
        _ => {
            if a is Int {
                assert(c is Int && a->Int_0 == c->Int_0);
                if b is Int {
                    assert(d is Int && b->Int_0 == d->Int_0);
                } else if b is Float {
                    assert(d is Float && b->Float_0.bits == d->Float_0.bits);
                }
            } else if a is Float {
                assert(c is Float && a->Float_0.bits == c->Float_0.bits);
                if b is Int {
                    assert(d is Int && b->Int_0 == d->Int_0);
                } else if b is Float {
                    assert(d is Float && b->Float_0.bits == d->Float_0.bits);
                }
            }
            assert(value_eq(a, b) == value_eq(c, d));
        },
    }
}

proof fn lemma_key_index_range(es: Seq<(MapKey, Value)>, key: MapKey)
    ensures
        key_index(es, key) matches Option::Some(j) ==> 0 <= j < es.len(),
    decreases es.len(),
{
    if es.len() > 0 && !key_same(es.last().0, key) {
        lemma_key_index_range(es.drop_last(), key);
    }
}


proof fn lemma_values_view_prefix(xs: Seq<Value>, zs: Seq<Value>)
    requires
        values_view(xs) == values_view(zs),
        xs.len() > 0,
    ensures
        values_view(xs.drop_last()) == values_view(zs.drop_last()),
        xs.last()@ == zs.last()@,
        xs.len() == zs.len(),
{
    lemma_values_view_index(xs);
    lemma_values_view_index(zs);
    assert(values_view(xs).drop_last() =~= values_view(xs.drop_last()));
    assert(values_view(zs).drop_last() =~= values_view(zs.drop_last()));
    assert(values_view(xs)[xs.len() - 1] == values_view(zs)[zs.len() - 1]);
}

/// The text of a value depends only on its model.
pub proof fn lemma_text_by_view(a: Value, c: Value, quoted: bool)
    requires
        a@ == c@,
    ensures
        value_text(a, quoted) == value_text(c, quoted),
        value_ty(a) == value_ty(c),
    decreases a, 1nat,
{
    lemma_view_same_kind(a, c);
    match (a, c) {
        (Value::Float(f), Value::Float(g)) => {
            assert(f.display@ == g.display@);
        },
        (Value::List(xs), Value::List(zs)) => {
            lemma_texts_by_view(xs@, zs@);
        },
        (Value::Tuple(xs), Value::Tuple(zs)) => {
            lemma_texts_by_view(xs@, zs@);
        },
        (Value::Variant { payload: xs, .. }, Value::Variant { payload: zs, .. }) => {
            lemma_texts_by_view(xs@, zs@);
        },
        (Value::MapOf(xs), Value::MapOf(zs)) => {
            lemma_entries_text_by_view(xs@, zs@);
            if xs@.len() > 0 {
                lemma_entries_view_index(xs@);
                lemma_entries_view_index(zs@);
                assert(entries_view(xs@)[0] == entries_view(zs@)[0]);
                lemma_text_by_view(xs@[0].1, zs@[0].1, true);
            }
        },
        (Value::Data { fields: xs, .. }, Value::Data { fields: zs, .. }) => {
            lemma_fields_text_by_view(xs@, zs@);
        },
        (Value::Result { value: x, .. }, Value::Result { value: z, .. }) => {
            lemma_text_by_view(*x, *z, true);
        },
        _ => {},
    }
}

proof fn lemma_texts_by_view(xs: Seq<Value>, zs: Seq<Value>)
    requires
        values_view(xs) == values_view(zs),
    ensures
        values_text(xs) == values_text(zs),
        values_ty(xs) == values_ty(zs),
        xs.len() == zs.len(),
        xs.len() > 0 ==> value_ty(xs[0]) == value_ty(zs[0]),
    decreases xs, 0nat,
{
    lemma_values_view_index(xs);
    lemma_values_view_index(zs);
    if xs.len() > 0 {
        lemma_values_view_prefix(xs, zs);
        assert(decreases_to!(xs => xs.drop_last()));
        lemma_texts_by_view(xs.drop_last(), zs.drop_last());
        lemma_text_by_view(xs.last(), zs.last(), true);
        assert(values_view(xs)[0] == values_view(zs)[0]);
        assert(values_view(xs)[0] == value_view(xs[0]));
        assert(values_view(zs)[0] == value_view(zs[0]));
        assert(xs[0]@ == zs[0]@);
        lemma_text_by_view(xs[0], zs[0], true);
    }
}

proof fn lemma_entries_text_by_view(es: Seq<(MapKey, Value)>, fs: Seq<(MapKey, Value)>)
    requires
        entries_view(es) == entries_view(fs),
    ensures
        entries_text(es) == entries_text(fs),
        es.len() == fs.len(),
    decreases es, 0nat,
{
    lemma_entries_view_index(es);
    lemma_entries_view_index(fs);
    if es.len() > 0 {
        assert(entries_view(es).drop_last() =~= entries_view(es.drop_last()));
        assert(entries_view(fs).drop_last() =~= entries_view(fs.drop_last()));
        assert(entries_view(es)[es.len() - 1] == entries_view(fs)[fs.len() - 1]);
        assert(decreases_to!(es => es.drop_last()));
        lemma_entries_text_by_view(es.drop_last(), fs.drop_last());
        lemma_text_by_view(es.last().1, fs.last().1, true);
    }
}

proof fn lemma_fields_text_by_view(es: Seq<(String, Value)>, fs: Seq<(String, Value)>)
    requires
        data_fields_view(es) == data_fields_view(fs),
    ensures
        fields_text(es) == fields_text(fs),
    decreases es, 0nat,
{
    lemma_data_fields_view_index(es);
    lemma_data_fields_view_index(fs);
    if es.len() > 0 {
        assert(data_fields_view(es).drop_last() =~= data_fields_view(es.drop_last()));
        assert(data_fields_view(fs).drop_last() =~= data_fields_view(fs.drop_last()));
        assert(data_fields_view(es)[es.len() - 1] == data_fields_view(fs)[fs.len() - 1]);
        assert(decreases_to!(es => es.drop_last()));
        lemma_fields_text_by_view(es.drop_last(), fs.drop_last());
        lemma_text_by_view(es.last().1, fs.last().1, true);
    }
}

/// `Ok(v)` shows its payload exactly as a one-element list shows its only
/// element (strings quoted), between `Ok(` and `)`, whether the result is
/// shown quoted or not.
pub proof fn law_ok_payload_shown_as_in_a_list(v: Value, f: Option<Failure>, xs: Vec<Value>, quoted: bool)
    requires
        xs@ == seq![v],
    ensures
        ({
            let lt = value_text(Value::List(xs), false);
            &&& lt.len() >= 2
            &&& value_text(Value::Result { ok: true, value: Box::new(v), failure: f }, quoted)
                == "Ok("@ + lt.subrange(1, lt.len() - 1) + ")"@
        }),
{
    reveal_strlit("[");
    reveal_strlit("]");
    let t = value_text(v, true);
    assert(values_text(xs@) == t);
    let lt = value_text(Value::List(xs), false);
    assert(lt == "["@ + t + "]"@);
    assert(lt.subrange(1, lt.len() - 1) =~= t);
}

/// A string inside `Ok(..)` is shown in its `Debug` form, quoted, also when
/// `print` shows the result itself.
pub proof fn law_ok_string_is_quoted(s: String, f: Option<Failure>, quoted: bool)
    ensures
        value_text(Value::Result { ok: true, value: Box::new(Value::Str(s)), failure: f }, quoted)
            == "Ok("@ + str_debug_spec(s@) + ")"@,
{
    assert(value_text(Value::Str(s), true) == str_debug_spec(s@));
}

/// Equality of numbers does not depend on the order of the operands, also
/// across `Int` and `Float`; a NaN equals nothing, not even itself; the two
/// zeros are equal; any other double equals itself.
pub proof fn law_number_equality(a: i64, x: FloatValue, y: FloatValue)
    ensures
        value_eq(Value::Int(a), Value::Float(x)) == value_eq(Value::Float(x), Value::Int(a)),
        value_eq(Value::Float(x), Value::Float(y)) == value_eq(Value::Float(y), Value::Float(x)),
        is_nan_bits(x.bits) ==> !value_eq(Value::Float(x), Value::Float(y)) && !value_eq(Value::Float(x), Value::Int(a)),
        !is_nan_bits(x.bits) ==> value_eq(Value::Float(x), Value::Float(x)),
        is_zero_bits(x.bits) && is_zero_bits(y.bits) ==> value_eq(Value::Float(x), Value::Float(y)),
        value_eq(Value::Int(a), Value::Int(a)),
{
    if is_nan_bits(x.bits) {
        assert(exponent_field(x.bits) == 2047);
        assert(float_integer(x.bits) is None);
    }
}

/// A tuple shows its elements as a list does, between parentheses instead
/// of brackets, with a trailing comma when it has exactly one.
pub proof fn law_tuple_shown_as_list(xs: Vec<Value>, quoted: bool)
    ensures
        ({
            let t = value_text(Value::Tuple(xs), quoted);
            let l = value_text(Value::List(xs), quoted);
            let inner = l.subrange(1, l.len() - 1);
            &&& l.len() >= 2
            &&& t == "("@ + inner + (if xs@.len() == 1 { ","@ } else { Seq::empty() }) + ")"@
        }),
{
    reveal_strlit("[");
    reveal_strlit("]");
    let l = value_text(Value::List(xs), quoted);
    let v = values_text(xs@);
    assert(l == "["@ + v + "]"@);
    assert(l.subrange(1, l.len() - 1) =~= v);
}

} // verus!
