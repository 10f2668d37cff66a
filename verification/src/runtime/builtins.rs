//! Helpers of the builtin functions that compute on plain values.

use vstd::prelude::*;
use crate::span::{FileId, Span};
use crate::text::{digit_char, int_text, nat_text, push_u64};
use super::failure::{Failure, FailureKind};
use super::ops::range_values;
use super::values::{Value, display, value_text, value_ty};
use crate::sema::ty::ty_name;
use crate::text::str_chars;

verus! {

/// A name for a builtin, as an owned string.
pub fn name(text: &str) -> (s: String)
    ensures
        s@ == text@,
{
    text.to_owned()
}

/// The failure of a builtin called with the wrong number of arguments:
/// "`name` takes N argument(s) but M were given", at offset 0 of file 0.
pub fn arity(name: &str, expected: usize, found: usize) -> (f: Failure)
    ensures
        f.kind == FailureKind::Unsupported,
        f.message@ == seq!['`'] + name@ + "` takes "@ + nat_text(expected as nat) + " argument(s) but "@
            + nat_text(found as nat) + " were given"@,
        f.span == (Span { file: FileId(0), start: 0, end: 0 }),
        f.trace@.len() == 0,
{
    let mut m = String::new();
    crate::text::push_char(&mut m, '`');
    m.append(name);
    m.append("` takes ");
    push_u64(&mut m, expected as u64);
    m.append(" argument(s) but ");
    push_u64(&mut m, found as u64);
    m.append(" were given");
    assert(m@ =~= seq!['`'] + name@ + "` takes "@ + nat_text(expected as nat) + " argument(s) but "@
        + nat_text(found as nat) + " were given"@);
    Failure::new(FailureKind::Unsupported, m.as_str(), Span::new(FileId(0), 0, 0))
}

/// The failure of a builtin given a value of the wrong type:
/// "`name` expects EXPECTED".
pub fn type_error(name: &str, expected: &str, span: Span) -> (f: Failure)
    ensures
        f.kind == FailureKind::Unsupported,
        f.message@ == seq!['`'] + name@ + "` expects "@ + expected@,
        f.span == span,
        f.trace@.len() == 0,
{
    let mut m = String::new();
    crate::text::push_char(&mut m, '`');
    m.append(name);
    m.append("` expects ");
    m.append(expected);
    assert(m@ =~= seq!['`'] + name@ + "` expects "@ + expected@);
    Failure::new(FailureKind::Unsupported, m.as_str(), span)
}


/// Whether `f` is a fresh failure of `kind` with `message` at `span`.
pub open spec fn failure_is(f: Failure, kind: FailureKind, message: Seq<char>, span: Span) -> bool {
    f.kind == kind && f.message@ == message && f.span == span && f.trace@.len() == 0
}

/// The message of a builtin called with `found` arguments instead of
/// `expected`.
pub open spec fn arity_message(name: Seq<char>, expected: nat, found: nat) -> Seq<char> {
    seq!['`'] + name + "` takes "@ + nat_text(expected) + " argument(s) but "@ + nat_text(found) + " were given"@
}

/// Whether `r` is the wrong-arity failure of builtin `name`.
pub open spec fn is_arity_error(r: Result<Value, Failure>, name: Seq<char>, expected: nat, found: nat) -> bool {
    r matches Err(f) && failure_is(f, FailureKind::Unsupported, arity_message(name, expected, found),
        Span { file: FileId(0), start: 0, end: 0 })
}

/// Whether `r` is the wrong-type failure of builtin `name`.
pub open spec fn is_type_error(r: Result<Value, Failure>, name: Seq<char>, expected: Seq<char>, span: Span) -> bool {
    r matches Err(f) && failure_is(f, FailureKind::Unsupported, seq!['`'] + name + "` expects "@ + expected, span)
}

/// `len(value)`: the number of characters of a string, or of elements of a
/// list or map.
pub fn len(args: &Vec<Value>, span: Span) -> (r: Result<Value, Failure>)
    ensures
        args@.len() == 0 ==> is_arity_error(r, "len"@, 1, 0),
        args@.len() > 0 ==> match args@[0] {
            Value::Str(t) => r == Ok::<Value, Failure>(Value::Int(t@.len() as i64)),
            Value::List(xs) => r == Ok::<Value, Failure>(Value::Int(xs@.len() as i64)),
            Value::MapOf(es) => r == Ok::<Value, Failure>(Value::Int(es@.len() as i64)),
            v => is_type_error(r, "len"@, ty_name(value_ty(v)), span),
        },
{
    proof { reveal_strlit("len"); }
    if args.len() == 0 {
        return Err(arity("len", 1, 0));
    }
    let n: usize = match &args[0] {
        Value::Str(t) => str_chars(t.as_str()).len(),
        Value::List(xs) => xs.len(),
        Value::MapOf(es) => es.len(),
        other => {
            let t = other.ty().name();
            return Err(type_error("len", t.as_str(), span));
        },
    };
    Ok(Value::Int(n as i64))
}

/// `range(start, end)`: the integers from `start` up to `end`, exclusive.
pub fn range(args: &Vec<Value>, span: Span) -> (r: Result<Value, Failure>)
    ensures
        args@.len() != 2 ==> is_arity_error(r, "range"@, 2, args@.len()),
        args@.len() == 2 ==> match (args@[0], args@[1]) {
            (Value::Int(a), Value::Int(b)) => (r matches Ok(Value::List(xs))
                && xs@.len() == (if a < b { b - a } else { 0 })
                && forall|k: int| 0 <= k < xs@.len() ==> #[trigger] xs@[k] == Value::Int((a + k) as i64)),
            _ => is_type_error(r, "range"@, "Int, Int"@, span),
        },
{
    proof { reveal_strlit("range"); }
    if args.len() != 2 {
        return Err(arity("range", 2, args.len()));
    }
    match (&args[0], &args[1]) {
        (Value::Int(a), Value::Int(b)) => {
            let ints = range_values(*a, *b);
            let mut xs: Vec<Value> = Vec::new();
            let mut i: usize = 0;
            while i < ints.len()
                invariant
                    i <= ints@.len(),
                    xs@.len() == i,
                    forall|k: int| 0 <= k < i ==> #[trigger] xs@[k] == Value::Int(ints@[k]),
                decreases ints@.len() - i,
            {
                xs.push(Value::Int(ints[i]));
                i = i + 1;
            }
            assert forall|k: int| 0 <= k < xs@.len() implies #[trigger] xs@[k] == Value::Int((*a + k) as i64) by {
                assert(ints@[k] as int == *a as int + k);
            }
            Ok(Value::List(xs))
        },
        _ => Err(type_error("range", "Int, Int", span)),
    }
}

/// `str(value)`: the value as `print` shows it.
pub fn to_str(args: &Vec<Value>) -> (r: Result<Value, Failure>)
    ensures
        args@.len() == 0 ==> is_arity_error(r, "str"@, 1, 0),
        args@.len() > 0 ==> (r matches Ok(Value::Str(t)) && t@ == value_text(args@[0], false)),
{
    proof { reveal_strlit("str"); }
    if args.len() == 0 {
        return Err(arity("str", 1, 0));
    }
    Ok(Value::Str(display(&args[0])))
}

/// `assert(condition)`: `()` when the condition holds, an
/// `AssertionFailed` failure when it does not.
pub fn assert_holds(args: &Vec<Value>, span: Span) -> (r: Result<Value, Failure>)
    ensures
        args@.len() == 0 ==> is_arity_error(r, "assert"@, 1, 0),
        args@.len() > 0 ==> match args@[0] {
            Value::Bool(true) => r == Ok::<Value, Failure>(Value::Unit),
            Value::Bool(false) => (r matches Err(f) && failure_is(f, FailureKind::AssertionFailed, "assertion failed"@, span)),
            _ => is_type_error(r, "assert"@, "Bool"@, span),
        },
{
    proof { reveal_strlit("assert"); }
    if args.len() == 0 {
        return Err(arity("assert", 1, 0));
    }
    match &args[0] {
        Value::Bool(b) => {
            if *b {
                Ok(Value::Unit)
            } else {
                Err(Failure::new(FailureKind::AssertionFailed, "assertion failed", span))
            }
        },
        _ => Err(type_error("assert", "Bool", span)),
    }
}

/// The text printed for a `print(value)` call: the value's display form
/// and a line break.
pub fn print_line(args: &Vec<Value>) -> (r: Result<String, Failure>)
    ensures
        args@.len() == 0 ==> (r matches Err(f) && failure_is(f, FailureKind::Unsupported, arity_message("print"@, 1, 0),
            Span { file: FileId(0), start: 0, end: 0 })),
        args@.len() > 0 ==> (r matches Ok(t) && t@ == value_text(args@[0], false) + seq!['\n']),
{
    proof { reveal_strlit("print"); }
    if args.len() == 0 {
        return Err(arity("print", 1, 0));
    }
    let mut line = display(&args[0]);
    crate::text::push_char(&mut line, '\n');
    Ok(line)
}

/// `Ok(value)`: a successful result holding `value`.
pub fn ok(args: Vec<Value>) -> (r: Result<Value, Failure>)
    ensures
        args@.len() == 0 ==> is_arity_error(r, "Ok"@, 1, 0),
        args@.len() > 0 ==> (r matches Ok(Value::Result { ok, value, failure })
            && ok && *value == args@[0] && failure is None),
{
    proof { reveal_strlit("Ok"); }
    let mut args = args;
    if args.len() == 0 {
        return Err(arity("Ok", 1, 0));
    }
    let first = args.swap_remove(0);
    Ok(Value::Result { ok: true, value: Box::new(first), failure: None })
}

/// The message an `Err(..)` of a `data` value carries: its first
/// `message` field as `print` shows it, or `failure` when it has none.
pub open spec fn data_message(fields: Seq<(String, Value)>) -> Seq<char>
    decreases fields.len(),
{
    if fields.len() == 0 {
        "failure"@
    } else if fields[0].0@ == "message"@ {
        value_text(fields[0].1, false)
    } else {
        data_message(fields.drop_first())
    }
}

/// `Err(reason)`: a failed result whose `Unsupported` failure carries the
/// string, or a `data` value's `message` field.
pub fn err(args: &Vec<Value>, span: Span) -> (r: Result<Value, Failure>)
    ensures
        args@.len() == 0 ==> is_arity_error(r, "Err"@, 1, 0),
        args@.len() > 0 ==> match args@[0] {
            Value::Str(m) => (r matches Ok(Value::Result { ok, value, failure })
                && !ok && *value == Value::Unit
                && (failure matches Some(f) && failure_is(f, FailureKind::Unsupported, m@, span))),
            Value::Data { fields, .. } => (r matches Ok(Value::Result { ok, value, failure })
                && !ok && *value == Value::Unit
                && (failure matches Some(f) && failure_is(f, FailureKind::Unsupported, data_message(fields@), span))),
            v => is_type_error(r, "Err"@, ty_name(value_ty(v)), span),
        },
{
    proof { reveal_strlit("Err"); reveal_strlit("message"); reveal_strlit("failure"); }
    if args.len() == 0 {
        return Err(arity("Err", 1, 0));
    }
    let failure = match &args[0] {
        Value::Str(m) => Failure::new(FailureKind::Unsupported, m.as_str(), span),
        Value::Data { fields, .. } => {
            let mut message = String::from_str("failure");
            let mut i: usize = 0;
            let mut found = false;
            assert(fields@.skip(0) =~= fields@);
            while i < fields.len()
                invariant
                    i <= fields@.len(),
                    found ==> message@ == data_message(fields@),
                    !found ==> data_message(fields@) == data_message(fields@.skip(i as int)),
                    !found ==> message@ == "failure"@,
                decreases fields@.len() - i,
            {
                proof {
                    let t = fields@.skip(i as int);
                    assert(t.drop_first() =~= fields@.skip(i + 1));
                    assert(t[0] == fields@[i as int]);
                }
                if !found && crate::text::str_eq(fields[i].0.as_str(), "message") {
                    message = display(&fields[i].1);
                    found = true;
                }
                i = i + 1;
            }
            if !found {
                assert(fields@.skip(i as int).len() == 0);
            }
            Failure::new(FailureKind::Unsupported, message.as_str(), span)
        },
        other => {
            let t = other.ty().name();
            return Err(type_error("Err", t.as_str(), span));
        },
    };
    Ok(Value::Result { ok: false, value: Box::new(Value::Unit), failure: Some(failure) })
}

/// Whether `c` has Unicode's `White_Space` property, which `char::is_whitespace`
/// tests and `str::trim` strips.
pub open spec fn is_space(c: char) -> bool {
    ('\u{9}' <= c && c <= '\u{d}') || c == ' ' || c == '\u{85}' || c == '\u{a0}' || c == '\u{1680}'
        || ('\u{2000}' <= c && c <= '\u{200a}') || c == '\u{2028}' || c == '\u{2029}' || c == '\u{202f}'
        || c == '\u{205f}' || c == '\u{3000}'
}

/// `t` without leading white space.
pub open spec fn trim_start(t: Seq<char>) -> Seq<char>
    decreases t.len(),
{
    if t.len() > 0 && is_space(t[0]) { trim_start(t.drop_first()) } else { t }
}

/// `t` without trailing white space.
pub open spec fn trim_end(t: Seq<char>) -> Seq<char>
    decreases t.len(),
{
    if t.len() > 0 && is_space(t.last()) { trim_end(t.drop_last()) } else { t }
}

/// The decimal value of a run of ASCII digits.
pub open spec fn digits_value(d: Seq<char>) -> int
    decreases d.len(),
{
    if d.len() == 0 { 0 } else { digits_value(d.drop_last()) * 10 + (d.last() as int - '0' as int) }
}

/// Whether every character of `d` is an ASCII digit.
pub open spec fn all_digits(d: Seq<char>) -> bool {
    forall|i: int| 0 <= i < d.len() ==> '0' <= #[trigger] d[i] && d[i] <= '9'
}

/// The value of the digits `d` with a sign, when they are all ASCII
/// digits, there is at least one, and the value fits in an `i64`.
pub open spec fn parse_digits(d: Seq<char>, neg: bool) -> Option<int> {
    let v = if neg { -digits_value(d) } else { digits_value(d) };
    if d.len() == 0 || !all_digits(d) || v < i64::MIN || v > i64::MAX { None } else { Some(v) }
}

/// The length of a leading `+` or `-`.
pub open spec fn sign_len(t: Seq<char>) -> int {
    if t.len() > 0 && (t[0] == '-' || t[0] == '+') { 1 } else { 0 }
}

/// What `i64`'s `from_str` gives for `t`: an optional `+` or `-`, then one or
/// more ASCII digits, whose value fits in an `i64`.
pub open spec fn parse_int_spec(t: Seq<char>) -> Option<int> {
    parse_digits(t.skip(sign_len(t)), sign_len(t) == 1 && t[0] == '-')
}

proof fn lemma_digits_grow(d: Seq<char>, k: int)
    requires
        0 <= k <= d.len(),
        all_digits(d),
    ensures
        0 <= digits_value(d.take(k)) <= digits_value(d),
    decreases d.len(),
{
    if k < d.len() {
        assert(d.drop_last().take(k) =~= d.take(k));
        assert(all_digits(d.drop_last()));
        lemma_digits_grow(d.drop_last(), k);
    } else {
        assert(d.take(k) =~= d);
        if d.len() > 0 {
            assert(d.drop_last().take(d.len() - 1) =~= d.drop_last());
            assert(all_digits(d.drop_last()));
            lemma_digits_grow(d.drop_last(), d.len() - 1);
        }
    }
}

/// The characters of `text` without surrounding white space.
fn trimmed(text: &str) -> (t: Vec<char>)
    ensures
        t@ == trim_end(trim_start(text@)),
{
    let cs = str_chars(text);
    let mut a: usize = 0;
    assert(text@.skip(0) =~= text@);
    while a < cs.len() && char_is_space(cs[a])
        invariant
            a <= cs@.len(),
            cs@ == text@,
            trim_start(text@) == trim_start(text@.skip(a as int)),
        decreases cs@.len() - a,
    {
        proof { assert(text@.skip(a as int).drop_first() =~= text@.skip(a + 1)); }
        a = a + 1;
    }
    let ghost ts = text@.skip(a as int);
    proof {
        if a < cs@.len() {
            assert(ts[0] == cs@[a as int]);
        }
        assert(trim_start(text@) == ts);
    }
    let mut b: usize = cs.len();
    assert(ts.take(ts.len() as int) =~= ts);
    while b > a && char_is_space(cs[b - 1])
        invariant
            a <= b <= cs@.len(),
            cs@ == text@,
            ts == text@.skip(a as int),
            trim_end(ts) == trim_end(ts.take(b - a)),
        decreases b,
    {
        proof {
            assert(ts.take(b - a).drop_last() =~= ts.take(b - a - 1));
            assert(ts.take(b - a).last() == cs@[b - 1]);
        }
        b = b - 1;
    }
    proof {
        if b > a {
            assert(ts.take(b - a).last() == cs@[b - 1]);
        }
    }
    let mut out: Vec<char> = Vec::new();
    let mut i = a;
    while i < b
        invariant
            a <= i <= b <= cs@.len(),
            out@ == text@.subrange(a as int, i as int),
            cs@ == text@,
        decreases b - i,
    {
        out.push(cs[i]);
        proof { assert(out@ =~= text@.subrange(a as int, i + 1)); }
        i = i + 1;
    }
    assert(out@ =~= ts.take(b - a));
    out
}

/// The signed value of the digits of `t` from `start` on.
fn digit_run(t: &Vec<char>, start: usize, neg: bool) -> (r: Option<i64>)
    requires
        start <= t@.len(),
    ensures
        match parse_digits(t@.skip(start as int), neg) {
            Some(v) => r == Some(v as i64),
            None => r is None,
        },
{
    let ghost d = t@.skip(start as int);
    if start == t.len() {
        return None;
    }
    let mut i = start;
    let mut acc: i128 = 0;
    let limit: i128 = 0x8000_0000_0000_0000;
    while i < t.len()
        invariant
            start <= i <= t@.len(),
            d == t@.skip(start as int),
            0 <= acc <= limit,
            limit == 0x8000_0000_0000_0000,
            all_digits(d.take(i - start)),
            acc == digits_value(d.take(i - start)),
        decreases t@.len() - i,
    {
        let c = t[i];
        if !('0' <= c && c <= '9') {
            proof { assert(d[i - start] == c); }
            return None;
        }
        proof {
            assert(d.take(i + 1 - start).drop_last() =~= d.take(i - start));
            assert(d.take(i + 1 - start).last() == c);
            assert(all_digits(d.take(i + 1 - start)));
        }
        let digit = (c as u32 - '0' as u32) as i128;
        let next = acc * 10 + digit;
        if next > limit {
            proof {
                if all_digits(d) {
                    lemma_digits_grow(d, i + 1 - start);
                }
            }
            return None;
        }
        acc = next;
        i = i + 1;
    }
    proof { assert(d.take(i - start) =~= d); }
    if neg {
        Some((-acc) as i64)
    } else if acc > 0x7fff_ffff_ffff_ffff {
        None
    } else {
        Some(acc as i64)
    }
}

/// The integer that `int(text)` reads: `text` without surrounding white
/// space, parsed as `i64`'s `from_str` does.
pub fn parse_int(text: &str) -> (r: Option<i64>)
    ensures
        match parse_int_spec(trim_end(trim_start(text@))) {
            Some(v) => r == Some(v as i64),
            None => r is None,
        },
{
    let t = trimmed(text);
    if t.len() > 0 && (t[0] == '-' || t[0] == '+') {
        digit_run(&t, 1, t[0] == '-')
    } else {
        digit_run(&t, 0, false)
    }
}

/// Whether `c` is white space, as `char::is_whitespace` says.
fn char_is_space(c: char) -> (b: bool)
    ensures
        b == is_space(c),
{
    ('\u{9}' <= c && c <= '\u{d}') || c == ' ' || c == '\u{85}' || c == '\u{a0}' || c == '\u{1680}'
        || ('\u{2000}' <= c && c <= '\u{200a}') || c == '\u{2028}' || c == '\u{2029}' || c == '\u{202f}'
        || c == '\u{205f}' || c == '\u{3000}'
}

proof fn lemma_digit_char(d: nat)
    requires
        d < 10,
    ensures
        '0' <= digit_char(d) && digit_char(d) <= '9',
        digit_char(d) as int - '0' as int == d,
{
}

proof fn lemma_nat_text_reads_back(n: nat)
    ensures
        all_digits(nat_text(n)),
        nat_text(n).len() > 0,
        digits_value(nat_text(n)) == n,
    decreases n,
{
    if n < 10 {
        lemma_digit_char(n);
        let t = nat_text(n);
        assert(t.drop_last() =~= Seq::<char>::empty());
        assert(digits_value(t.drop_last()) == 0);
        assert(t.last() == digit_char(n));
        assert(digits_value(t) == digits_value(t.drop_last()) * 10 + (t.last() as int - '0' as int));
    } else {
        lemma_nat_text_reads_back(n / 10);
        lemma_digit_char(n % 10);
        let t = nat_text(n);
        assert(t.drop_last() =~= nat_text(n / 10));
        assert(all_digits(t)) by {
            assert forall|i: int| 0 <= i < t.len() implies '0' <= #[trigger] t[i] && t[i] <= '9' by {
                if i < t.len() - 1 {
                    assert(t[i] == nat_text(n / 10)[i]);
                }
            }
        }
        assert(t.last() == digit_char(n % 10));
        assert(digits_value(t) == digits_value(t.drop_last()) * 10 + (t.last() as int - '0' as int));
        assert(digits_value(t) == (n / 10) * 10 + n % 10);
        assert(n == (n / 10) * 10 + n % 10) by (nonlinear_arith);
    }
}

/// Reading back the decimal text of an integer gives the integer: what
/// `print` writes for an `Int`, `int(..)` reads as the same `Int`.
pub proof fn law_int_text_reads_back(n: i64)
    ensures
        parse_int_spec(int_text(n as int)) == Some(n as int),
        parse_int_spec(trim_end(trim_start(int_text(n as int)))) == Some(n as int),
{
    let t = int_text(n as int);
    if n < 0 {
        let m = (-(n as int)) as nat;
        lemma_nat_text_reads_back(m);
        assert(t.skip(1) =~= nat_text(m));
        assert(sign_len(t) == 1);
    } else {
        lemma_nat_text_reads_back(n as nat);
        assert(t.skip(0) =~= t);
        lemma_digit_char(0);
        assert('0' <= t[0] && t[0] <= '9');
        assert(sign_len(t) == 0);
    }
    lemma_text_untrimmed(t);
}

proof fn lemma_text_untrimmed(t: Seq<char>)
    requires
        t.len() > 0,
        t[0] == '-' || ('0' <= t[0] && t[0] <= '9'),
        '0' <= t.last() && t.last() <= '9',
    ensures
        trim_end(trim_start(t)) == t,
{
}

} // verus!
