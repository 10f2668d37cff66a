use orvane::lexer::FloatValue;
use orvane::runtime::builtins::{assert_holds, err, len, ok, print_line, range, to_str};
use orvane::runtime::calls::{finish_call, start_call, CallStart, Callable, Callee, Control, MAX_CALL_DEPTH};
use orvane::runtime::failure::{Failure, FailureKind};
use orvane::runtime::value::MapKey;
use orvane::runtime::values::{display, map_get, map_insert, repr, Value};
use orvane::span::{FileId, Span};

fn sp() -> Span {
    Span::new(FileId(0), 1, 2)
}

fn float(v: f64) -> Value {
    Value::Float(FloatValue { bits: v.to_bits(), display: format!("{v}") })
}

fn s(text: &str) -> Value {
    Value::Str(text.to_string())
}

fn data(name: &str, fields: Vec<(&str, Value)>) -> Value {
    Value::Data { name: name.to_string(), fields: fields.into_iter().map(|(n, v)| (n.to_string(), v)).collect() }
}

fn map(pairs: Vec<(MapKey, Value)>) -> Value {
    let mut es = Vec::new();
    for (k, v) in pairs {
        map_insert(&mut es, k, v);
    }
    Value::MapOf(es)
}

#[test]
fn ints_and_floats_compare_numerically() {
    assert!(Value::Int(1).equals(&float(1.0)));
    assert!(float(1.0).equals(&Value::Int(1)));
    assert!(!Value::Int(1).equals(&float(1.5)));
    assert!(Value::Int(-3).equals(&float(-3.0)));
    assert!(Value::Int(0).equals(&float(-0.0)));
    assert!(Value::Int(1 << 40).equals(&float((1u64 << 40) as f64)));
    assert!(!Value::Int(1).equals(&float(f64::NAN)));
    assert!(!Value::Int(i64::MAX).equals(&float(f64::INFINITY)));
}

#[test]
fn floats_compare_as_doubles() {
    assert!(float(0.0).equals(&float(-0.0)));
    assert!(!float(f64::NAN).equals(&float(f64::NAN)));
    assert!(float(2.5).equals(&float(2.5)));
    assert!(!float(2.5).equals(&float(2.25)));
}

#[test]
fn lists_compare_structurally_not_by_identity() {
    let a = Value::List(vec![Value::Int(1), Value::Int(2)]);
    let b = Value::List(vec![Value::Int(1), Value::Int(2)]);
    assert!(a.equals(&b));
    assert!(!a.equals(&Value::List(vec![Value::Int(1)])));
}

#[test]
fn maps_compare_regardless_of_insertion_order() {
    let a = map(vec![(MapKey::Str("a".into()), Value::Int(1)), (MapKey::Str("b".into()), Value::Int(2))]);
    let b = map(vec![(MapKey::Str("b".into()), Value::Int(2)), (MapKey::Str("a".into()), Value::Int(1))]);
    assert!(a.equals(&b));
}

#[test]
fn maps_preserve_insertion_order_for_display() {
    let m = map(vec![(MapKey::Str("z".into()), Value::Int(1)), (MapKey::Str("a".into()), Value::Int(2))]);
    assert_eq!(display(&m), "#{\"z\": 1, \"a\": 2}");
}

#[test]
fn map_insert_keeps_the_original_position() {
    let mut es = Vec::new();
    map_insert(&mut es, MapKey::Str("a".into()), Value::Int(1));
    map_insert(&mut es, MapKey::Str("b".into()), Value::Int(2));
    map_insert(&mut es, MapKey::Str("a".into()), Value::Int(3));
    assert_eq!(es.len(), 2);
    assert_eq!(es[0].0, MapKey::Str("a".into()));
    assert!(map_get(&es, &MapKey::Str("a".into())).unwrap().equals(&Value::Int(3)));
    assert!(map_get(&es, &MapKey::Int(1)).is_none());
}

#[test]
fn tuples_and_variants_compare_structurally() {
    let a = Value::Tuple(vec![Value::Int(1), s("x")]);
    let b = Value::Tuple(vec![Value::Int(1), s("x")]);
    assert!(a.equals(&b));
    let c = Value::Variant { enum_name: "E".into(), variant: "A".into(), payload: vec![Value::Int(1)] };
    let d = Value::Variant { enum_name: "E".into(), variant: "A".into(), payload: vec![Value::Int(1)] };
    assert!(c.equals(&d));
}

#[test]
fn data_equality_uses_field_names_and_values() {
    let a = data("U", vec![("name", s("x"))]);
    let b = data("U", vec![("name", s("x"))]);
    assert!(a.equals(&b));
    assert!(!a.equals(&data("U", vec![("nick", s("x"))])));
}

#[test]
fn display_quotes_strings_inside_aggregates() {
    let list = Value::List(vec![s("a"), Value::Int(1)]);
    assert_eq!(display(&list), "[\"a\", 1]");
    assert_eq!(display(&s("a")), "a");
    assert_eq!(repr(&s("a")), "\"a\"");
}

#[test]
fn display_of_a_data_matches_the_spec_example() {
    let user = data("User", vec![("name", s("Mel")), ("age", Value::Int(30)), ("email", Value::NoneLit)]);
    assert_eq!(display(&user), "User(name: \"Mel\", age: 30, email: none)");
}

#[test]
fn floats_display_with_a_decimal_point() {
    assert_eq!(display(&float(1.0)), "1.0");
    assert_eq!(display(&float(1.5)), "1.5");
    assert_eq!(display(&float(f64::INFINITY)), "inf");
    assert_eq!(display(&float(f64::NAN)), "NaN");
}

#[test]
fn aggregates_display_their_shapes() {
    assert_eq!(display(&Value::Tuple(vec![Value::Int(1)])), "(1,)");
    assert_eq!(display(&Value::Tuple(vec![Value::Int(1), Value::Bool(false)])), "(1, false)");
    assert_eq!(display(&Value::Variant { enum_name: "E".into(), variant: "B".into(), payload: vec![] }), "B");
    assert_eq!(display(&Value::Function { name: "f".into(), id: 7 }), "<fn f>");
    assert_eq!(display(&Value::Unit), "()");
    assert_eq!(display(&map(vec![(MapKey::Int(2), Value::Bool(true))])), "#{2: true}");
}

#[test]
fn map_keys_reject_unsupported_values() {
    assert!(MapKey::from_value(&Value::Int(1)).is_some());
    assert!(MapKey::from_value(&s("a")).is_some());
    assert!(MapKey::from_value(&Value::Bool(true)).is_some());
    assert!(MapKey::from_value(&Value::List(vec![])).is_none());
}

#[test]
fn key_round_trips_through_value() {
    for key in [MapKey::Int(1), MapKey::Str("a".into()), MapKey::Bool(false)] {
        assert_eq!(MapKey::from_value(&key.to_value()), Some(key));
    }
}

#[test]
fn map_keys_display_in_a_stable_way() {
    assert_eq!(display(&MapKey::Int(1).to_value()), "1");
    assert_eq!(display(&MapKey::Str("a".into()).to_value()), "a");
    assert_eq!(display(&MapKey::Bool(true).to_value()), "true");
}

#[test]
fn values_report_their_types() {
    assert_eq!(Value::List(vec![Value::Int(1)]).ty().name(), "List<Int>");
    assert_eq!(Value::List(vec![]).ty().name(), "List<?>");
    assert_eq!(Value::Tuple(vec![Value::Int(1), s("a")]).ty().name(), "(Int, Str)");
    assert_eq!(map(vec![(MapKey::Str("k".into()), float(1.0))]).ty().name(), "Map<Str, Float>");
}

#[test]
fn len_counts_chars_lists_and_maps() {
    assert!(len(&vec![s("abc")], sp()).unwrap().equals(&Value::Int(3)));
    assert!(len(&vec![s("áéí")], sp()).unwrap().equals(&Value::Int(3)));
    assert!(len(&vec![Value::List(vec![Value::Int(1), Value::Int(2)])], sp()).unwrap().equals(&Value::Int(2)));
}

#[test]
fn len_rejects_non_collections() {
    let failure = len(&vec![Value::Int(1)], sp()).unwrap_err();
    assert_eq!(failure.message, "`len` expects Int");
    let failure = len(&vec![], sp()).unwrap_err();
    assert_eq!(failure.message, "`len` takes 1 argument(s) but 0 were given");
}

#[test]
fn range_is_exclusive() {
    let r = range(&vec![Value::Int(1), Value::Int(4)], sp()).unwrap();
    assert!(r.equals(&Value::List(vec![Value::Int(1), Value::Int(2), Value::Int(3)])));
}

#[test]
fn range_of_an_empty_span_is_empty() {
    let r = range(&vec![Value::Int(3), Value::Int(3)], sp()).unwrap();
    assert!(r.equals(&Value::List(vec![])));
    assert_eq!(range(&vec![Value::Int(3)], sp()).unwrap_err().message, "`range` takes 2 argument(s) but 1 were given");
    assert_eq!(range(&vec![Value::Int(3), s("x")], sp()).unwrap_err().message, "`range` expects Int, Int");
}

#[test]
fn str_renders_values() {
    assert!(to_str(&vec![Value::Int(42)]).unwrap().equals(&s("42")));
    assert!(to_str(&vec![float(1.0)]).unwrap().equals(&s("1.0")));
    assert!(to_str(&vec![Value::Bool(true)]).unwrap().equals(&s("true")));
}

#[test]
fn assert_passes_and_fails() {
    assert!(assert_holds(&vec![Value::Bool(true)], sp()).unwrap().equals(&Value::Unit));
    let failure = assert_holds(&vec![Value::Bool(false)], sp()).unwrap_err();
    assert_eq!(failure.kind, FailureKind::AssertionFailed);
    assert_eq!(failure.message, "assertion failed");
}

#[test]
fn ok_and_err_build_results() {
    let r = ok(vec![Value::Int(1)]).unwrap();
    assert!(matches!(&r, Value::Result { ok: true, value, .. } if value.equals(&Value::Int(1))));
    let e = err(&vec![s("boom")], sp()).unwrap();
    assert!(matches!(&e, Value::Result { ok: false, failure: Some(f), .. } if f.message == "boom"));
    let e = err(&vec![data("Oops", vec![("code", Value::Int(1)), ("message", s("bad"))])], sp()).unwrap();
    assert!(matches!(&e, Value::Result { ok: false, failure: Some(f), .. } if f.message == "bad"));
    assert_eq!(display(&e), "Err(Failure(kind: \"Unsupported\", message: \"bad\"))");
}

#[test]
fn print_writes_a_line() {
    assert_eq!(print_line(&vec![s("hi")]).unwrap(), "hi\n");
}

#[test]
fn calls_check_arity_depth_and_constructors() {
    let f = Callee { name: "f".into(), arity: 1, callable: Callable::Body };
    match start_call(&f, vec![], 0, sp()) {
        CallStart::Fail(e) => assert_eq!(e.message, "`f` takes 1 argument(s) but 0 were given"),
        _ => panic!("wrong arity must fail"),
    }
    match start_call(&f, vec![Value::Int(1)], MAX_CALL_DEPTH, sp()) {
        CallStart::Fail(e) => {
            assert_eq!(e.kind, FailureKind::StackOverflow);
            assert_eq!(e.message, "call depth exceeded 48 (possible infinite recursion)");
        },
        _ => panic!("the depth limit must fail"),
    }
    match start_call(&f, vec![Value::Int(1)], 3, sp()) {
        CallStart::Enter { args, frame, depth } => {
            assert_eq!(args.len(), 1);
            assert_eq!(frame.function, "f");
            assert_eq!(depth, 4);
        },
        _ => panic!("a call under the limit enters its body"),
    }
    let some = Callee { name: "Some".into(), arity: 1, callable: Callable::Constructor { enum_name: "Opt".into(), variant: "Some".into() } };
    match start_call(&some, vec![Value::Int(2)], MAX_CALL_DEPTH, sp()) {
        CallStart::Done(v) => assert_eq!(display(&v), "Some(2)"),
        _ => panic!("a constructor builds its variant"),
    }
    let print = Callee { name: "print".into(), arity: 1, callable: Callable::Body };
    assert!(matches!(start_call(&print, vec![Value::Unit], 0, sp()), CallStart::Builtin(_)));
}

#[test]
fn finishing_a_call_restores_depth_and_confines_control_flow() {
    let (r, d) = finish_call(Ok(Control::Return(Value::Int(5))), false, 4, sp());
    assert!(r.unwrap().equals(&Value::Int(5)));
    assert_eq!(d, 3);
    let (r, _) = finish_call(Ok(Control::Value(Value::Unit)), true, 1, sp());
    assert_eq!(r.unwrap_err().message, "`break` or `continue` cannot leave the function that contains it");
    let (r, _) = finish_call(Ok(Control::Break), false, 1, sp());
    assert_eq!(r.unwrap_err().message, "`break` or `continue` outside a loop");
    let boom = Failure::new(FailureKind::Overflow, "boom", sp());
    let (r, d) = finish_call(Err(boom), false, 0, sp());
    assert_eq!(r.unwrap_err().message, "boom");
    assert_eq!(d, 0);
}
