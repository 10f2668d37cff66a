use orvane::ast::expr::BinaryOp;
use orvane::runtime::failure::FailureKind;
use orvane::runtime::ops::{int_binary, int_range, normalize_index, range_values};
use orvane::runtime::value::MapKey;
use orvane::sema::ty::Ty;
use orvane::span::{FileId, Span};

fn sp() -> Span {
    Span::new(FileId(0), 3, 7)
}

#[test]
fn int_arithmetic_gives_exact_results() {
    assert_eq!(int_binary(BinaryOp::Add, 2, 3, sp()).unwrap(), 5);
    assert_eq!(int_binary(BinaryOp::Sub, 2, 3, sp()).unwrap(), -1);
    assert_eq!(int_binary(BinaryOp::Mul, -4, 3, sp()).unwrap(), -12);
    // Division truncates toward zero; the remainder has the dividend's sign.
    assert_eq!(int_binary(BinaryOp::Div, -7, 2, sp()).unwrap(), -3);
    assert_eq!(int_binary(BinaryOp::Rem, -7, 2, sp()).unwrap(), -1);
    assert_eq!(int_binary(BinaryOp::Rem, 7, -2, sp()).unwrap(), 1);
}

#[test]
fn division_by_zero_is_a_failure() {
    let failure = int_binary(BinaryOp::Div, 1, 0, sp()).unwrap_err();
    assert_eq!(failure.kind, FailureKind::DivisionByZero);
    assert_eq!(failure.message, "division by zero");
    assert_eq!(failure.span, sp());
    let failure = int_binary(BinaryOp::Rem, 1, 0, sp()).unwrap_err();
    assert_eq!(failure.kind, FailureKind::DivisionByZero);
}

#[test]
fn overflow_is_a_failure_not_a_wrap() {
    let failure = int_binary(BinaryOp::Add, i64::MAX, 1, sp()).unwrap_err();
    assert_eq!(failure.kind, FailureKind::Overflow);
    assert_eq!(failure.message, "integer overflow in `+`");
    let failure = int_binary(BinaryOp::Div, i64::MIN, -1, sp()).unwrap_err();
    assert_eq!(failure.kind, FailureKind::Overflow);
    assert_eq!(failure.message, "integer overflow in `/`");
    assert!(failure.trace.is_empty());
}

#[test]
fn negative_indices_count_from_the_end() {
    assert_eq!(normalize_index(0, 3), Some(0));
    assert_eq!(normalize_index(-1, 3), Some(2));
    assert_eq!(normalize_index(-3, 3), Some(0));
    assert_eq!(normalize_index(-4, 3), None);
    assert_eq!(normalize_index(3, 3), None);
    assert_eq!(normalize_index(0, 0), None);
}

#[test]
fn ranges_hold_the_expected_values() {
    assert_eq!(int_range(1, 4, false), vec![1, 2, 3]);
    assert_eq!(int_range(1, 4, true), vec![1, 2, 3, 4]);
    assert_eq!(int_range(4, 1, false), Vec::<i64>::new());
    assert_eq!(int_range(i64::MAX - 1, i64::MAX, true), vec![i64::MAX - 1, i64::MAX]);
    assert_eq!(range_values(-2, 1), vec![-2, -1, 0]);
    assert_eq!(range_values(3, 3), Vec::<i64>::new());
}

#[test]
fn map_keys_print_as_their_values() {
    assert_eq!(MapKey::Int(-42).text(), "-42");
    assert_eq!(MapKey::Int(i64::MIN).text(), "-9223372036854775808");
    assert_eq!(MapKey::Str("a b".to_string()).text(), "a b");
    assert_eq!(MapKey::Bool(true).text(), "true");
    assert_eq!(MapKey::Bool(false).text(), "false");
}

#[test]
fn map_keys_have_their_scalar_types() {
    assert!(matches!(MapKey::Int(1).ty(), Ty::Int));
    assert!(matches!(MapKey::Str(String::new()).ty(), Ty::Str));
    assert!(matches!(MapKey::Bool(false).ty(), Ty::Bool));
}
