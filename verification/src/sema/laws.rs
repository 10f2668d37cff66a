//! What the type checker's compatibility rules promise for every type.
use vstd::prelude::*;
use crate::span::Span;
use super::model::{CheckerV, assignable_spec, binary_spec, numeric_spec, unify_spec};
use crate::ast::expr::BinaryOp;
use super::ty::{TyV, names_of, resolve_all_spec, resolve_spec, resolve_named_spec, ty_name};
use crate::ast::types::{Type, TypeKind};
use crate::ast_dump::{type_text_spec, types_text_spec};

verus! {

/// `Unknown` is compatible with every type in both directions, so a
/// sub-expression that already failed never causes a second mismatch.
pub proof fn law_unknown_is_compatible(t: TyV)
    ensures
        assignable_spec(TyV::Unknown, t),
        assignable_spec(t, TyV::Unknown),
{
}

/// Every type accepts a value of itself.
pub proof fn law_assignable_reflexive(t: TyV)
    ensures
        assignable_spec(t, t),
{
}

/// A value that may be used where `e` is needed may also be used where `e?`
/// is needed (`let x: Str? = "a"` is a widening, not a mismatch).
pub proof fn law_optional_widening(e: TyV, f: TyV)
    requires
        assignable_spec(e, f),
        !(f is Optional),
    ensures
        assignable_spec(TyV::Optional(Box::new(e)), f),
{
}

/// Joining two branch types that agree, or one that is `Unknown`, yields the
/// other type and reports nothing.
pub proof fn law_unify_without_conflict(s: CheckerV, t: TyV, span: Span)
    ensures
        unify_spec(s, t, t, span) == (s, t),
        unify_spec(s, TyV::Unknown, t, span) == (s, t),
        unify_spec(s, t, TyV::Unknown, span) == (s, t),
{
}


/// Whether no named type inside `t` is `Result` (whose name carries the
/// error type, `Result<T, Failure>`, that the annotation does not spell).
pub open spec fn result_free(t: Type) -> bool
    decreases t,
{
    match t.kind {
        TypeKind::Named { name, args } => name@ != "Result"@ && results_free(args@),
        TypeKind::Optional(inner) => result_free(*inner),
        TypeKind::Tuple(elements) => results_free(elements@),
        TypeKind::Fn { params, ret } => results_free(params@) && result_free(*ret),
        _ => true,
    }
}

/// Whether every type of `ts` is [`result_free`].
pub open spec fn results_free(ts: Seq<Type>) -> bool
    decreases ts,
{
    if ts.len() == 0 {
        true
    } else {
        results_free(ts.drop_last()) && result_free(ts.last())
    }
}

/// The spelling of a type annotation is the name of the type it resolves
/// to, `Result` aside: `List<Int>`, `Map<Str, Bool>`, `Int?`, `(Int, Str)`,
/// `fn(Int) -> Str`, `()` and `Py` read the same in both.
pub proof fn law_type_text_is_name(t: Type)
    requires
        result_free(t),
        resolve_spec(t) is Ok,
    ensures
        type_text_spec(t) == ty_name(resolve_spec(t)->Ok_0),
    decreases t,
{
    reveal_strlit("Int");
    reveal_strlit("Float");
    reveal_strlit("Bool");
    reveal_strlit("Str");
    reveal_strlit("Py");
    reveal_strlit("Failure");
    reveal_strlit("List");
    reveal_strlit("Map");
    reveal_strlit("Result");
    reveal_strlit("<");
    reveal_strlit(">");
    reveal_strlit(", ");
    reveal_strlit("List<");
    reveal_strlit("Map<");
    match t.kind {
        TypeKind::Named { name, args } => {
            let n = args@.len();
            assert(resolve_spec(t) == resolve_named_spec(name@, args@, t.span));
            assert(results_free(args@));
            if name@ == "List"@ && n == 1 {
                assert(args@.last() == args@[0]);
                assert(result_free(args@.last()));
                assert(resolve_spec(args@[0]) is Ok);
                law_type_text_is_name(args@[0]);
                assert(args@.drop_last().len() == 0);
                assert("List"@ + "<"@ =~= "List<"@);
                assert(types_text_spec(args@) == type_text_spec(args@[0]));
                assert(type_text_spec(t) == ty_name(resolve_spec(t)->Ok_0));
            } else if name@ == "Map"@ && n == 2 {
                assert(args@.drop_last().len() == 1);
                assert(args@.drop_last()[0] == args@[0]);
                assert(args@.drop_last().drop_last().len() == 0);
                assert(args@.last() == args@[1]);
                assert(args@.drop_last().last() == args@[0]);
                assert(result_free(args@.last()));
                assert(results_free(args@.drop_last()));
                assert(result_free(args@.drop_last().last()));
                assert(resolve_spec(args@[0]) is Ok);
                assert(resolve_spec(args@[1]) is Ok);
                law_type_text_is_name(args@[0]);
                law_type_text_is_name(args@[1]);
                assert("Map"@ + "<"@ =~= "Map<"@);
                let x0 = type_text_spec(args@[0]);
                let x1 = type_text_spec(args@[1]);
                assert(args@.drop_last()[0] == args@[0]);
                assert(types_text_spec(args@.drop_last()) == x0);
                assert(types_text_spec(args@) == x0 + ", "@ + x1);
                assert("Map"@ + "<"@ + (x0 + ", "@ + x1) + ">"@ =~= "Map<"@ + x0 + ", "@ + x1 + ">"@);
                assert(type_text_spec(t) == ty_name(resolve_spec(t)->Ok_0));
            } else {
                assert(n == 0);
                assert(type_text_spec(t) == ty_name(resolve_spec(t)->Ok_0));
            }
        },
        TypeKind::Optional(inner) => {
            law_type_text_is_name(*inner);
        },
        TypeKind::Tuple(elements) => {
            lemma_texts_are_names(elements@);
        },
        TypeKind::Fn { params, ret } => {
            lemma_texts_are_names(params@);
            law_type_text_is_name(*ret);
        },
        _ => {},
    }
}

proof fn lemma_texts_are_names(ts: Seq<Type>)
    requires
        results_free(ts),
        resolve_all_spec(ts) is Ok,
    ensures
        types_text_spec(ts) == names_of(resolve_all_spec(ts)->Ok_0),
    decreases ts,
{
    if ts.len() > 0 {
        lemma_texts_are_names(ts.drop_last());
        law_type_text_is_name(ts.last());
        let vs = resolve_all_spec(ts)->Ok_0;
        let v0 = resolve_all_spec(ts.drop_last())->Ok_0;
        assert(vs == v0.push(resolve_spec(ts.last())->Ok_0));
        assert(vs.drop_last() =~= v0);
        if ts.len() == 1 {
            assert(ts.drop_last().len() == 0);
            assert(ts[0] == ts.last());
        }
    }
}

/// Arithmetic typing does not depend on the order of the operands: swapping
/// them gives the same result type.
pub proof fn law_numeric_symmetric(s: CheckerV, l: TyV, r: TyV, span: Span)
    ensures
        numeric_spec(s, l, r, span).1 == numeric_spec(s, r, l, span).1,
{
}

/// Two numbers combine to a `Float` exactly when one of them is a `Float`
/// (an `Int` is promoted), and to an `Int` otherwise, with no diagnostic.
pub proof fn law_numeric_promotes(s: CheckerV, l: TyV, r: TyV, span: Span)
    requires
        l is Int || l is Float,
        r is Int || r is Float,
    ensures
        numeric_spec(s, l, r, span).0 == s,
        numeric_spec(s, l, r, span).1 is Float <==> (l is Float || r is Float),
        numeric_spec(s, l, r, span).1 is Int <==> (l is Int && r is Int),
{
}

/// Comparisons, equality and `and`/`or` are typed `Bool`, and a range is a
/// list of `Int`, whatever the operand types.
pub proof fn law_operator_result_types(s: CheckerV, l: TyV, r: TyV, span: Span)
    ensures
        binary_spec(s, BinaryOp::Lt, l, r, span).1 == TyV::Bool,
        binary_spec(s, BinaryOp::Le, l, r, span).1 == TyV::Bool,
        binary_spec(s, BinaryOp::Gt, l, r, span).1 == TyV::Bool,
        binary_spec(s, BinaryOp::Ge, l, r, span).1 == TyV::Bool,
        binary_spec(s, BinaryOp::Eq, l, r, span).1 == TyV::Bool,
        binary_spec(s, BinaryOp::NotEq, l, r, span).1 == TyV::Bool,
        binary_spec(s, BinaryOp::And, l, r, span).1 == TyV::Bool,
        binary_spec(s, BinaryOp::Or, l, r, span).1 == TyV::Bool,
        binary_spec(s, BinaryOp::Range, l, r, span).1 == TyV::List(Box::new(TyV::Int)),
{
}

/// `-`, `*`, `/` and `%` type like `+` on numbers: the operator does not
/// change the result type, only the operand types do.
pub proof fn law_arith_operators_agree(s: CheckerV, l: TyV, r: TyV, span: Span)
    requires
        l is Int || l is Float,
        r is Int || r is Float,
    ensures
        binary_spec(s, BinaryOp::Sub, l, r, span) == binary_spec(s, BinaryOp::Add, l, r, span),
        binary_spec(s, BinaryOp::Mul, l, r, span) == binary_spec(s, BinaryOp::Add, l, r, span),
        binary_spec(s, BinaryOp::Div, l, r, span) == binary_spec(s, BinaryOp::Add, l, r, span),
        binary_spec(s, BinaryOp::Rem, l, r, span) == binary_spec(s, BinaryOp::Add, l, r, span),
        binary_spec(s, BinaryOp::Add, l, r, span).1 == binary_spec(s, BinaryOp::Add, r, l, span).1,
{
}

} // verus!
