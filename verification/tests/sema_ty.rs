#![allow(unused_imports)]

use orvane::ast::types::{Type, TypeKind};
use orvane::sema::ty::{Ty, TypeProblem, resolve_type};
use orvane::span::{FileId, Span};

fn named(name: &str, args: Vec<Type>) -> Type {
    Type::new(
        TypeKind::Named {
            name: name.to_owned(),
            args,
        },
        Span::point(FileId(0), 0),
    )
}

#[test]
fn resolves_primitives() {
    for (name, expected) in [
        ("Int", Ty::Int),
        ("Float", Ty::Float),
        ("Bool", Ty::Bool),
        ("Str", Ty::Str),
        ("Py", Ty::Py),
    ] {
        assert_eq!(resolve_type(&named(name, vec![])), Ok(expected.duplicate()));
    }
}

#[test]
fn resolves_unit_and_tuple() {
    let unit = Type::new(TypeKind::Unit, Span::point(FileId(0), 0));
    assert_eq!(resolve_type(&unit), Ok(Ty::Unit));

    let tuple = Type::new(
        TypeKind::Tuple(vec![named("Int", vec![]), named("Str", vec![])]),
        Span::point(FileId(0), 0),
    );
    assert_eq!(resolve_type(&tuple), Ok(Ty::Tuple(vec![Ty::Int, Ty::Str])));
}

#[test]
fn resolves_containers() {
    assert_eq!(
        resolve_type(&named("List", vec![named("Int", vec![])])),
        Ok(Ty::List(Box::new(Ty::Int)))
    );
    assert_eq!(
        resolve_type(&named(
            "Map",
            vec![named("Str", vec![]), named("Int", vec![])]
        )),
        Ok(Ty::MapOf(Box::new(Ty::Str), Box::new(Ty::Int)))
    );
}

#[test]
fn resolves_optional() {
    let optional = Type::new(
        TypeKind::Optional(Box::new(named("Int", vec![]))),
        Span::point(FileId(0), 0),
    );
    assert_eq!(resolve_type(&optional), Ok(Ty::Optional(Box::new(Ty::Int))));
}

#[test]
fn resolves_fn_type() {
    let fn_ty = Type::new(
        TypeKind::Fn {
            params: vec![named("Int", vec![])],
            ret: Box::new(named("Str", vec![])),
        },
        Span::point(FileId(0), 0),
    );
    assert_eq!(
        resolve_type(&fn_ty),
        Ok(Ty::Fn {
            params: vec![Ty::Int],
            ret: Box::new(Ty::Str),
        })
    );
}

#[test]
fn rejects_wrong_generic_arity() {
    let problem = resolve_type(&named("List", vec![]));
    assert!(matches!(
        problem,
        Err(TypeProblem::WrongArity { ref name, .. }) if name == "List"
    ));
}

#[test]
fn rejects_generics_on_user_types() {
    let problem = resolve_type(&named("Box", vec![named("Int", vec![])]));
    assert!(matches!(
        problem,
        Err(TypeProblem::GenericsUnsupported { .. })
    ));
}

#[test]
fn unknown_is_compatible_and_named() {
    assert!(Ty::Unknown.is_unknown());
    assert_eq!(Ty::Unknown.name(), "?");
    assert!(Ty::Bool.is_bool());
    assert!(Ty::Int.is_numeric());
    assert!(!Ty::Str.is_numeric());
}

#[test]
fn display_is_stable() {
    assert_eq!(Ty::List(Box::new(Ty::Int)).name(), "List<Int>");
    assert_eq!(
        Ty::MapOf(Box::new(Ty::Str), Box::new(Ty::Bool)).name(),
        "Map<Str, Bool>"
    );
    assert_eq!(Ty::Optional(Box::new(Ty::Int)).name(), "Int?");
    assert_eq!(
        Ty::Fn {
            params: vec![Ty::Int],
            ret: Box::new(Ty::Str)
        }
        .name(),
        "fn(Int) -> Str"
    );
}
