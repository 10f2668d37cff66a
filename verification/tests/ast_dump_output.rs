use orvane::ast::expr::{BinaryOp, Expr, ExprKind, Literal};
use orvane::ast::item::{FnDecl, Item, ItemKind, Param, Program};
use orvane::ast::stmt::{Block, Stmt, StmtKind};
use orvane::ast::types::{Pattern, PatternKind, Type, TypeKind};
use orvane::ast_dump::{dump_program, type_text};
use orvane::span::{FileId, Span};

fn sp() -> Span {
    Span::new(FileId(0), 0, 1)
}

fn named(name: &str, args: Vec<Type>) -> Type {
    Type::new(TypeKind::Named { name: name.to_string(), args }, sp())
}

#[test]
fn type_text_spells_every_form() {
    assert_eq!(type_text(&named("Int", Vec::new())), "Int");
    assert_eq!(
        type_text(&named("Map", vec![named("Str", Vec::new()), named("List", vec![named("Int", Vec::new())])])),
        "Map<Str, List<Int>>"
    );
    assert_eq!(type_text(&Type::new(TypeKind::Optional(Box::new(named("Str", Vec::new()))), sp())), "Str?");
    assert_eq!(type_text(&Type::new(TypeKind::Unit, sp())), "()");
    assert_eq!(
        type_text(&Type::new(TypeKind::Tuple(vec![named("Int", Vec::new()), named("Bool", Vec::new())]), sp())),
        "(Int, Bool)"
    );
    assert_eq!(
        type_text(&Type::new(
            TypeKind::Fn { params: vec![named("Int", Vec::new())], ret: Box::new(Type::new(TypeKind::Unit, sp())) },
            sp()
        )),
        "fn(Int) -> ()"
    );
    assert_eq!(type_text(&Type::new(TypeKind::Py, sp())), "Py");
}

#[test]
fn dump_program_indents_by_depth() {
    let value = Expr::new(
        ExprKind::Binary {
            op: BinaryOp::Add,
            left: Box::new(Expr::new(ExprKind::Ident("a".to_string()), sp())),
            right: Box::new(Expr::new(ExprKind::Literal(Literal::Int(1)), sp())),
        },
        sp(),
    );
    let stmt = Stmt::new(
        StmtKind::Let {
            pattern: Pattern::new(PatternKind::Bind("x".to_string()), sp()),
            mutable: true,
            ty: Some(named("Int", Vec::new())),
            value,
        },
        sp(),
    );
    let decl = FnDecl {
        name: "f".to_string(),
        params: vec![Param { name: "a".to_string(), ty: named("Int", Vec::new()), default: None, span: sp() }],
        ret: Some(named("Int", Vec::new())),
        body: Block { statements: vec![stmt], span: sp() },
        public: true,
        signature_span: sp(),
    };
    let program = Program { items: vec![Item::new(ItemKind::Fn(decl), sp())], span: sp() };
    assert_eq!(
        dump_program(&program),
        "pub Fn f\n  Param a: Int\n  ret Int\n  Block\n    Let mut x: Int =\n      Binary +\n        Ident a\n        Literal 1\n"
    );
}

#[test]
fn empty_program_dumps_nothing() {
    let program = Program { items: Vec::new(), span: sp() };
    assert_eq!(dump_program(&program), "");
}
