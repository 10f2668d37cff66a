use orvane::ast::expr::{Arg, BinaryOp, Expr, ExprKind, Literal};
use orvane::ast::item::{DataDecl, FieldDecl, FnDecl, Item, ItemKind, Program};
use orvane::ast::stmt::{AssignOp, Block, Stmt, StmtKind};
use orvane::ast::types::{Pattern, PatternKind, Type, TypeKind};
use orvane::sema::check::{check, Checker};
use orvane::sema::ty::Ty;
use orvane::span::{FileId, Span};

fn sp(a: u32, b: u32) -> Span {
    Span::new(FileId(0), a, b)
}

fn int_lit(v: i64) -> Expr {
    Expr::new(ExprKind::Literal(Literal::Int(v)), sp(0, 1))
}

fn boolean(v: bool) -> Expr {
    Expr::new(ExprKind::Literal(Literal::Bool(v)), sp(0, 1))
}

fn ident(name: &str) -> Expr {
    Expr::new(ExprKind::Ident(name.to_string()), sp(0, 1))
}

fn binary(op: BinaryOp, left: Expr, right: Expr) -> Expr {
    Expr::new(ExprKind::Binary { op, left: Box::new(left), right: Box::new(right) }, sp(0, 1))
}

fn named(name: &str) -> Type {
    Type::new(TypeKind::Named { name: name.to_string(), args: Vec::new() }, sp(0, 1))
}

fn let_stmt(name: &str, ty: Option<Type>, value: Expr) -> Stmt {
    Stmt::new(
        StmtKind::Let {
            pattern: Pattern::new(PatternKind::Bind(name.to_string()), sp(0, 1)),
            mutable: false,
            ty,
            value,
        },
        sp(0, 1),
    )
}

fn main_fn(statements: Vec<Stmt>) -> Program {
    let body = Block { statements, span: sp(0, 1) };
    let decl = FnDecl {
        name: "main".to_string(),
        params: Vec::new(),
        ret: None,
        body,
        public: false,
        signature_span: sp(0, 1),
    };
    Program { items: vec![Item::new(ItemKind::Fn(decl), sp(0, 1))], span: sp(0, 1) }
}

fn codes(program: &Program) -> Vec<&'static str> {
    check(program).diagnostics.iter().map(|d| d.code).collect()
}

#[test]
fn well_typed_let_reports_nothing() {
    let program = main_fn(vec![let_stmt("x", Some(named("Int")), binary(BinaryOp::Add, int_lit(1), int_lit(2)))]);
    let result = check(&program);
    assert!(result.diagnostics.is_empty(), "{:?}", result.diagnostics);
    assert!(!result.has_errors());
}

#[test]
fn annotation_mismatch_is_e0301() {
    let program = main_fn(vec![let_stmt("x", Some(named("Int")), boolean(true))]);
    let result = check(&program);
    assert_eq!(codes(&program), vec!["E0301"]);
    assert_eq!(result.diagnostics[0].message, "expected `Int`, found `Bool`");
    assert!(result.has_errors());
}

#[test]
fn undefined_name_is_e0201_and_does_not_cascade() {
    // `y` is unknown; its `Unknown` type is compatible with `Int`, so the
    // mistake yields exactly one diagnostic.
    let program = main_fn(vec![let_stmt("x", Some(named("Int")), binary(BinaryOp::Add, ident("y"), int_lit(1)))]);
    assert_eq!(codes(&program), vec!["E0201"]);
}

#[test]
fn condition_must_be_bool() {
    let cond = Expr::new(
        ExprKind::If { condition: Box::new(int_lit(1)), then_block: Block::new(sp(0, 1)), else_branch: None },
        sp(0, 1),
    );
    let program = main_fn(vec![Stmt::new(StmtKind::Expr(cond), sp(0, 1))]);
    assert_eq!(codes(&program), vec!["E0312"]);
}

#[test]
fn functions_are_listed_with_their_types() {
    let program = main_fn(Vec::new());
    let result = check(&program);
    let main = result.functions.iter().find(|(name, _)| name == "main").expect("main is listed");
    assert_eq!(main.1.name(), "fn() -> ()");
}

#[test]
fn unknown_is_compatible_both_ways() {
    let checker = Checker::new();
    for t in [Ty::Int, Ty::Str, Ty::List(Box::new(Ty::Bool)), Ty::Optional(Box::new(Ty::Int))] {
        assert!(checker.assignable(&Ty::Unknown, &t));
        assert!(checker.assignable(&t, &Ty::Unknown));
        assert!(checker.assignable(&t, &t));
    }
}

#[test]
fn a_value_widens_to_its_optional() {
    let checker = Checker::new();
    assert!(checker.assignable(&Ty::Optional(Box::new(Ty::Str)), &Ty::Str));
    assert!(!checker.assignable(&Ty::Str, &Ty::Optional(Box::new(Ty::Str))));
    assert!(!checker.assignable(&Ty::Int, &Ty::Str));
    assert!(checker.assignable(
        &Ty::List(Box::new(Ty::Optional(Box::new(Ty::Int)))),
        &Ty::List(Box::new(Ty::Int))
    ));
}

#[test]
fn assigning_to_a_field_of_an_immutable_binding_is_allowed() {
    let user = DataDecl {
        name: "User".to_string(),
        fields: vec![FieldDecl { name: "age".to_string(), ty: named("Int"), default: None, span: sp(0, 1) }],
        public: false,
        span: sp(0, 1),
    };
    let construct = Expr::new(
        ExprKind::Call {
            callee: Box::new(ident("User")),
            args: vec![Arg { name: Some("age".to_string()), value: int_lit(1), span: sp(0, 1) }],
        },
        sp(0, 1),
    );
    let target = Expr::new(ExprKind::Field { receiver: Box::new(ident("u")), name: "age".to_string() }, sp(0, 1));
    let assign = Stmt::new(StmtKind::Assign { target, op: AssignOp::Assign, value: int_lit(2) }, sp(0, 1));
    let mut program = main_fn(vec![let_stmt("u", None, construct), assign]);
    program.items.insert(0, Item::new(ItemKind::Data(user), sp(0, 1)));
    let result = check(&program);
    assert!(result.diagnostics.is_empty(), "{:?}", result.diagnostics);
}

#[test]
fn a_for_loop_gives_its_block_no_type() {
    // `let x: Int = { for i in [1] { i } }`: the block ends in a statement,
    // not an expression, so its type is `()`.
    let body = Block {
        statements: vec![Stmt::new(StmtKind::Expr(ident("i")), sp(0, 1))],
        span: sp(0, 1),
    };
    let for_stmt = Stmt::new(
        StmtKind::For {
            pattern: Pattern::new(PatternKind::Bind("i".to_string()), sp(0, 1)),
            iterable: Expr::new(ExprKind::List(vec![int_lit(1)]), sp(0, 1)),
            body,
        },
        sp(0, 1),
    );
    let block = Expr::new(ExprKind::Block(Block { statements: vec![for_stmt], span: sp(0, 1) }), sp(0, 1));
    let program = main_fn(vec![let_stmt("x", Some(named("Int")), block)]);
    let result = check(&program);
    assert_eq!(codes(&program), vec!["E0301"]);
    assert_eq!(result.diagnostics[0].message, "expected `Int`, found `()`");
}
