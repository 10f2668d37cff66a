use orvane::ast::{Arg, AssignOp, BinaryOp, Block, DataDecl, EnumDecl, Expr, ExprKind, FieldDecl, FnDecl, Item, ItemKind, Literal,
    MatchArm, Param, Pattern, PatternKind, VariantDecl, Program, Stmt, StmtKind, StrSegment, Type, TypeKind, UnaryOp};
use orvane::lexer::FloatValue;
use orvane::runtime::failure::FailureKind;
use orvane::runtime::interp::{run_with, FloatAnswer, FloatKind, FloatOp, Interpreter, Num, Session, Step, Stop};
use orvane::runtime::values::{display, Value};
use orvane::span::{FileId, Span};

fn sp() -> Span {
    Span::new(FileId(0), 3, 4)
}

fn fv(v: f64) -> FloatValue {
    FloatValue { bits: v.to_bits(), display: format!("{v}") }
}

fn num(n: Num) -> f64 {
    match n {
        Num::Int(x) => x as f64,
        Num::Float(b) => f64::from_bits(b),
    }
}

/// Computes a double operation the way the caller of a session does.
fn answer(op: &FloatOp) -> FloatAnswer {
    let a = num(op.a);
    let b = num(op.b);
    match op.kind {
        FloatKind::Arith(o) => {
            if matches!(o, BinaryOp::Div | BinaryOp::Rem) && b == 0.0 {
                return FloatAnswer::ZeroDivisor;
            }
            let v = match o {
                BinaryOp::Add => a + b,
                BinaryOp::Sub => a - b,
                BinaryOp::Mul => a * b,
                BinaryOp::Div => a / b,
                _ => a % b,
            };
            FloatAnswer::Float(fv(v))
        }
        FloatKind::Compare => {
            let o: i8 = if a < b {
                -1
            } else if a > b {
                1
            } else if a == b {
                0
            } else {
                2
            };
            FloatAnswer::Order(o)
        }
        FloatKind::Neg => FloatAnswer::Float(fv(-a)),
        FloatKind::Convert => FloatAnswer::Float(fv(a)),
        FloatKind::ToInt => FloatAnswer::Int(a as i64),
    }
}

fn e(kind: ExprKind) -> Expr {
    Expr::new(kind, sp())
}

fn ilit(x: i64) -> Expr {
    e(ExprKind::Literal(Literal::Int(x)))
}

fn float(x: f64) -> Expr {
    e(ExprKind::Literal(Literal::Float(fv(x))))
}

fn boolean(b: bool) -> Expr {
    e(ExprKind::Literal(Literal::Bool(b)))
}

fn text(t: &str) -> Expr {
    e(ExprKind::Literal(Literal::Str(vec![StrSegment::Lit(t.to_string())])))
}

fn name(n: &str) -> Expr {
    e(ExprKind::Ident(n.to_string()))
}

fn bin(op: BinaryOp, l: Expr, r: Expr) -> Expr {
    e(ExprKind::Binary { op, left: Box::new(l), right: Box::new(r) })
}

fn call(f: &str, args: Vec<Expr>) -> Expr {
    let args = args.into_iter().map(|value| Arg { name: None, value, span: sp() }).collect();
    e(ExprKind::Call { callee: Box::new(name(f)), args })
}

fn block(stmts: Vec<Stmt>) -> Block {
    Block { statements: stmts, span: sp() }
}

fn st(kind: StmtKind) -> Stmt {
    Stmt::new(kind, sp())
}

fn bind(n: &str) -> Pattern {
    Pattern::new(PatternKind::Bind(n.to_string()), sp())
}

fn let_(n: &str, mutable: bool, value: Expr) -> Stmt {
    st(StmtKind::Let { pattern: bind(n), mutable, ty: None, value })
}

fn set(n: &str, op: AssignOp, value: Expr) -> Stmt {
    st(StmtKind::Assign { target: name(n), op, value })
}

fn print(x: Expr) -> Stmt {
    st(StmtKind::Expr(call("print", vec![x])))
}

fn if_(cond: Expr, then: Vec<Stmt>, otherwise: Option<Vec<Stmt>>) -> Expr {
    e(ExprKind::If {
        condition: Box::new(cond),
        then_block: block(then),
        else_branch: otherwise.map(|b| Box::new(e(ExprKind::Block(block(b))))),
    })
}

fn func(n: &str, params: &[&str], body: Vec<Stmt>) -> Item {
    let params = params
        .iter()
        .map(|p| Param {
            name: p.to_string(),
            ty: Type::new(TypeKind::Named { name: "Int".to_string(), args: vec![] }, sp()),
            default: None,
            span: sp(),
        })
        .collect();
    Item::new(
        ItemKind::Fn(FnDecl { name: n.to_string(), params, ret: None, body: block(body), public: false, signature_span: sp() }),
        sp(),
    )
}

fn program(items: Vec<Item>) -> Program {
    Program { items, span: sp() }
}

fn main_only(body: Vec<Stmt>) -> Program {
    program(vec![func("main", &[], body)])
}

/// Runs a program to the end, answering each double operation it asks for.
fn run(p: &Program) -> (String, Result<Value, (FailureKind, String)>) {
    let mut session = Session::new(100_000);
    let mut step = session.start(p);
    loop {
        match step {
            Step::NeedFloat(op) => step = session.resume(p, answer(&op)),
            Step::Done { output, result } => return (output, result.map_err(|f| (f.kind, f.message))),
            Step::OutOfFuel => panic!("out of fuel"),
        }
    }
}

fn output_of(p: &Program) -> String {
    let (out, result) = run(p);
    assert!(result.is_ok(), "unexpected failure: {:?}", result.err());
    out
}

fn failure_of(p: &Program) -> (FailureKind, String) {
    match run(p).1 {
        Err(f) => f,
        Ok(v) => panic!("expected a failure, got {}", display(&v)),
    }
}

#[test]
fn prints_integer_arithmetic() {
    let p = main_only(vec![print(bin(BinaryOp::Add, ilit(1), bin(BinaryOp::Mul, ilit(2), ilit(3))))]);
    assert_eq!(output_of(&p), "7\n");
}

#[test]
fn float_arithmetic_is_handed_out_and_replayed() {
    let p = main_only(vec![print(bin(BinaryOp::Add, float(1.5), ilit(2)))]);
    let (step, answers) = run_with(&p, Vec::new(), 1000);
    let op = match step {
        Step::NeedFloat(op) => op,
        other => panic!("expected a double operation, got {other:?}"),
    };
    assert_eq!(op, FloatOp { kind: FloatKind::Arith(BinaryOp::Add), a: Num::Float(1.5f64.to_bits()), b: Num::Int(2) });
    assert!(answers.is_empty());
    let (step, answers) = run_with(&p, vec![FloatAnswer::Float(fv(3.5))], 1000);
    assert_eq!(answers.len(), 1);
    match step {
        Step::Done { output, result } => {
            assert_eq!(output, "3.5\n");
            assert!(result.is_ok());
        }
        other => panic!("expected the run to finish, got {other:?}"),
    }
}

#[test]
fn whole_floats_show_a_fraction() {
    let p = main_only(vec![print(call("float", vec![ilit(3)])), print(bin(BinaryOp::Mul, float(0.5), ilit(4)))]);
    assert_eq!(output_of(&p), "3.0\n2.0\n");
}

#[test]
fn recursion_computes_a_factorial() {
    let fact = func(
        "fact",
        &["n"],
        vec![
            st(StmtKind::Expr(if_(
                bin(BinaryOp::Le, name("n"), ilit(1)),
                vec![st(StmtKind::Return(Some(ilit(1))))],
                None,
            ))),
            st(StmtKind::Return(Some(bin(
                BinaryOp::Mul,
                name("n"),
                call("fact", vec![bin(BinaryOp::Sub, name("n"), ilit(1))]),
            )))),
        ],
    );
    let p = program(vec![fact, func("main", &[], vec![print(call("fact", vec![ilit(10)]))])]);
    assert_eq!(output_of(&p), "3628800\n");
}

#[test]
fn while_loop_with_compound_assignment() {
    let p = main_only(vec![
        let_("i", true, ilit(0)),
        let_("s", true, ilit(0)),
        st(StmtKind::While {
            condition: bin(BinaryOp::Lt, name("i"), ilit(5)),
            body: block(vec![set("s", AssignOp::Add, name("i")), set("i", AssignOp::Add, ilit(1))]),
        }),
        print(name("s")),
    ]);
    assert_eq!(output_of(&p), "10\n");
}

#[test]
fn for_loop_with_break_and_continue() {
    let body = vec![
        st(StmtKind::Expr(if_(bin(BinaryOp::Eq, name("x"), ilit(2)), vec![st(StmtKind::Continue)], None))),
        st(StmtKind::Expr(if_(bin(BinaryOp::Eq, name("x"), ilit(4)), vec![st(StmtKind::Break)], None))),
        print(name("x")),
    ];
    let p = main_only(vec![st(StmtKind::For {
        pattern: bind("x"),
        iterable: bin(BinaryOp::Range, ilit(1), ilit(10)),
        body: block(body),
    })]);
    assert_eq!(output_of(&p), "1\n3\n");
}

#[test]
fn for_loop_over_a_string_goes_by_character() {
    let p = main_only(vec![st(StmtKind::For { pattern: bind("c"), iterable: text("hé"), body: block(vec![print(name("c"))]) })]);
    assert_eq!(output_of(&p), "h\né\n");
}

#[test]
fn indexing_counts_from_the_end_for_negative_indices() {
    let list = e(ExprKind::List(vec![ilit(10), ilit(20), ilit(30)]));
    let p = main_only(vec![
        print(e(ExprKind::Index { receiver: Box::new(list), index: Box::new(ilit(-1)) })),
        print(e(ExprKind::Index { receiver: Box::new(text("abc")), index: Box::new(ilit(1)) })),
    ]);
    assert_eq!(output_of(&p), "30\nb\n");
}

#[test]
fn index_out_of_bounds_fails() {
    let list = e(ExprKind::List(vec![ilit(1)]));
    let p = main_only(vec![print(e(ExprKind::Index { receiver: Box::new(list), index: Box::new(ilit(3)) }))]);
    assert_eq!(
        failure_of(&p),
        (FailureKind::IndexOutOfBounds, "index 3 is out of bounds for a collection of length 1".to_string())
    );
}

#[test]
fn integer_division_by_zero_fails() {
    let p = main_only(vec![print(bin(BinaryOp::Div, ilit(1), ilit(0)))]);
    assert_eq!(failure_of(&p), (FailureKind::DivisionByZero, "division by zero".to_string()));
}

#[test]
fn float_division_by_zero_fails() {
    let p = main_only(vec![print(bin(BinaryOp::Div, float(1.0), ilit(0)))]);
    assert_eq!(failure_of(&p), (FailureKind::DivisionByZero, "division by zero".to_string()));
}

#[test]
fn unbounded_recursion_is_a_stack_overflow() {
    let f = func("f", &[], vec![st(StmtKind::Expr(call("f", vec![])))]);
    let p = program(vec![f, func("main", &[], vec![st(StmtKind::Expr(call("f", vec![])))])]);
    assert_eq!(
        failure_of(&p),
        (FailureKind::StackOverflow, "call depth exceeded 48 (possible infinite recursion)".to_string())
    );
}

#[test]
fn a_program_without_main_fails() {
    let p = program(vec![func("helper", &[], vec![])]);
    assert_eq!(failure_of(&p), (FailureKind::Unsupported, "this program has no `main` function".to_string()));
}

#[test]
fn assigning_to_an_immutable_binding_fails() {
    let p = main_only(vec![let_("x", false, ilit(1)), set("x", AssignOp::Assign, ilit(2))]);
    assert_eq!(failure_of(&p), (FailureKind::Unsupported, "cannot assign to immutable `x`".to_string()));
}

#[test]
fn an_undefined_name_fails() {
    let p = main_only(vec![print(name("nope"))]);
    assert_eq!(failure_of(&p), (FailureKind::Unsupported, "undefined name `nope`".to_string()));
}

#[test]
fn wrong_argument_count_fails() {
    let p = program(vec![func("f", &["a"], vec![]), func("main", &[], vec![st(StmtKind::Expr(call("f", vec![])))])]);
    assert_eq!(failure_of(&p), (FailureKind::Unsupported, "`f` takes 1 argument(s) but 0 were given".to_string()));
}

#[test]
fn a_loop_that_never_ends_runs_out_of_fuel() {
    let p = main_only(vec![st(StmtKind::While { condition: boolean(true), body: block(vec![]) })]);
    let (step, _) = run_with(&p, Vec::new(), 50);
    assert!(matches!(step, Step::OutOfFuel));
}

#[test]
fn try_turns_a_failure_into_a_value() {
    let p = main_only(vec![let_("r", false, e(ExprKind::Try(Box::new(bin(BinaryOp::Div, ilit(1), ilit(0))))))]);
    assert_eq!(run(&p).1.map(|v| display(&v)), Ok("()".to_string()));
    let mut it = Interpreter::new(Vec::new());
    let empty = program(vec![]);
    let r = it.eval(&empty, &e(ExprKind::Try(Box::new(bin(BinaryOp::Div, ilit(1), ilit(0))))), 10).unwrap();
    match r {
        Value::Result { ok, failure, .. } => {
            assert!(!ok);
            assert_eq!(failure.map(|f| (f.kind, f.message)), Some((FailureKind::DivisionByZero, "division by zero".to_string())));
        }
        other => panic!("expected a result, got {}", display(&other)),
    }
}

#[test]
fn fail_statement_raises_its_message() {
    let p = main_only(vec![st(StmtKind::Fail(text("bad input")))]);
    assert_eq!(failure_of(&p), (FailureKind::Unsupported, "bad input".to_string()));
}

#[test]
fn and_short_circuits_and_coalesce_picks_the_fallback() {
    let guarded = bin(BinaryOp::And, boolean(false), bin(BinaryOp::Eq, bin(BinaryOp::Div, ilit(1), ilit(0)), ilit(0)));
    let fallback = bin(BinaryOp::Coalesce, e(ExprKind::Literal(Literal::NoneLit)), ilit(5));
    let p = main_only(vec![print(guarded), print(fallback)]);
    assert_eq!(output_of(&p), "false\n5\n");
}

#[test]
fn builtins_len_str_int_and_assert() {
    let p = main_only(vec![
        print(call("len", vec![text("héllo")])),
        print(bin(BinaryOp::Add, call("str", vec![ilit(12)]), text("!"))),
        print(call("int", vec![boolean(true)])),
        print(call("int", vec![float(2.75)])),
        st(StmtKind::Expr(call("assert", vec![bin(BinaryOp::Lt, float(1.5), ilit(2))]))),
    ]);
    assert_eq!(output_of(&p), "5\n12!\n1\n2\n");
    let q = main_only(vec![st(StmtKind::Expr(call("assert", vec![boolean(false)])))]);
    assert_eq!(failure_of(&q), (FailureKind::AssertionFailed, "assertion failed".to_string()));
}

#[test]
fn negation_of_the_minimum_integer_overflows() {
    let p = main_only(vec![print(e(ExprKind::Unary {
        op: UnaryOp::Neg,
        operand: Box::new(bin(BinaryOp::Sub, ilit(i64::MIN + 1), ilit(1))),
    }))]);
    assert_eq!(failure_of(&p).0, FailureKind::Overflow);
}

#[test]
fn comparing_with_nan_cannot_order() {
    let p = main_only(vec![let_("z", false, float(0.0)), print(bin(BinaryOp::Lt, name("z"), ilit(1)))]);
    assert_eq!(output_of(&p), "true\n");
    let mut session = Session::new(100);
    let q = main_only(vec![print(bin(BinaryOp::Lt, float(1.0), ilit(2)))]);
    let first = session.start(&q);
    assert!(matches!(first, Step::NeedFloat(FloatOp { kind: FloatKind::Compare, .. })));
    match session.resume(&q, FloatAnswer::Order(2)) {
        Step::Done { result: Err(f), .. } => assert_eq!(f.message, "cannot order `NaN`"),
        other => panic!("expected a failure, got {other:?}"),
    }
}

#[test]
fn block_scopes_end_with_the_block() {
    let inner = e(ExprKind::Block(block(vec![let_("y", false, ilit(1))])));
    let p = main_only(vec![st(StmtKind::Expr(inner)), print(name("y"))]);
    assert_eq!(failure_of(&p), (FailureKind::Unsupported, "undefined name `y`".to_string()));
    let stop = {
        let mut it = Interpreter::new(Vec::new());
        let empty = program(vec![]);
        it.eval(&empty, &name("y"), 5)
    };
    assert!(matches!(stop, Err(Stop::Fail(_))));
}

fn int_ty() -> Type {
    Type::new(TypeKind::Named { name: "Int".to_string(), args: vec![] }, sp())
}

fn color_enum() -> Item {
    let variant = |n: &str, k: usize| VariantDecl { name: n.to_string(), payload: (0..k).map(|_| int_ty()).collect(), span: sp() };
    Item::new(
        ItemKind::Enum(EnumDecl { name: "Color".to_string(), variants: vec![variant("Red", 0), variant("Rgb", 3)], public: false, span: sp() }),
        sp(),
    )
}

fn user_data() -> Item {
    let field = |n: &str| FieldDecl { name: n.to_string(), ty: int_ty(), default: None, span: sp() };
    Item::new(ItemKind::Data(DataDecl { name: "User".to_string(), fields: vec![field("name"), field("age")], public: false, span: sp() }), sp())
}

fn arm(pattern: PatternKind, guard: Option<Expr>, body: Expr) -> MatchArm {
    MatchArm { pattern: Pattern::new(pattern, sp()), guard, body, span: sp() }
}

fn pat(kind: PatternKind) -> Pattern {
    Pattern::new(kind, sp())
}

fn match_(scrutinee: Expr, arms: Vec<MatchArm>) -> Expr {
    e(ExprKind::Match { scrutinee: Box::new(scrutinee), arms })
}

#[test]
fn match_on_variants_binds_payload_and_checks_guards() {
    let arms = vec![
        arm(PatternKind::Bind("Red".to_string()), None, text("red")),
        arm(
            PatternKind::Variant {
                name: "Rgb".to_string(),
                fields: vec![pat(PatternKind::Bind("r".to_string())), pat(PatternKind::Wildcard), pat(PatternKind::Bind("b".to_string()))],
            },
            Some(bin(BinaryOp::Lt, name("r"), name("b"))),
            bin(BinaryOp::Add, name("r"), name("b")),
        ),
        arm(PatternKind::Wildcard, None, text("other")),
    ];
    let body = vec![
        let_("c", false, call("Rgb", vec![ilit(1), ilit(2), ilit(3)])),
        print(match_(name("c"), arms)),
        print(match_(name("Red"), vec![arm(PatternKind::Bind("Red".to_string()), None, text("red"))])),
    ];
    let p = program(vec![color_enum(), func("main", &[], body)]);
    assert_eq!(output_of(&p), "4\nred\n");
}

#[test]
fn a_value_no_arm_matches_fails() {
    let p = main_only(vec![print(match_(ilit(5), vec![arm(PatternKind::Literal(Literal::Int(4)), None, text("four"))]))]);
    assert_eq!(failure_of(&p), (FailureKind::Unsupported, "no `match` arm matched `5`".to_string()));
    let q = main_only(vec![print(match_(ilit(4), vec![arm(PatternKind::Literal(Literal::Int(4)), None, text("four"))]))]);
    assert_eq!(output_of(&q), "four\n");
}

#[test]
fn a_variant_with_the_wrong_payload_count_fails() {
    let p = program(vec![color_enum(), func("main", &[], vec![print(call("Rgb", vec![ilit(1)]))])]);
    assert_eq!(failure_of(&p), (FailureKind::Unsupported, "variant `Rgb` takes 3 field(s) but 1 were given".to_string()));
}

#[test]
fn data_values_are_built_by_position_or_name_and_read_by_field() {
    let named = e(ExprKind::Call {
        callee: Box::new(name("User")),
        args: vec![Arg { name: Some("age".to_string()), value: ilit(30), span: sp() }],
    });
    let field = |x: Expr, f: &str| e(ExprKind::Field { receiver: Box::new(x), name: f.to_string() });
    let body = vec![
        let_("u", false, named),
        print(field(name("u"), "age")),
        print(field(name("u"), "name")),
        let_("v", false, call("User", vec![text("ana"), ilit(7)])),
        print(field(name("v"), "name")),
        print(e(ExprKind::OptionalField { receiver: Box::new(e(ExprKind::Literal(Literal::NoneLit))), name: "x".to_string() })),
    ];
    let p = program(vec![user_data(), func("main", &[], body)]);
    assert_eq!(output_of(&p), "30\nnone\nana\nnone\n");
    let q = program(vec![user_data(), func("main", &[], vec![print(field(call("User", vec![]), "email"))])]);
    assert_eq!(failure_of(&q), (FailureKind::Unsupported, "`User` has no field `email`".to_string()));
}

#[test]
fn int_reads_trimmed_decimal_text() {
    let p = main_only(vec![
        print(call("int", vec![text(" 42\n")])),
        print(call("int", vec![text("-7")])),
        print(call("int", vec![text("+3")])),
        print(call("int", vec![text("-9223372036854775808")])),
    ]);
    assert_eq!(output_of(&p), "42\n-7\n3\n-9223372036854775808\n");
    let q = main_only(vec![print(call("int", vec![text("12a")]))]);
    assert_eq!(failure_of(&q), (FailureKind::Unsupported, "`int` cannot parse \"12a\"".to_string()));
}

#[test]
fn parse_int_follows_from_str_after_trimming() {
    use_parse();
}

fn use_parse() {
    assert_eq!(orvane::runtime::builtins::parse_int("\u{3000}0012\t"), Some(12));
    assert_eq!(orvane::runtime::builtins::parse_int("9223372036854775807"), Some(i64::MAX));
    assert_eq!(orvane::runtime::builtins::parse_int("9223372036854775808"), None);
    assert_eq!(orvane::runtime::builtins::parse_int("-"), None);
    assert_eq!(orvane::runtime::builtins::parse_int(""), None);
    assert_eq!(orvane::runtime::builtins::parse_int("1 2"), None);
    assert_eq!(orvane::runtime::builtins::parse_int("00000000000000000000000000001"), Some(1));
}

#[test]
fn casts_convert_int_to_float_and_keep_same_types() {
    let cast = |x: Expr, t: &str| {
        e(ExprKind::Cast { expr: Box::new(x), ty: Type::new(TypeKind::Named { name: t.to_string(), args: vec![] }, sp()) })
    };
    let p = main_only(vec![print(cast(ilit(3), "Float")), print(cast(ilit(2), "Int"))]);
    assert_eq!(output_of(&p), "3.0\n2\n");
    let q = main_only(vec![print(cast(text("a"), "Int"))]);
    assert_eq!(failure_of(&q), (FailureKind::Unsupported, "cannot cast `Str` to `Int`".to_string()));
}

#[test]
fn err_of_a_data_value_takes_its_message_field() {
    let p = program(vec![user_data()]);
    let mut it = Interpreter::new(Vec::new());
    let r = it.eval(&p, &call("Err", vec![call("User", vec![text("a"), ilit(1)])]), 10).unwrap();
    match r {
        Value::Result { ok, failure, .. } => {
            assert!(!ok);
            assert_eq!(failure.map(|f| f.message), Some("failure".to_string()));
        }
        other => panic!("expected a result, got {}", display(&other)),
    }
    let field = |n: &str| FieldDecl { name: n.to_string(), ty: int_ty(), default: None, span: sp() };
    let problem = Item::new(
        ItemKind::Data(DataDecl { name: "Problem".to_string(), fields: vec![field("code"), field("message")], public: false, span: sp() }),
        sp(),
    );
    let q = program(vec![problem]);
    let mut it = Interpreter::new(Vec::new());
    let r = it.eval(&q, &call("Err", vec![call("Problem", vec![ilit(7), text("disk full")])]), 10).unwrap();
    match r {
        Value::Result { failure, .. } => assert_eq!(failure.map(|f| f.message), Some("disk full".to_string())),
        other => panic!("expected a result, got {}", display(&other)),
    }
}

#[test]
fn assigning_to_a_field_is_refused() {
    let target = e(ExprKind::Field { receiver: Box::new(name("u")), name: "age".to_string() });
    let body = vec![
        let_("u", true, call("User", vec![text("a"), ilit(1)])),
        st(StmtKind::Assign { target, op: AssignOp::Assign, value: ilit(2) }),
    ];
    let p = program(vec![user_data(), func("main", &[], body)]);
    assert_eq!(
        failure_of(&p),
        (FailureKind::Unsupported, "assigning to field `age` of a `User` is not supported in 0.1.0-alpha".to_string())
    );
}

#[test]
fn a_call_leaves_the_callers_bindings_alone() {
    let f = func("f", &[], vec![let_("x", false, ilit(2)), print(name("x"))]);
    let p = program(vec![f, func("main", &[], vec![let_("x", false, ilit(1)), st(StmtKind::Expr(call("f", vec![]))), print(name("x"))])]);
    assert_eq!(output_of(&p), "2\n1\n");
}

#[test]
fn each_answer_goes_to_the_operation_asked_for() {
    let p = main_only(vec![print(bin(BinaryOp::Mul, bin(BinaryOp::Add, float(1.5), ilit(1)), float(2.0)))]);
    let mut session = Session::new(1000);
    let first = match session.start(&p) {
        Step::NeedFloat(op) => op,
        other => panic!("expected a double operation, got {other:?}"),
    };
    assert_eq!(first.kind, FloatKind::Arith(BinaryOp::Add));
    let second = match session.resume(&p, answer(&first)) {
        Step::NeedFloat(op) => op,
        other => panic!("expected a second operation, got {other:?}"),
    };
    assert_eq!(second, FloatOp { kind: FloatKind::Arith(BinaryOp::Mul), a: Num::Float(2.5f64.to_bits()), b: Num::Float(2.0f64.to_bits()) });
    match session.resume(&p, answer(&second)) {
        Step::Done { output, result } => {
            assert_eq!(output, "5.0\n");
            assert!(result.is_ok());
        }
        other => panic!("expected the run to finish, got {other:?}"),
    }
}
