//! A stable textual dump of the AST, for `orv ast` and golden tests.
//!
//! One node per line, indented by two spaces per level, with the node kind
//! and the parts that identify it. Spans are omitted so diffs show structure.

use vstd::prelude::*;
use crate::ast::expr::{Arg, Expr, ExprKind, Literal, MatchArm, StrSegment};
use crate::ast::item::{DataDecl, EnumDecl, FieldDecl, FnDecl, Item, ItemKind, Param, Program, UseDecl, VariantDecl};
use crate::ast::stmt::{Block, Stmt, StmtKind};
use crate::ast::types::{Pattern, PatternKind, Type, TypeKind};
use crate::dump::{kind_text_spec, push_float};
use crate::lexer::token::KindV;
use crate::text::{int_text, push_char, push_i64};

verus! {

/// The spellings of `ts` joined by `, `.
pub open spec fn types_text_spec(ts: Seq<Type>) -> Seq<char>
    decreases ts,
{
    if ts.len() == 0 {
        Seq::empty()
    } else if ts.len() == 1 {
        type_text_spec(ts[0])
    } else {
        types_text_spec(ts.drop_last()) + ", "@ + type_text_spec(ts.last())
    }
}

/// The stable spelling of a type.
pub open spec fn type_text_spec(t: Type) -> Seq<char>
    decreases t,
{
    match t.kind {
        TypeKind::Named { name, args } => if args@.len() == 0 {
            name@
        } else {
            name@ + "<"@ + types_text_spec(args@) + ">"@
        },
        TypeKind::Optional(inner) => type_text_spec(*inner) + "?"@,
        TypeKind::Unit => "()"@,
        TypeKind::Tuple(elements) => "("@ + types_text_spec(elements@) + ")"@,
        TypeKind::Fn { params, ret } => "fn("@ + types_text_spec(params@) + ") -> "@ + type_text_spec(*ret),
        TypeKind::Py => "Py"@,
    }
}

/// Appends the spellings of `ts` joined by `, `.
fn push_types(out: &mut String, ts: &Vec<Type>)
    ensures
        final(out)@ == old(out)@ + types_text_spec(ts@),
    decreases ts@,
{
    let ghost base = out@;
    let mut i: usize = 0;
    while i < ts.len()
        invariant
            i <= ts@.len(),
            out@ == base + types_text_spec(ts@.take(i as int)),
        decreases ts@.len() - i,
    {
        if i > 0 {
            out.append(", ");
        }
        proof {
            assert(decreases_to!(ts@ => ts@[i as int]));
        }
        push_type(out, &ts[i]);
        proof {
            let t = ts@.take(i + 1);
            assert(t.drop_last() =~= ts@.take(i as int));
            assert(out@ =~= base + types_text_spec(t));
        }
        i = i + 1;
    }
    assert(ts@.take(i as int) =~= ts@);
}

/// Appends the stable spelling of a type.
fn push_type(out: &mut String, t: &Type)
    ensures
        final(out)@ == old(out)@ + type_text_spec(*t),
    decreases *t,
{
    let ghost before = out@;
    match &t.kind {
        TypeKind::Named { name, args } => {
            out.append(name.as_str());
            if args.len() > 0 {
                out.append("<");
                push_types(out, args);
                out.append(">");
            }
        },
        TypeKind::Optional(inner) => {
            push_type(out, inner);
            out.append("?");
        },
        TypeKind::Unit => {
            out.append("()");
        },
        TypeKind::Tuple(elements) => {
            out.append("(");
            push_types(out, elements);
            out.append(")");
        },
        TypeKind::Fn { params, ret } => {
            out.append("fn(");
            push_types(out, params);
            out.append(") -> ");
            push_type(out, ret);
        },
        TypeKind::Py => {
            out.append("Py");
        },
    }
    assert(out@ =~= before + type_text_spec(*t));
}

/// The stable spelling of a type, e.g. `List<Int>`, `Str?` or `fn(Int) -> Bool`.
pub fn type_text(ty: &Type) -> (s: String)
    ensures
        s@ == type_text_spec(*ty),
{
    let mut s = String::new();
    push_type(&mut s, ty);
    assert(s@ =~= type_text_spec(*ty));
    s
}

// --- Patterns and literals ---------------------------------------------------------

/// The rendering of one string segment of a literal.
pub open spec fn segment_text(seg: StrSegment) -> Seq<char> {
    match seg {
        StrSegment::Lit(text) => seq!['"'] + text@ + seq!['"'],
        StrSegment::Expr { src, .. } => seq!['{'] + src@ + seq!['}'],
        StrSegment::Raw(src) => seq!['{'] + src@ + seq!['}'],
    }
}

/// The renderings of string segments joined by a space.
pub open spec fn segments_text(segs: Seq<StrSegment>) -> Seq<char>
    decreases segs.len(),
{
    if segs.len() == 0 {
        Seq::empty()
    } else if segs.len() == 1 {
        segment_text(segs[0])
    } else {
        segments_text(segs.drop_last()) + seq![' '] + segment_text(segs.last())
    }
}

/// The rendering of a literal.
pub open spec fn literal_text_spec(l: Literal) -> Seq<char> {
    match l {
        Literal::Int(v) => int_text(v as int),
        Literal::Float(v) => kind_text_spec(KindV::Float(v.bits, v.display@)),
        Literal::Str(parts) => segments_text(parts@),
        Literal::Bool(b) => if b { "true"@ } else { "false"@ },
        Literal::NoneLit => "none"@,
    }
}

/// The renderings of patterns joined by `, `.
pub open spec fn patterns_text_spec(ps: Seq<Pattern>) -> Seq<char>
    decreases ps,
{
    if ps.len() == 0 {
        Seq::empty()
    } else if ps.len() == 1 {
        pattern_text_spec(ps[0])
    } else {
        patterns_text_spec(ps.drop_last()) + ", "@ + pattern_text_spec(ps.last())
    }
}

/// The rendering of a pattern.
pub open spec fn pattern_text_spec(p: Pattern) -> Seq<char>
    decreases p,
{
    match p.kind {
        PatternKind::Wildcard => "_"@,
        PatternKind::Literal(l) => literal_text_spec(l),
        PatternKind::Bind(name) => name@,
        PatternKind::Variant { name, fields } => if fields@.len() == 0 {
            name@
        } else {
            name@ + "("@ + patterns_text_spec(fields@) + ")"@
        },
    }
}

// --- Lines ------------------------------------------------------------------------

/// Two spaces per level.
pub open spec fn indent_spec(depth: nat) -> Seq<char>
    decreases depth,
{
    if depth == 0 {
        Seq::empty()
    } else {
        indent_spec((depth - 1) as nat) + "  "@
    }
}

/// One line of the dump at `depth`.
pub open spec fn line_spec(depth: nat, text: Seq<char>) -> Seq<char> {
    indent_spec(depth) + text + seq!['\n']
}

// --- Expressions and statements ----------------------------------------------------

pub open spec fn dump_exprs_spec(es: Seq<Expr>, d: nat) -> Seq<char>
    decreases es,
{
    if es.len() == 0 {
        Seq::empty()
    } else {
        dump_exprs_spec(es.drop_last(), d) + dump_expr_spec(es.last(), d)
    }
}

pub open spec fn dump_arg_spec(a: Arg, d: nat) -> Seq<char>
    decreases a,
{
    let head = match a.name {
        Some(name) => line_spec(d, "arg "@ + name@ + ":"@),
        None => line_spec(d, "arg"@),
    };
    head + dump_expr_spec(a.value, d + 1)
}

pub open spec fn dump_args_spec(args: Seq<Arg>, d: nat) -> Seq<char>
    decreases args,
{
    if args.len() == 0 {
        Seq::empty()
    } else {
        dump_args_spec(args.drop_last(), d) + dump_arg_spec(args.last(), d)
    }
}

pub open spec fn dump_entries_spec(es: Seq<(Expr, Expr)>, d: nat) -> Seq<char>
    decreases es,
{
    if es.len() == 0 {
        Seq::empty()
    } else {
        dump_entries_spec(es.drop_last(), d) + line_spec(d, "entry"@)
            + dump_expr_spec(es.last().0, d + 1) + dump_expr_spec(es.last().1, d + 1)
    }
}

pub open spec fn dump_arm_spec(arm: MatchArm, d: nat) -> Seq<char>
    decreases arm,
{
    line_spec(d, "Arm "@ + pattern_text_spec(arm.pattern)) + match arm.guard {
        Some(g) => line_spec(d + 1, "guard"@) + dump_expr_spec(g, d + 2),
        None => Seq::empty(),
    } + dump_expr_spec(arm.body, d + 1)
}

pub open spec fn dump_arms_spec(arms: Seq<MatchArm>, d: nat) -> Seq<char>
    decreases arms,
{
    if arms.len() == 0 {
        Seq::empty()
    } else {
        dump_arms_spec(arms.drop_last(), d) + dump_arm_spec(arms.last(), d)
    }
}

/// The names joined by `, `.
pub open spec fn names_text(ns: Seq<String>) -> Seq<char>
    decreases ns.len(),
{
    if ns.len() == 0 {
        Seq::empty()
    } else if ns.len() == 1 {
        ns[0]@
    } else {
        names_text(ns.drop_last()) + ", "@ + ns.last()@
    }
}

/// The dump of an expression at `d`.
pub open spec fn dump_expr_spec(e: Expr, d: nat) -> Seq<char>
    decreases e,
{
    match e.kind {
        ExprKind::Literal(l) => line_spec(d, "Literal "@ + literal_text_spec(l)),
        ExprKind::Ident(name) => line_spec(d, "Ident "@ + name@),
        ExprKind::Paren(inner) => line_spec(d, "Paren"@) + dump_expr_spec(*inner, d + 1),
        ExprKind::Block(b) => dump_block_spec(b, d),
        ExprKind::Field { receiver, name } => line_spec(d, "Field "@ + name@) + dump_expr_spec(*receiver, d + 1),
        ExprKind::OptionalField { receiver, name } =>
            line_spec(d, "OptionalField "@ + name@) + dump_expr_spec(*receiver, d + 1),
        ExprKind::Call { callee, args } =>
            line_spec(d, "Call"@) + dump_expr_spec(*callee, d + 1) + dump_args_spec(args@, d + 1),
        ExprKind::Index { receiver, index } =>
            line_spec(d, "Index"@) + dump_expr_spec(*receiver, d + 1) + dump_expr_spec(*index, d + 1),
        ExprKind::Unary { op, operand } => line_spec(d, "Unary "@ + op.spelling()) + dump_expr_spec(*operand, d + 1),
        ExprKind::Binary { op, left, right } =>
            line_spec(d, "Binary "@ + op.spelling()) + dump_expr_spec(*left, d + 1) + dump_expr_spec(*right, d + 1),
        ExprKind::Cast { expr, ty } => line_spec(d, "Cast "@ + type_text_spec(ty)) + dump_expr_spec(*expr, d + 1),
        ExprKind::Tuple(elements) => line_spec(d, "Tuple"@) + dump_exprs_spec(elements@, d + 1),
        ExprKind::List(elements) => line_spec(d, "List"@) + dump_exprs_spec(elements@, d + 1),
        ExprKind::MapLit(entries) => line_spec(d, "Map"@) + dump_entries_spec(entries@, d + 1),
        ExprKind::If { condition, then_block, else_branch } =>
            line_spec(d, "If"@) + dump_expr_spec(*condition, d + 1) + dump_block_spec(then_block, d + 1)
                + match else_branch {
                    Some(branch) => line_spec(d + 1, "Else"@) + dump_expr_spec(*branch, d + 2),
                    None => Seq::empty(),
                },
        ExprKind::Match { scrutinee, arms } =>
            line_spec(d, "Match"@) + dump_expr_spec(*scrutinee, d + 1) + dump_arms_spec(arms@, d + 1),
        ExprKind::Try(inner) => line_spec(d, "Try"@) + dump_expr_spec(*inner, d + 1),
        ExprKind::Fail(inner) => line_spec(d, "Fail"@) + dump_expr_spec(*inner, d + 1),
        ExprKind::Lambda { params, body } =>
            line_spec(d, "Lambda("@ + names_text(params@) + ")"@) + dump_expr_spec(*body, d + 1),
    }
}

/// The dump of a block at `d`.
pub open spec fn dump_block_spec(b: Block, d: nat) -> Seq<char>
    decreases b,
{
    line_spec(d, "Block"@) + dump_stmts_spec(b.statements@, d + 1)
}

pub open spec fn dump_stmts_spec(ss: Seq<Stmt>, d: nat) -> Seq<char>
    decreases ss,
{
    if ss.len() == 0 {
        Seq::empty()
    } else {
        dump_stmts_spec(ss.drop_last(), d) + dump_stmt_spec(ss.last(), d)
    }
}

/// The dump of a statement at `d`.
pub open spec fn dump_stmt_spec(s: Stmt, d: nat) -> Seq<char>
    decreases s,
{
    match s.kind {
        StmtKind::Let { pattern, mutable, ty, value } => {
            let m = if mutable { "mut "@ } else { Seq::empty() };
            let annotation = match ty {
                Some(t) => ": "@ + type_text_spec(t),
                None => Seq::empty(),
            };
            line_spec(d, "Let "@ + m + pattern_text_spec(pattern) + annotation + " ="@) + dump_expr_spec(value, d + 1)
        },
        StmtKind::Assign { target, op, value } =>
            line_spec(d, "Assign "@ + op.spelling()) + dump_expr_spec(target, d + 1) + dump_expr_spec(value, d + 1),
        StmtKind::While { condition, body } =>
            line_spec(d, "While"@) + dump_expr_spec(condition, d + 1) + dump_block_spec(body, d + 1),
        StmtKind::For { pattern, iterable, body } =>
            line_spec(d, "For "@ + pattern_text_spec(pattern)) + dump_expr_spec(iterable, d + 1)
                + dump_block_spec(body, d + 1),
        StmtKind::Return(value) => line_spec(d, "Return"@) + match value {
            Some(v) => dump_expr_spec(v, d + 1),
            None => Seq::empty(),
        },
        StmtKind::Break => line_spec(d, "Break"@),
        StmtKind::Continue => line_spec(d, "Continue"@),
        StmtKind::Fail(v) => line_spec(d, "Fail"@) + dump_expr_spec(v, d + 1),
        StmtKind::Expr(e) => dump_expr_spec(e, d),
    }
}

// --- Rendering: patterns and literals -----------------------------------------------

fn push_segments(out: &mut String, segs: &Vec<StrSegment>)
    ensures
        final(out)@ == old(out)@ + segments_text(segs@),
{
    let ghost base = out@;
    let mut i: usize = 0;
    while i < segs.len()
        invariant
            i <= segs@.len(),
            out@ == base + segments_text(segs@.take(i as int)),
        decreases segs@.len() - i,
    {
        let ghost before = out@;
        if i > 0 {
            push_char(out, ' ');
        }
        match &segs[i] {
            StrSegment::Lit(text) => {
                push_char(out, '"');
                out.append(text.as_str());
                push_char(out, '"');
            },
            StrSegment::Expr { src, .. } => {
                push_char(out, '{');
                out.append(src.as_str());
                push_char(out, '}');
            },
            StrSegment::Raw(src) => {
                push_char(out, '{');
                out.append(src.as_str());
                push_char(out, '}');
            },
        }
        proof {
            let t = segs@.take(i + 1);
            assert(t.drop_last() =~= segs@.take(i as int));
            assert(out@ =~= base + segments_text(t));
        }
        i = i + 1;
    }
    assert(segs@.take(i as int) =~= segs@);
}

fn push_literal(out: &mut String, l: &Literal)
    ensures
        final(out)@ == old(out)@ + literal_text_spec(*l),
{
    let ghost before = out@;
    match l {
        Literal::Int(v) => push_i64(out, *v),
        Literal::Float(v) => push_float(out, v),
        Literal::Str(parts) => push_segments(out, parts),
        Literal::Bool(b) => {
            if *b {
                out.append("true");
            } else {
                out.append("false");
            }
        },
        Literal::NoneLit => out.append("none"),
    }
    assert(out@ =~= before + literal_text_spec(*l));
}

fn push_patterns(out: &mut String, ps: &Vec<Pattern>)
    ensures
        final(out)@ == old(out)@ + patterns_text_spec(ps@),
    decreases ps@,
{
    let ghost base = out@;
    let mut i: usize = 0;
    while i < ps.len()
        invariant
            i <= ps@.len(),
            out@ == base + patterns_text_spec(ps@.take(i as int)),
        decreases ps@.len() - i,
    {
        if i > 0 {
            out.append(", ");
        }
        proof {
            assert(decreases_to!(ps@ => ps@[i as int]));
        }
        push_pattern(out, &ps[i]);
        proof {
            let t = ps@.take(i + 1);
            assert(t.drop_last() =~= ps@.take(i as int));
            assert(out@ =~= base + patterns_text_spec(t));
        }
        i = i + 1;
    }
    assert(ps@.take(i as int) =~= ps@);
}

fn push_pattern(out: &mut String, p: &Pattern)
    ensures
        final(out)@ == old(out)@ + pattern_text_spec(*p),
    decreases *p,
{
    let ghost before = out@;
    match &p.kind {
        PatternKind::Wildcard => out.append("_"),
        PatternKind::Literal(l) => push_literal(out, l),
        PatternKind::Bind(name) => out.append(name.as_str()),
        PatternKind::Variant { name, fields } => {
            out.append(name.as_str());
            if fields.len() > 0 {
                out.append("(");
                push_patterns(out, fields);
                out.append(")");
            }
        },
    }
    assert(out@ =~= before + pattern_text_spec(*p));
}

fn push_names(out: &mut String, ns: &Vec<String>)
    ensures
        final(out)@ == old(out)@ + names_text(ns@),
{
    let ghost base = out@;
    let mut i: usize = 0;
    while i < ns.len()
        invariant
            i <= ns@.len(),
            out@ == base + names_text(ns@.take(i as int)),
        decreases ns@.len() - i,
    {
        if i > 0 {
            out.append(", ");
        }
        out.append(ns[i].as_str());
        proof {
            let t = ns@.take(i + 1);
            assert(t.drop_last() =~= ns@.take(i as int));
            assert(out@ =~= base + names_text(t));
        }
        i = i + 1;
    }
    assert(ns@.take(i as int) =~= ns@);
}

// --- Rendering: lines ---------------------------------------------------------------

/// The indentation one level deeper.
fn deeper(prefix: &str, Ghost(d): Ghost<nat>) -> (p: String)
    requires
        prefix@ == indent_spec(d),
    ensures
        p@ == indent_spec(d + 1),
{
    let mut p = String::new();
    p.append(prefix);
    p.append("  ");
    assert(p@ =~= indent_spec(d + 1));
    p
}

/// Appends a line holding `text`.
fn push_line(out: &mut String, prefix: &str, text: &str)
    ensures
        final(out)@ == old(out)@ + prefix@ + text@ + seq!['\n'],
{
    out.append(prefix);
    out.append(text);
    push_char(out, '\n');
}

// --- Rendering: expressions and statements ---------------------------------------------

fn dump_exprs(out: &mut String, es: &Vec<Expr>, prefix: &str, Ghost(d): Ghost<nat>)
    requires
        prefix@ == indent_spec(d),
    ensures
        final(out)@ == old(out)@ + dump_exprs_spec(es@, d),
    decreases es@,
{
    let ghost base = out@;
    let mut i: usize = 0;
    while i < es.len()
        invariant
            i <= es@.len(),
            prefix@ == indent_spec(d),
            out@ == base + dump_exprs_spec(es@.take(i as int), d),
        decreases es@.len() - i,
    {
        proof {
            assert(decreases_to!(es@ => es@[i as int]));
        }
        dump_expr(out, &es[i], prefix, Ghost(d));
        proof {
            let t = es@.take(i + 1);
            assert(t.drop_last() =~= es@.take(i as int));
        }
        i = i + 1;
    }
    assert(es@.take(i as int) =~= es@);
}

fn dump_arg(out: &mut String, a: &Arg, prefix: &str, Ghost(d): Ghost<nat>)
    requires
        prefix@ == indent_spec(d),
    ensures
        final(out)@ == old(out)@ + dump_arg_spec(*a, d),
    decreases *a,
{
    let ghost before = out@;
    match &a.name {
        Some(name) => {
            out.append(prefix);
            out.append("arg ");
            out.append(name.as_str());
            out.append(":");
            push_char(out, '\n');
        },
        None => push_line(out, prefix, "arg"),
    }
    let p1 = deeper(prefix, Ghost(d));
    dump_expr(out, &a.value, p1.as_str(), Ghost(d + 1));
    assert(out@ =~= before + dump_arg_spec(*a, d));
}

fn dump_args(out: &mut String, args: &Vec<Arg>, prefix: &str, Ghost(d): Ghost<nat>)
    requires
        prefix@ == indent_spec(d),
    ensures
        final(out)@ == old(out)@ + dump_args_spec(args@, d),
    decreases args@,
{
    let ghost base = out@;
    let mut i: usize = 0;
    while i < args.len()
        invariant
            i <= args@.len(),
            prefix@ == indent_spec(d),
            out@ == base + dump_args_spec(args@.take(i as int), d),
        decreases args@.len() - i,
    {
        proof {
            assert(decreases_to!(args@ => args@[i as int]));
        }
        dump_arg(out, &args[i], prefix, Ghost(d));
        proof {
            let t = args@.take(i + 1);
            assert(t.drop_last() =~= args@.take(i as int));
        }
        i = i + 1;
    }
    assert(args@.take(i as int) =~= args@);
}

fn dump_entries(out: &mut String, es: &Vec<(Expr, Expr)>, prefix: &str, Ghost(d): Ghost<nat>)
    requires
        prefix@ == indent_spec(d),
    ensures
        final(out)@ == old(out)@ + dump_entries_spec(es@, d),
    decreases es@,
{
    let ghost base = out@;
    let p1 = deeper(prefix, Ghost(d));
    let mut i: usize = 0;
    while i < es.len()
        invariant
            i <= es@.len(),
            prefix@ == indent_spec(d),
            p1@ == indent_spec(d + 1),
            out@ == base + dump_entries_spec(es@.take(i as int), d),
        decreases es@.len() - i,
    {
        let entry = &es[i];
        proof {
            assert(decreases_to!(es@ => es@[i as int]));
            assert(decreases_to!(es@[i as int] => es@[i as int].0));
            assert(decreases_to!(es@[i as int] => es@[i as int].1));
        }
        let ghost before = out@;
        push_line(out, prefix, "entry");
        dump_expr(out, &entry.0, p1.as_str(), Ghost(d + 1));
        dump_expr(out, &entry.1, p1.as_str(), Ghost(d + 1));
        proof {
            let t = es@.take(i + 1);
            assert(t.drop_last() =~= es@.take(i as int));
            assert(out@ =~= base + dump_entries_spec(t, d));
        }
        i = i + 1;
    }
    assert(es@.take(i as int) =~= es@);
}

fn dump_arm(out: &mut String, arm: &MatchArm, prefix: &str, Ghost(d): Ghost<nat>)
    requires
        prefix@ == indent_spec(d),
    ensures
        final(out)@ == old(out)@ + dump_arm_spec(*arm, d),
    decreases *arm,
{
    let ghost before = out@;
    out.append(prefix);
    out.append("Arm ");
    push_pattern(out, &arm.pattern);
    push_char(out, '\n');
    let p1 = deeper(prefix, Ghost(d));
    match &arm.guard {
        Some(g) => {
            push_line(out, p1.as_str(), "guard");
            let p2 = deeper(p1.as_str(), Ghost(d + 1));
            dump_expr(out, g, p2.as_str(), Ghost(d + 2));
        },
        None => {},
    }
    dump_expr(out, &arm.body, p1.as_str(), Ghost(d + 1));
    assert(out@ =~= before + dump_arm_spec(*arm, d));
}

fn dump_arms(out: &mut String, arms: &Vec<MatchArm>, prefix: &str, Ghost(d): Ghost<nat>)
    requires
        prefix@ == indent_spec(d),
    ensures
        final(out)@ == old(out)@ + dump_arms_spec(arms@, d),
    decreases arms@,
{
    let ghost base = out@;
    let mut i: usize = 0;
    while i < arms.len()
        invariant
            i <= arms@.len(),
            prefix@ == indent_spec(d),
            out@ == base + dump_arms_spec(arms@.take(i as int), d),
        decreases arms@.len() - i,
    {
        proof {
            assert(decreases_to!(arms@ => arms@[i as int]));
        }
        dump_arm(out, &arms[i], prefix, Ghost(d));
        proof {
            let t = arms@.take(i + 1);
            assert(t.drop_last() =~= arms@.take(i as int));
        }
        i = i + 1;
    }
    assert(arms@.take(i as int) =~= arms@);
}

/// Appends the dump of an expression.
#[verifier::spinoff_prover]
#[verifier::rlimit(40)]
fn dump_expr(out: &mut String, e: &Expr, prefix: &str, Ghost(d): Ghost<nat>)
    requires
        prefix@ == indent_spec(d),
    ensures
        final(out)@ == old(out)@ + dump_expr_spec(*e, d),
    decreases *e,
{
    let ghost before = out@;
    match &e.kind {
        ExprKind::Literal(l) => {
            out.append(prefix);
            out.append("Literal ");
            push_literal(out, l);
            push_char(out, '\n');
        },
        ExprKind::Ident(name) => {
            out.append(prefix);
            out.append("Ident ");
            out.append(name.as_str());
            push_char(out, '\n');
        },
        ExprKind::Paren(inner) => {
            push_line(out, prefix, "Paren");
            let p1 = deeper(prefix, Ghost(d));
            dump_expr(out, inner, p1.as_str(), Ghost(d + 1));
        },
        ExprKind::Block(b) => {
            dump_block(out, b, prefix, Ghost(d));
        },
        ExprKind::Field { receiver, name } => {
            out.append(prefix);
            out.append("Field ");
            out.append(name.as_str());
            push_char(out, '\n');
            let p1 = deeper(prefix, Ghost(d));
            dump_expr(out, receiver, p1.as_str(), Ghost(d + 1));
        },
        ExprKind::OptionalField { receiver, name } => {
            out.append(prefix);
            out.append("OptionalField ");
            out.append(name.as_str());
            push_char(out, '\n');
            let p1 = deeper(prefix, Ghost(d));
            dump_expr(out, receiver, p1.as_str(), Ghost(d + 1));
        },
        ExprKind::Call { callee, args } => {
            push_line(out, prefix, "Call");
            let p1 = deeper(prefix, Ghost(d));
            dump_expr(out, callee, p1.as_str(), Ghost(d + 1));
            dump_args(out, args, p1.as_str(), Ghost(d + 1));
        },
        ExprKind::Index { receiver, index } => {
            push_line(out, prefix, "Index");
            let p1 = deeper(prefix, Ghost(d));
            dump_expr(out, receiver, p1.as_str(), Ghost(d + 1));
            dump_expr(out, index, p1.as_str(), Ghost(d + 1));
        },
        ExprKind::Unary { op, operand } => {
            out.append(prefix);
            out.append("Unary ");
            out.append(op.as_str());
            push_char(out, '\n');
            let p1 = deeper(prefix, Ghost(d));
            dump_expr(out, operand, p1.as_str(), Ghost(d + 1));
        },
        ExprKind::Binary { op, left, right } => {
            out.append(prefix);
            out.append("Binary ");
            out.append(op.as_str());
            push_char(out, '\n');
            let p1 = deeper(prefix, Ghost(d));
            dump_expr(out, left, p1.as_str(), Ghost(d + 1));
            dump_expr(out, right, p1.as_str(), Ghost(d + 1));
        },
        ExprKind::Cast { expr, ty } => {
            out.append(prefix);
            out.append("Cast ");
            push_type(out, ty);
            push_char(out, '\n');
            let p1 = deeper(prefix, Ghost(d));
            dump_expr(out, expr, p1.as_str(), Ghost(d + 1));
        },
        ExprKind::Tuple(elements) => {
            push_line(out, prefix, "Tuple");
            let p1 = deeper(prefix, Ghost(d));
            dump_exprs(out, elements, p1.as_str(), Ghost(d + 1));
        },
        ExprKind::List(elements) => {
            push_line(out, prefix, "List");
            let p1 = deeper(prefix, Ghost(d));
            dump_exprs(out, elements, p1.as_str(), Ghost(d + 1));
        },
        ExprKind::MapLit(entries) => {
            push_line(out, prefix, "Map");
            let p1 = deeper(prefix, Ghost(d));
            dump_entries(out, entries, p1.as_str(), Ghost(d + 1));
        },
        ExprKind::If { condition, then_block, else_branch } => {
            push_line(out, prefix, "If");
            let p1 = deeper(prefix, Ghost(d));
            dump_expr(out, condition, p1.as_str(), Ghost(d + 1));
            dump_block(out, then_block, p1.as_str(), Ghost(d + 1));
            match else_branch {
                Some(branch) => {
                    push_line(out, p1.as_str(), "Else");
                    let p2 = deeper(p1.as_str(), Ghost(d + 1));
                    dump_expr(out, branch, p2.as_str(), Ghost(d + 2));
                },
                None => {},
            }
        },
        ExprKind::Match { scrutinee, arms } => {
            push_line(out, prefix, "Match");
            let p1 = deeper(prefix, Ghost(d));
            dump_expr(out, scrutinee, p1.as_str(), Ghost(d + 1));
            dump_arms(out, arms, p1.as_str(), Ghost(d + 1));
        },
        ExprKind::Try(inner) => {
            push_line(out, prefix, "Try");
            let p1 = deeper(prefix, Ghost(d));
            dump_expr(out, inner, p1.as_str(), Ghost(d + 1));
        },
        ExprKind::Fail(inner) => {
            push_line(out, prefix, "Fail");
            let p1 = deeper(prefix, Ghost(d));
            dump_expr(out, inner, p1.as_str(), Ghost(d + 1));
        },
        ExprKind::Lambda { params, body } => {
            out.append(prefix);
            out.append("Lambda(");
            push_names(out, params);
            out.append(")");
            push_char(out, '\n');
            let p1 = deeper(prefix, Ghost(d));
            dump_expr(out, body, p1.as_str(), Ghost(d + 1));
        },
    }
    assert(out@ =~= before + dump_expr_spec(*e, d));
}

/// Appends the dump of a block.
fn dump_block(out: &mut String, b: &Block, prefix: &str, Ghost(d): Ghost<nat>)
    requires
        prefix@ == indent_spec(d),
    ensures
        final(out)@ == old(out)@ + dump_block_spec(*b, d),
    decreases *b,
{
    let ghost before = out@;
    push_line(out, prefix, "Block");
    let p1 = deeper(prefix, Ghost(d));
    dump_stmts(out, &b.statements, p1.as_str(), Ghost(d + 1));
    assert(out@ =~= before + dump_block_spec(*b, d));
}

fn dump_stmts(out: &mut String, ss: &Vec<Stmt>, prefix: &str, Ghost(d): Ghost<nat>)
    requires
        prefix@ == indent_spec(d),
    ensures
        final(out)@ == old(out)@ + dump_stmts_spec(ss@, d),
    decreases ss@,
{
    let ghost base = out@;
    let mut i: usize = 0;
    while i < ss.len()
        invariant
            i <= ss@.len(),
            prefix@ == indent_spec(d),
            out@ == base + dump_stmts_spec(ss@.take(i as int), d),
        decreases ss@.len() - i,
    {
        proof {
            assert(decreases_to!(ss@ => ss@[i as int]));
        }
        dump_stmt(out, &ss[i], prefix, Ghost(d));
        proof {
            let t = ss@.take(i + 1);
            assert(t.drop_last() =~= ss@.take(i as int));
        }
        i = i + 1;
    }
    assert(ss@.take(i as int) =~= ss@);
}

/// Appends the dump of a statement.
#[verifier::spinoff_prover]
#[verifier::rlimit(40)]
fn dump_stmt(out: &mut String, s: &Stmt, prefix: &str, Ghost(d): Ghost<nat>)
    requires
        prefix@ == indent_spec(d),
    ensures
        final(out)@ == old(out)@ + dump_stmt_spec(*s, d),
    decreases *s,
{
    let ghost before = out@;
    match &s.kind {
        StmtKind::Let { pattern, mutable, ty, value } => {
            out.append(prefix);
            out.append("Let ");
            if *mutable {
                out.append("mut ");
            }
            push_pattern(out, pattern);
            match ty {
                Some(t) => {
                    out.append(": ");
                    push_type(out, t);
                },
                None => {},
            }
            out.append(" =");
            push_char(out, '\n');
            let p1 = deeper(prefix, Ghost(d));
            dump_expr(out, value, p1.as_str(), Ghost(d + 1));
        },
        StmtKind::Assign { target, op, value } => {
            out.append(prefix);
            out.append("Assign ");
            out.append(op.as_str());
            push_char(out, '\n');
            let p1 = deeper(prefix, Ghost(d));
            dump_expr(out, target, p1.as_str(), Ghost(d + 1));
            dump_expr(out, value, p1.as_str(), Ghost(d + 1));
        },
        StmtKind::While { condition, body } => {
            push_line(out, prefix, "While");
            let p1 = deeper(prefix, Ghost(d));
            dump_expr(out, condition, p1.as_str(), Ghost(d + 1));
            dump_block(out, body, p1.as_str(), Ghost(d + 1));
        },
        StmtKind::For { pattern, iterable, body } => {
            out.append(prefix);
            out.append("For ");
            push_pattern(out, pattern);
            push_char(out, '\n');
            let p1 = deeper(prefix, Ghost(d));
            dump_expr(out, iterable, p1.as_str(), Ghost(d + 1));
            dump_block(out, body, p1.as_str(), Ghost(d + 1));
        },
        StmtKind::Return(value) => {
            push_line(out, prefix, "Return");
            match value {
                Some(v) => {
                    let p1 = deeper(prefix, Ghost(d));
                    dump_expr(out, v, p1.as_str(), Ghost(d + 1));
                },
                None => {},
            }
        },
        StmtKind::Break => push_line(out, prefix, "Break"),
        StmtKind::Continue => push_line(out, prefix, "Continue"),
        StmtKind::Fail(v) => {
            push_line(out, prefix, "Fail");
            let p1 = deeper(prefix, Ghost(d));
            dump_expr(out, v, p1.as_str(), Ghost(d + 1));
        },
        StmtKind::Expr(e) => {
            dump_expr(out, e, prefix, Ghost(d));
        },
    }
    assert(out@ =~= before + dump_stmt_spec(*s, d));
}

// --- Items ---------------------------------------------------------------------------

/// The path segments joined by `.`.
pub open spec fn dotted_text(ns: Seq<String>) -> Seq<char>
    decreases ns.len(),
{
    if ns.len() == 0 {
        Seq::empty()
    } else if ns.len() == 1 {
        ns[0]@
    } else {
        dotted_text(ns.drop_last()) + "."@ + ns.last()@
    }
}

/// A parameter or field line plus its default value, if any.
pub open spec fn decl_with_default_spec(word: Seq<char>, name: Seq<char>, ty: Type, default: Option<Expr>, d: nat)
    -> Seq<char>
{
    line_spec(d, word + name + ": "@ + type_text_spec(ty)) + match default {
        Some(e) => line_spec(d + 1, "default"@) + dump_expr_spec(e, d + 2),
        None => Seq::empty(),
    }
}

pub open spec fn dump_params_spec(ps: Seq<Param>, d: nat) -> Seq<char>
    decreases ps.len(),
{
    if ps.len() == 0 {
        Seq::empty()
    } else {
        dump_params_spec(ps.drop_last(), d)
            + decl_with_default_spec("Param "@, ps.last().name@, ps.last().ty, ps.last().default, d)
    }
}

pub open spec fn dump_fields_spec(fs: Seq<FieldDecl>, d: nat) -> Seq<char>
    decreases fs.len(),
{
    if fs.len() == 0 {
        Seq::empty()
    } else {
        dump_fields_spec(fs.drop_last(), d)
            + decl_with_default_spec("Field "@, fs.last().name@, fs.last().ty, fs.last().default, d)
    }
}

pub open spec fn variant_line_spec(v: VariantDecl, d: nat) -> Seq<char> {
    if v.payload@.len() == 0 {
        line_spec(d, "Variant "@ + v.name@)
    } else {
        line_spec(d, "Variant "@ + v.name@ + "("@ + types_text_spec(v.payload@) + ")"@)
    }
}

pub open spec fn dump_variants_spec(vs: Seq<VariantDecl>, d: nat) -> Seq<char>
    decreases vs.len(),
{
    if vs.len() == 0 {
        Seq::empty()
    } else {
        dump_variants_spec(vs.drop_last(), d) + variant_line_spec(vs.last(), d)
    }
}

pub open spec fn dump_fn_spec(decl: FnDecl, d: nat) -> Seq<char> {
    line_spec(d, (if decl.public { "pub "@ } else { Seq::empty() }) + "Fn "@ + decl.name@)
        + dump_params_spec(decl.params@, d + 1)
        + match decl.ret {
            Some(t) => line_spec(d + 1, "ret "@ + type_text_spec(t)),
            None => Seq::empty(),
        }
        + dump_block_spec(decl.body, d + 1)
}

/// The dump of an item at `d`.
pub open spec fn dump_item_spec(item: Item, d: nat) -> Seq<char> {
    match item.kind {
        ItemKind::Fn(decl) => dump_fn_spec(decl, d),
        ItemKind::Data(decl) => line_spec(d, "Data "@ + decl.name@) + dump_fields_spec(decl.fields@, d + 1),
        ItemKind::Enum(decl) => line_spec(d, "Enum "@ + decl.name@) + dump_variants_spec(decl.variants@, d + 1),
        ItemKind::Use(decl) => line_spec(d, "Use "@ + dotted_text(decl.path@)) + match decl.alias {
            Some(a) => line_spec(d + 1, "alias "@ + a@),
            None => Seq::empty(),
        },
    }
}

pub open spec fn dump_items_spec(items: Seq<Item>) -> Seq<char>
    decreases items.len(),
{
    if items.len() == 0 {
        Seq::empty()
    } else {
        dump_items_spec(items.drop_last()) + dump_item_spec(items.last(), 0)
    }
}

fn dump_decl_with_default(out: &mut String, word: &str, name: &String, ty: &Type, default: &Option<Expr>,
    prefix: &str, Ghost(d): Ghost<nat>)
    requires
        prefix@ == indent_spec(d),
    ensures
        final(out)@ == old(out)@ + decl_with_default_spec(word@, name@, *ty, *default, d),
{
    let ghost before = out@;
    out.append(prefix);
    out.append(word);
    out.append(name.as_str());
    out.append(": ");
    push_type(out, ty);
    push_char(out, '\n');
    match default {
        Some(e) => {
            let p1 = deeper(prefix, Ghost(d));
            push_line(out, p1.as_str(), "default");
            let p2 = deeper(p1.as_str(), Ghost(d + 1));
            dump_expr(out, e, p2.as_str(), Ghost(d + 2));
        },
        None => {},
    }
    assert(out@ =~= before + decl_with_default_spec(word@, name@, *ty, *default, d));
}

fn dump_fn(out: &mut String, decl: &FnDecl)
    ensures
        final(out)@ == old(out)@ + dump_fn_spec(*decl, 0),
{
    let ghost before = out@;
    let p0 = String::new();
    assert(p0@ =~= indent_spec(0));
    if decl.public {
        out.append("pub ");
    }
    out.append("Fn ");
    out.append(decl.name.as_str());
    push_char(out, '\n');
    assert(out@ =~= before + line_spec(0, (if decl.public { "pub "@ } else { Seq::empty() }) + "Fn "@ + decl.name@));
    let ghost mid = out@;
    let p1 = deeper(p0.as_str(), Ghost(0));
    let mut i: usize = 0;
    while i < decl.params.len()
        invariant
            i <= decl.params@.len(),
            p1@ == indent_spec(1),
            out@ == mid + dump_params_spec(decl.params@.take(i as int), 1),
        decreases decl.params@.len() - i,
    {
        let param = &decl.params[i];
        dump_decl_with_default(out, "Param ", &param.name, &param.ty, &param.default, p1.as_str(), Ghost(1));
        proof {
            let t = decl.params@.take(i + 1);
            assert(t.drop_last() =~= decl.params@.take(i as int));
        }
        i = i + 1;
    }
    assert(decl.params@.take(i as int) =~= decl.params@);
    match &decl.ret {
        Some(t) => {
            out.append(p1.as_str());
            out.append("ret ");
            push_type(out, t);
            push_char(out, '\n');
        },
        None => {},
    }
    dump_block(out, &decl.body, p1.as_str(), Ghost(1));
    assert(out@ =~= before + dump_fn_spec(*decl, 0));
}

#[verifier::spinoff_prover]
fn dump_item(out: &mut String, item: &Item)
    ensures
        final(out)@ == old(out)@ + dump_item_spec(*item, 0),
{
    let ghost before = out@;
    let p0 = String::new();
    assert(p0@ =~= indent_spec(0));
    assert(indent_spec(0) =~= Seq::<char>::empty());
    match &item.kind {
        ItemKind::Fn(decl) => dump_fn(out, decl),
        ItemKind::Data(decl) => {
            out.append("Data ");
            out.append(decl.name.as_str());
            push_char(out, '\n');
            let ghost mid = out@;
            let p1 = deeper(p0.as_str(), Ghost(0));
            let mut i: usize = 0;
            while i < decl.fields.len()
                invariant
                    i <= decl.fields@.len(),
                    p1@ == indent_spec(1),
                    out@ == mid + dump_fields_spec(decl.fields@.take(i as int), 1),
                decreases decl.fields@.len() - i,
            {
                let field = &decl.fields[i];
                dump_decl_with_default(out, "Field ", &field.name, &field.ty, &field.default, p1.as_str(), Ghost(1));
                proof {
                    let t = decl.fields@.take(i + 1);
                    assert(t.drop_last() =~= decl.fields@.take(i as int));
                }
                i = i + 1;
            }
            assert(decl.fields@.take(i as int) =~= decl.fields@);
            assert(out@ =~= before + dump_item_spec(*item, 0));
        },
        ItemKind::Enum(decl) => {
            out.append("Enum ");
            out.append(decl.name.as_str());
            push_char(out, '\n');
            let ghost mid = out@;
            let p1 = deeper(p0.as_str(), Ghost(0));
            let mut i: usize = 0;
            while i < decl.variants.len()
                invariant
                    i <= decl.variants@.len(),
                    p1@ == indent_spec(1),
                    out@ == mid + dump_variants_spec(decl.variants@.take(i as int), 1),
                decreases decl.variants@.len() - i,
            {
                let v = &decl.variants[i];
                let ghost b2 = out@;
                out.append(p1.as_str());
                out.append("Variant ");
                out.append(v.name.as_str());
                if v.payload.len() > 0 {
                    out.append("(");
                    push_types(out, &v.payload);
                    out.append(")");
                }
                push_char(out, '\n');
                proof {
                    assert(out@ =~= b2 + variant_line_spec(*v, 1));
                    let t = decl.variants@.take(i + 1);
                    assert(t.drop_last() =~= decl.variants@.take(i as int));
                }
                i = i + 1;
            }
            assert(decl.variants@.take(i as int) =~= decl.variants@);
            assert(out@ =~= before + dump_item_spec(*item, 0));
        },
        ItemKind::Use(decl) => {
            out.append("Use ");
            let ghost b2 = out@;
            let mut i: usize = 0;
            while i < decl.path.len()
                invariant
                    i <= decl.path@.len(),
                    out@ == b2 + dotted_text(decl.path@.take(i as int)),
                decreases decl.path@.len() - i,
            {
                if i > 0 {
                    out.append(".");
                }
                out.append(decl.path[i].as_str());
                proof {
                    let t = decl.path@.take(i + 1);
                    assert(t.drop_last() =~= decl.path@.take(i as int));
                    assert(out@ =~= b2 + dotted_text(t));
                }
                i = i + 1;
            }
            assert(decl.path@.take(i as int) =~= decl.path@);
            push_char(out, '\n');
            match &decl.alias {
                Some(a) => {
                    let p1 = deeper(p0.as_str(), Ghost(0));
                    out.append(p1.as_str());
                    out.append("alias ");
                    out.append(a.as_str());
                    push_char(out, '\n');
                    assert(out@ =~= before + dump_item_spec(*item, 0));
                },
                None => {
                    assert(out@ =~= before + dump_item_spec(*item, 0));
                },
            }
        },
    }
    assert(out@ =~= before + dump_item_spec(*item, 0));
}

/// Renders a whole program, one node per line.
pub fn dump_program(program: &Program) -> (s: String)
    ensures
        s@ == dump_items_spec(program.items@),
{
    let mut out = String::new();
    let mut i: usize = 0;
    while i < program.items.len()
        invariant
            i <= program.items@.len(),
            out@ == dump_items_spec(program.items@.take(i as int)),
        decreases program.items@.len() - i,
    {
        dump_item(&mut out, &program.items[i]);
        proof {
            let t = program.items@.take(i + 1);
            assert(t.drop_last() =~= program.items@.take(i as int));
        }
        i = i + 1;
    }
    assert(program.items@.take(i as int) =~= program.items@);
    out
}

/// An index expression lists its receiver before its index, each one level
/// deeper, after its own `Index` line.
pub proof fn law_index_dumps_receiver_first(e: Expr, d: nat)
    requires
        e.kind is Index,
    ensures
        ({
            let head = line_spec(d, "Index"@);
            let r = dump_expr_spec(*e.kind->Index_receiver, d + 1);
            let i = dump_expr_spec(*e.kind->index, d + 1);
            let out = dump_expr_spec(e, d);
            &&& out.len() == head.len() + r.len() + i.len()
            &&& out.subrange(0, head.len() as int) == head
            &&& out.subrange(head.len() as int, (head.len() + r.len()) as int) == r
            &&& out.subrange((head.len() + r.len()) as int, out.len() as int) == i
        }),
{
    let head = line_spec(d, "Index"@);
    let r = dump_expr_spec(*e.kind->Index_receiver, d + 1);
    let i = dump_expr_spec(*e.kind->index, d + 1);
    let out = dump_expr_spec(e, d);
    assert(out == head + r + i);
    assert(out.subrange(0, head.len() as int) =~= head);
    assert(out.subrange(head.len() as int, (head.len() + r.len()) as int) =~= r);
    assert(out.subrange((head.len() + r.len()) as int, out.len() as int) =~= i);
}

/// An index expression dumps its two operands as a binary operation on the
/// same operands does: after the head line, the same text.
pub proof fn law_index_operands_dump_as_binary_ones(e: Expr, f: Expr, d: nat)
    requires
        e.kind is Index,
        f.kind is Binary,
        *f.kind->left == *e.kind->Index_receiver,
        *f.kind->right == *e.kind->index,
    ensures
        dump_expr_spec(e, d).skip(line_spec(d, "Index"@).len() as int)
            == dump_expr_spec(f, d).skip(line_spec(d, "Binary "@ + f.kind->Binary_op.spelling()).len() as int),
{
    let a = line_spec(d, "Index"@);
    let b = line_spec(d, "Binary "@ + f.kind->Binary_op.spelling());
    let rest = dump_expr_spec(*e.kind->Index_receiver, d + 1) + dump_expr_spec(*e.kind->index, d + 1);
    assert(dump_expr_spec(e, d) == a + rest);
    assert(dump_expr_spec(f, d) == b + rest);
    assert((a + rest).skip(a.len() as int) =~= rest);
    assert((b + rest).skip(b.len() as int) =~= rest);
}

/// A binary operation lists its left operand before its right one, each one
/// level deeper, after its own line.
pub proof fn law_binary_dumps_left_first(e: Expr, d: nat)
    requires
        e.kind is Binary,
    ensures
        ({
            let head = line_spec(d, "Binary "@ + e.kind->Binary_op.spelling());
            let l = dump_expr_spec(*e.kind->left, d + 1);
            let r = dump_expr_spec(*e.kind->right, d + 1);
            let out = dump_expr_spec(e, d);
            &&& out.len() == head.len() + l.len() + r.len()
            &&& out.subrange(head.len() as int, (head.len() + l.len()) as int) == l
            &&& out.subrange((head.len() + l.len()) as int, out.len() as int) == r
        }),
{
    let head = line_spec(d, "Binary "@ + e.kind->Binary_op.spelling());
    let l = dump_expr_spec(*e.kind->left, d + 1);
    let r = dump_expr_spec(*e.kind->right, d + 1);
    let out = dump_expr_spec(e, d);
    assert(out == head + l + r);
    assert(out.subrange(head.len() as int, (head.len() + l.len()) as int) =~= l);
    assert(out.subrange((head.len() + l.len()) as int, out.len() as int) =~= r);
}

/// A call lists its callee before its arguments.
pub proof fn law_call_dumps_callee_first(e: Expr, d: nat)
    requires
        e.kind is Call,
    ensures
        ({
            let head = line_spec(d, "Call"@);
            let c = dump_expr_spec(*e.kind->callee, d + 1);
            let out = dump_expr_spec(e, d);
            &&& out.len() >= head.len() + c.len()
            &&& out.subrange(0, head.len() as int) == head
            &&& out.subrange(head.len() as int, (head.len() + c.len()) as int) == c
        }),
{
    let head = line_spec(d, "Call"@);
    let c = dump_expr_spec(*e.kind->callee, d + 1);
    let out = dump_expr_spec(e, d);
    let a = dump_args_spec(e.kind->args@, d + 1);
    assert(out == head + c + a);
    assert(out.subrange(0, head.len() as int) =~= head);
    assert(out.subrange(head.len() as int, (head.len() + c.len()) as int) =~= c);
}

} // verus!
