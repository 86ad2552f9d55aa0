use std::collections::{HashMap, VecDeque};

use symexec::analyze::scope::Arm;
use symexec::analyze::{analyze, Analyzer};
use symexec::context::{Context, Var};
use symexec::error::{AnalysisError, AnalysisType};
use symexec::lir::{Lir, LirKind};
use symexec::solver::{judge, Query, Report, Step};
use symexec::text;
use symexec::tree::{
    BinOp, FnDef, Lit, LogicalOp, RExpr, RExprKind, RParam, RPatKind, RThir, Span, Ty, UnOp,
};

fn sp(n: u32) -> Span {
    Span { lo: n, hi: n + 1 }
}

fn ex(kind: RExprKind, n: u32) -> RExpr {
    RExpr { kind, span: sp(n) }
}

fn num(n: u128, s: u32) -> RExpr {
    ex(RExprKind::Literal { lit: Lit::Int(n), neg: false }, s)
}

fn boolean(b: bool, s: u32) -> RExpr {
    ex(RExprKind::Literal { lit: Lit::Bool(b), neg: false }, s)
}

fn var(id: u64, s: u32) -> RExpr {
    ex(RExprKind::VarRef { id }, s)
}

fn bin(op: BinOp, lhs: RExpr, rhs: RExpr, s: u32) -> RExpr {
    ex(RExprKind::Binary { op, lhs: Box::new(lhs), rhs: Box::new(rhs) }, s)
}

fn binding(name: &str, ty: Ty, var: u64, s: u32) -> RExpr {
    ex(RExprKind::Pat { kind: RPatKind::Binding { name: name.to_string(), ty, var } }, s)
}

fn let_stmt(name: &str, ty: Ty, var: u64, init: Option<RExpr>, s: u32) -> RExpr {
    ex(
        RExprKind::LetStmt {
            pattern: Box::new(binding(name, ty, var, s)),
            initializer: init.map(Box::new),
            else_block: None,
        },
        s,
    )
}

fn assign(id: u64, rhs: RExpr, s: u32) -> RExpr {
    ex(RExprKind::Assign { lhs: Box::new(var(id, s)), rhs: Box::new(rhs) }, s)
}

fn assign_op(op: BinOp, id: u64, rhs: RExpr, s: u32) -> RExpr {
    ex(RExprKind::AssignOp { op, lhs: Box::new(var(id, s)), rhs: Box::new(rhs) }, s)
}

fn block(stmts: Vec<RExpr>, expr: Option<RExpr>, s: u32) -> RExpr {
    ex(RExprKind::Block { stmts, expr: expr.map(Box::new) }, s)
}

fn if_(cond: RExpr, then: RExpr, else_opt: Option<RExpr>, s: u32) -> RExpr {
    ex(
        RExprKind::If {
            cond: Box::new(cond),
            then: Box::new(then),
            else_opt: else_opt.map(Box::new),
        },
        s,
    )
}

fn ret(value: Option<RExpr>, s: u32) -> RExpr {
    ex(RExprKind::Return { value: value.map(Box::new) }, s)
}

fn call_extern(path: &str, args: Vec<RExpr>, s: u32) -> RExpr {
    ex(RExprKind::Call { def: FnDef { local: None, path: path.to_string() }, args }, s)
}

fn call_local(id: u64, path: &str, args: Vec<RExpr>, s: u32) -> RExpr {
    ex(RExprKind::Call { def: FnDef { local: Some(id), path: path.to_string() }, args }, s)
}

fn t3assert(cond: RExpr, s: u32) -> RExpr {
    call_extern("t3modules::t3assert", vec![cond], s)
}

fn t3assume(cond: RExpr, s: u32) -> RExpr {
    call_extern("t3modules::t3assume", vec![cond], s)
}

fn rand(kind: &str, s: u32) -> RExpr {
    call_extern(&format!("t3modules::{}", kind), vec![], s)
}

fn function(params: Vec<RExpr>, stmts: Vec<RExpr>) -> RThir {
    RThir {
        params: params.into_iter().map(|p| RParam { pat: Some(Box::new(p)) }).collect(),
        body: Some(block(stmts, None, 0)),
    }
}

fn program(fns: Vec<(u64, RThir)>) -> HashMap<u64, RThir> {
    fns.into_iter().collect()
}

fn main_only(stmts: Vec<RExpr>) -> HashMap<u64, RThir> {
    program(vec![(0, function(vec![], stmts))])
}

fn unsupported(what: &str) -> AnalysisError {
    AnalysisError::UnsupportedPattern(what.to_string())
}

fn smts(report: &Report) -> Vec<String> {
    report.queries.iter().map(|q| q.smt.clone()).collect()
}

fn decl(name: &str, ty: Ty, s: u32) -> Lir {
    Lir::new_parameter(name.to_string(), ty, sp(s))
}

fn assumed(constraint: &str, s: u32) -> Lir {
    Lir::new_assume(constraint.to_string(), sp(s))
}

fn parameter_program(assertion: RExpr) -> HashMap<u64, RThir> {
    let callee = function(
        vec![binding("x", Ty::Int, 10, 1)],
        vec![
            t3assume(bin(BinOp::Gt, var(10, 2), num(0, 3), 4), 5),
            t3assert(assertion, 9),
        ],
    );
    let main = function(
        vec![],
        vec![
            let_stmt("a", Ty::Int, 1, Some(rand("rand_int", 20)), 21),
            call_local(7, "f", vec![var(1, 22)], 23),
        ],
    );
    program(vec![(0, main), (7, callee)])
}

#[test]
fn assertion_that_holds_is_confirmed() {
    let fns = parameter_program(bin(
        BinOp::Gt,
        bin(BinOp::Add, var(10, 6), num(1, 6), 6),
        num(0, 7),
        8,
    ));
    let report = analyze(0, &fns);
    assert_eq!(report.outcome, Ok(()));
    assert_eq!(
        smts(&report),
        vec![concat_lines(&[
            "(declare-const main_a Int)",
            "(declare-const f_x Int)",
            "(assert (= f_x main_a))",
            "(assert (> f_x 0))",
            "(assert (not (> (+ f_x 1) 0)))",
        ]) + "(check-sat)"]
    );
    assert_eq!(report.queries[0].span, sp(8));
    assert_eq!(report.advance(&vec![]), Step::Ask(0));
    assert_eq!(report.advance(&vec!["unsat\n".to_string()]), Step::Done(Ok(())));
}

fn concat_lines(lines: &[&str]) -> String {
    let mut s = String::new();
    for line in lines {
        s.push_str(line);
        s.push('\n');
    }
    s
}

#[test]
fn assertion_that_fails_is_a_verify_error() {
    let fns = parameter_program(bin(BinOp::Lt, var(10, 6), num(0, 7), 8));
    let report = analyze(0, &fns);
    assert_eq!(report.outcome, Ok(()));
    assert_eq!(
        smts(&report),
        vec![concat_lines(&[
            "(declare-const main_a Int)",
            "(declare-const f_x Int)",
            "(assert (= f_x main_a))",
            "(assert (> f_x 0))",
            "(assert (not (< f_x 0)))",
        ]) + "(check-sat)"]
    );
    let answer = "sat\n(model)\n".to_string();
    assert_eq!(
        report.advance(&vec![answer.clone()]),
        Step::Done(Err(AnalysisError::VerifyError { message: answer, span: sp(8) }))
    );
}

#[test]
fn free_choice_leaves_the_variable_unconstrained() {
    let fns = main_only(vec![
        let_stmt("y", Ty::Bool, 1, Some(rand("rand_bool", 1)), 2),
        t3assert(bin(BinOp::Eq, var(1, 3), var(1, 4), 5), 6),
    ]);
    let report = analyze(0, &fns);
    assert_eq!(report.outcome, Ok(()));
    assert_eq!(
        smts(&report),
        vec!["(declare-const main_y Bool)\n(assert (not (= main_y main_y)))\n(check-sat)"
            .to_string()]
    );
    assert_eq!(report.advance(&vec!["unsat\n".to_string()]), Step::Done(Ok(())));
}

#[test]
fn free_choice_inside_an_operation_leaves_the_variable_unconstrained() {
    let fns = main_only(vec![
        let_stmt(
            "y",
            Ty::Int,
            1,
            Some(bin(BinOp::Add, rand("rand_int", 1), num(1, 1), 1)),
            2,
        ),
        t3assert(bin(BinOp::Eq, var(1, 3), var(1, 4), 5), 6),
    ]);
    let report = analyze(0, &fns);
    assert_eq!(report.outcome, Ok(()));
    assert_eq!(
        smts(&report),
        vec!["(declare-const main_y Int)\n(assert (not (= main_y main_y)))\n(check-sat)"
            .to_string()]
    );
}

#[test]
fn free_choice_inside_an_arm_is_a_failure() {
    let fns = main_only(vec![
        let_stmt(
            "y",
            Ty::Bool,
            1,
            Some(if_(
                boolean(true, 1),
                block(vec![], Some(rand("rand_bool", 2)), 2),
                Some(block(vec![], Some(boolean(false, 3)), 3)),
                4,
            )),
            5,
        ),
        t3assert(boolean(true, 6), 6),
    ]);
    let report = analyze(0, &fns);
    assert_eq!(report.outcome, Err(unsupported("Free value outside a let")));
    assert!(report.queries.is_empty());
}

#[test]
fn is_return_tells_returns_apart() {
    assert!(AnalysisType::Return(None).is_return());
    assert!(AnalysisType::Return(Some("x".to_string())).is_return());
    assert!(!AnalysisType::Other.is_return());
}

#[test]
fn literals_render_to_their_text() {
    let lit = |l: Lit, neg: bool| Analyzer::literal_to_constraint(&l, neg);
    assert_eq!(lit(Lit::Int(42), false), Ok("42".to_string()));
    assert_eq!(lit(Lit::Int(42), true), Ok("-42".to_string()));
    assert_eq!(lit(Lit::Int(0), false), Ok("0".to_string()));
    assert_eq!(lit(Lit::Int(10), false), Ok("10".to_string()));
    assert_eq!(lit(Lit::Int(907), false), Ok("907".to_string()));
    assert_eq!(
        lit(Lit::Int(u128::MAX), false),
        Ok("340282366920938463463374607431768211455".to_string())
    );
    assert_eq!(lit(Lit::Bool(true), false), Ok("true".to_string()));
    assert_eq!(lit(Lit::Bool(false), true), Ok("false".to_string()));
    assert_eq!(lit(Lit::Float("1.5".to_string()), false), Ok("1.5".to_string()));
    assert_eq!(lit(Lit::Float("1.5".to_string()), true), Ok("-1.5".to_string()));
    assert_eq!(lit(Lit::Str("hello".to_string()), true), Ok("hello".to_string()));
    assert_eq!(lit(Lit::Char('a'), false), Ok("'a'".to_string()));
    assert_eq!(
        lit(Lit::ByteStr(vec![104, 105, 0, 34, 92, 255, 126, 127, 32, 31]), false),
        Ok("b\"hi\\x00\\x22\\x5c\\xff~\\x7f \\x1f\"".to_string())
    );
    assert_eq!(lit(Lit::ByteStr(vec![]), false), Ok("b\"\"".to_string()));
    assert_eq!(lit(Lit::Other, false), Err(unsupported("Unsupported literal pattern")));
}

#[test]
fn operators_render_in_prefix_form() {
    let a = "a".to_string();
    let b = "b".to_string();
    let table = [
        (BinOp::Add, "(+ a b)"),
        (BinOp::Sub, "(- a b)"),
        (BinOp::Mul, "(* a b)"),
        (BinOp::Rem, "(% a b)"),
        (BinOp::Div, "(/ a b)"),
        (BinOp::BitXor, "(^ a b)"),
        (BinOp::BitAnd, "(& a b)"),
        (BinOp::BitOr, "(| a b)"),
        (BinOp::Eq, "(= a b)"),
        (BinOp::Lt, "(< a b)"),
        (BinOp::Le, "(<= a b)"),
        (BinOp::Ne, "(!= a b)"),
        (BinOp::Ge, "(>= a b)"),
        (BinOp::Gt, "(> a b)"),
    ];
    for (op, text) in table {
        assert_eq!(Analyzer::bin_op_to_constraint(op, &a, &b), Ok(text.to_string()));
    }
    for (op, name) in
        [(BinOp::Shl, "Shl"), (BinOp::Shr, "Shr"), (BinOp::Cmp, "Cmp"), (BinOp::Offset, "Offset")]
    {
        assert_eq!(
            Analyzer::bin_op_to_constraint(op, &a, &b),
            Err(AnalysisError::UnsupportedOperator(name.to_string()))
        );
    }
    assert_eq!(Analyzer::un_op_to_constraint(UnOp::Not, &a), Ok("(not a)".to_string()));
    assert_eq!(Analyzer::un_op_to_constraint(UnOp::Neg, &a), Ok("(- a)".to_string()));
    assert_eq!(
        Analyzer::un_op_to_constraint(UnOp::PtrMetadata, &a),
        Err(AnalysisError::UnsupportedOperator("PtrMetadata".to_string()))
    );
    assert_eq!(
        Analyzer::logical_op_to_constraint(LogicalOp::And, &a, &b),
        Ok("(and a b)".to_string())
    );
    assert_eq!(
        Analyzer::logical_op_to_constraint(LogicalOp::Or, &a, &b),
        Ok("(or a b)".to_string())
    );
    assert_eq!(
        Analyzer::value_to_ite("c".to_string(), a.clone(), b.clone()),
        "(ite c a b)".to_string()
    );
}

#[test]
fn text_builders_give_exact_text() {
    assert_eq!(text::unary("not", "c"), "(not c)");
    assert_eq!(text::binary("=", "a", "b"), "(= a b)");
    assert_eq!(text::ternary("ite", "c", "a", "b"), "(ite c a b)");
    assert_eq!(text::equal("a", "b"), "(= a b)");
    assert_eq!(text::implication("c", "a"), "(=> c a)");
    assert_eq!(text::negated("c"), "(not c)");
    assert_eq!(text::scoped("main", "x"), "main_x");
    assert_eq!(text::marked("main_x"), "main_x+");
    assert_eq!(text::joined("ab", "cd"), "abcd");
    assert_eq!(text::decimal(1234567890), "1234567890");
    assert_eq!(text::quoted_char('+'), "'+'");
    assert_eq!(text::chars_of("a+b"), vec!['a', '+', 'b']);
    assert_eq!(text::byte_string(&vec![65, 10]), "b\"A\\x0a\"");
}

#[test]
fn prefixes_and_equal_texts_are_recognised() {
    assert!(text::starts_with("main_x", "main"));
    assert!(text::starts_with("main", "main"));
    assert!(text::starts_with("main", ""));
    assert!(!text::starts_with("mai", "main"));
    assert!(!text::starts_with("then_x", "main"));
    assert!(text::same("then", "then"));
    assert!(!text::same("then", "then+"));
    assert!(!text::same("then", "them"));
    assert!(text::same("", ""));
}

#[test]
fn paths_split_into_their_segments() {
    let split = |p: &str| text::split_path(p);
    assert_eq!(split("t3modules::t3assert"), vec!["t3modules", "t3assert"]);
    assert_eq!(split("f"), vec!["f"]);
    assert_eq!(split(""), Vec::<String>::new());
    assert_eq!(split("::::"), Vec::<String>::new());
    assert_eq!(split("::a::"), vec!["a"]);
    assert_eq!(split("a\"b\\c:d"), vec!["a", "b", "c", "d"]);
    assert_eq!(split("std::mem::swap"), vec!["std", "mem", "swap"]);
}

#[test]
fn entries_render_to_solver_statements() {
    assert_eq!(decl("x", Ty::Int, 0).to_smt(), Ok("(declare-const x Int)\n".to_string()));
    assert_eq!(decl("b", Ty::Bool, 0).to_smt(), Ok("(declare-const b Bool)\n".to_string()));
    assert_eq!(decl("r", Ty::Float, 0).to_smt(), Ok("(declare-const r Real)\n".to_string()));
    assert_eq!(decl("s", Ty::Str, 0).to_smt(), Ok("(declare-const s String)\n".to_string()));
    assert_eq!(decl("o", Ty::Other, 0).to_smt(), Err(unsupported("Unsupported type")));
    assert_eq!(assumed("(> x 0)", 0).to_smt(), Ok("(assert (> x 0))\n".to_string()));
    assert_eq!(assumed("(> x 0)", 0).to_assert(), "(assert (not (> x 0)))\n");
    let text = Lir::new_assumptions("(assert true)\n".to_string(), sp(3));
    assert_eq!(text.to_smt(), Ok("(assert true)\n".to_string()));
    assert_eq!(text.get_span(), sp(3));
    assert_eq!(text.duplicate(), text);
    assert_eq!(
        decl("x", Ty::Int, 4).kind,
        LirKind::Declaration { name: "x".to_string(), ty: Ty::Int }
    );
}

#[test]
fn scope_keeps_its_log_and_its_variables() {
    let mut c = Context::new();
    assert_eq!(c.name(), "main");
    assert_eq!(c.len(), 0);
    assert_eq!(c.get_assumptions(), Ok(String::new()));
    assert_eq!(c.get_var(1), Err(AnalysisError::UnboundVariable(1)));
    c.add_assumption(decl("main_x", Ty::Int, 1));
    c.insert_var(1, "main_x".to_string(), Ty::Int);
    c.add_assumption(decl("main_y", Ty::Bool, 2));
    c.insert_var(2, "main_y".to_string(), Ty::Bool);
    c.add_assumption(assumed("(> main_x 0)", 3));
    assert_eq!(c.len(), 3);
    assert_eq!(c.get_latest_span(), sp(3));
    assert_eq!(c.get_assumption(1), &decl("main_y", Ty::Bool, 2));
    assert_eq!(c.get_var(1), Ok(("main_x".to_string(), Ty::Int)));
    assert_eq!(c.get_var(2), Ok(("main_y".to_string(), Ty::Bool)));
    c.insert_var(1, "main_x+".to_string(), Ty::Int);
    assert_eq!(c.get_var(1), Ok(("main_x+".to_string(), Ty::Int)));
    assert_eq!(
        c.var_map,
        vec![
            Var { id: 1, name: "main_x+".to_string(), ty: Ty::Int },
            Var { id: 2, name: "main_y".to_string(), ty: Ty::Bool },
        ]
    );
    assert_eq!(
        c.get_assumptions(),
        Ok("(declare-const main_x Int)\n(declare-const main_y Bool)\n(assert (> main_x 0))\n"
            .to_string())
    );
    assert_eq!(
        c.get_assumptions_for_verify(),
        Ok("(declare-const main_x Int)\n(declare-const main_y Bool)\n(assert (not (> main_x 0)))\n"
            .to_string())
    );
}

#[test]
fn rendering_a_log_twice_gives_the_same_text() {
    let mut c = Context::from("f".to_string(), VecDeque::new(), vec![]);
    c.add_assumption(Lir::new_assumptions("(declare-const a Int)\n".to_string(), sp(0)));
    c.add_assumption(decl("f_x", Ty::Int, 1));
    c.add_assumption(assumed("(= f_x a)", 2));
    let first = c.get_assumptions();
    let second = c.get_assumptions();
    assert_eq!(first, second);
    assert_eq!(
        first,
        Ok("(declare-const a Int)\n(declare-const f_x Int)\n(assert (= f_x a))\n".to_string())
    );
    assert_eq!(c.get_assumptions_for_verify(), c.get_assumptions_for_verify());
    assert_eq!(
        c.get_assumptions_for_verify(),
        Ok("(declare-const a Int)\n(declare-const f_x Int)\n(assert (not (= f_x a)))\n"
            .to_string())
    );

    let empty = Context::new();
    assert_eq!(empty.get_assumptions_for_verify(), Err(unsupported("Nothing to check")));
    assert_eq!(empty.get_assumptions_for_verify(), empty.get_assumptions_for_verify());
    let mut no_assertion = Context::new();
    no_assertion.add_assumption(assumed("true", 1));
    no_assertion.add_assumption(decl("main_x", Ty::Int, 2));
    assert_eq!(no_assertion.get_assumptions_for_verify(), Err(unsupported("Nothing to check")));
    assert_eq!(
        no_assertion.get_assumptions_for_verify(),
        no_assertion.get_assumptions_for_verify()
    );
    let fns = HashMap::new();
    let mut a = Analyzer::new(&fns);
    assert_eq!(a.verify(), Err(unsupported("Nothing to check")));
    assert!(a.queries.is_empty());
}

#[test]
fn a_log_with_an_unsupported_type_does_not_render() {
    let mut c = Context::new();
    c.add_assumption(decl("main_p", Ty::Other, 1));
    c.add_assumption(assumed("true", 2));
    assert_eq!(c.get_assumptions(), Err(unsupported("Unsupported type")));
    assert_eq!(c.get_assumptions_for_verify(), Err(unsupported("Unsupported type")));
    let fns = main_only(vec![
        let_stmt("p", Ty::Other, 1, None, 1),
        t3assert(boolean(true, 2), 3),
    ]);
    let report = analyze(0, &fns);
    assert_eq!(report.outcome, Err(unsupported("Unsupported type")));
    assert!(report.queries.is_empty());
}

#[test]
fn reassignments_get_distinct_names() {
    let fns = HashMap::new();
    let mut a = Analyzer::new(&fns);
    a.add_parameter("main_x".to_string(), Ty::Int, 1, sp(0));
    a.add_parameter("a".to_string(), Ty::Int, 2, sp(0));
    let x = var(1, 5);
    let mut names = vec!["main_x".to_string()];
    for _ in 0..4 {
        let (fresh, old) = a.assign_new_value(&x).unwrap();
        assert_eq!(&old, names.last().unwrap());
        assert_eq!(a.get_var(1), Ok(fresh.clone()));
        assert!(!names.contains(&fresh));
        names.push(fresh);
    }
    assert_eq!(names, vec!["main_x", "main_x+", "main_x++", "main_x+++", "main_x++++"]);
    assert_eq!(
        a.assign_new_value(&var(2, 6)),
        Ok(("main_a".to_string(), "a".to_string()))
    );
    assert_eq!(
        a.assign_new_value(&var(2, 6)),
        Ok(("main_a+".to_string(), "main_a".to_string()))
    );
    assert_eq!(a.assign_new_value(&var(3, 6)), Err(AnalysisError::UnboundVariable(3)));
    assert_eq!(
        a.assign_new_value(&num(1, 6)),
        Err(unsupported("Unsupported assignment target"))
    );
    assert_eq!(a.current_context.get_assumption(2), &decl("main_x+", Ty::Int, 5));
}

#[test]
fn arm_assumptions_go_under_the_guard() {
    let arm = Context::from(
        "then".to_string(),
        VecDeque::from(vec![
            Lir::new_assumptions("(declare-const main_x Int)\n".to_string(), sp(1)),
            assumed("(> main_x 0)", 2),
            decl("then_main_x", Ty::Int, 3),
            assumed("(= then_main_x 2)", 4),
            assumed("(> main_x 0)", 5),
            assumed("(not (> main_x 0))", 6),
        ]),
        vec![Var { id: 1, name: "then_main_x".to_string(), ty: Ty::Int }],
    );
    let adapted = Analyzer::adapt_cond_to_path(&"(> main_x 0)".to_string(), arm);
    assert_eq!(adapted.name, "then");
    assert_eq!(
        adapted.path,
        vec![
            decl("then_main_x", Ty::Int, 3),
            assumed("(=> (> main_x 0) (= then_main_x 2))", 4),
            assumed("(=> (> main_x 0) (not (> main_x 0)))", 6),
        ]
    );
    assert_eq!(
        adapted.var_map,
        vec![Var { id: 1, name: "then_main_x".to_string(), ty: Ty::Int }]
    );
}

fn branch_parent<'a>(fns: &'a HashMap<u64, RThir>) -> Analyzer<'a> {
    let mut a = Analyzer::new(fns);
    a.add_parameter("main_x".to_string(), Ty::Int, 1, sp(0));
    a.add_parameter("main_y".to_string(), Ty::Int, 2, sp(0));
    a
}

fn arm_ctxt(name: &str, guard: &str, x: &str, s: u32) -> Context {
    let mut c = Context::from(
        name.to_string(),
        VecDeque::from(vec![Lir::new_assumptions("(parent)\n".to_string(), sp(s)), assumed(guard, s)]),
        vec![
            Var { id: 1, name: "main_x".to_string(), ty: Ty::Int },
            Var { id: 2, name: "main_y".to_string(), ty: Ty::Int },
        ],
    );
    if x != "main_x" {
        c.add_assumption(decl(x, Ty::Int, s + 1));
        c.insert_var(1, x.to_string(), Ty::Int);
        c.add_assumption(assumed(&format!("(= {} 7)", x), s + 2));
    }
    c
}

#[test]
fn merge_of_two_arms_ties_one_new_name_to_both() {
    let fns = HashMap::new();
    let mut a = branch_parent(&fns);
    a.merge_then_else_ctxt(
        "c".to_string(),
        arm_ctxt("then", "c", "then_main_x", 10),
        Some(arm_ctxt("else", "(not c)", "else_main_x", 20)),
    );
    assert_eq!(
        a.current_context.path,
        vec![
            decl("main_x", Ty::Int, 0),
            decl("main_y", Ty::Int, 0),
            decl("then_main_x", Ty::Int, 11),
            assumed("(=> c (= then_main_x 7))", 12),
            decl("else_main_x", Ty::Int, 21),
            assumed("(=> (not c) (= else_main_x 7))", 22),
            decl("main_x+", Ty::Int, 12),
            assumed("(=> c (= main_x+ then_main_x))", 12),
            assumed("(=> (not c) (= main_x+ else_main_x))", 22),
        ]
    );
    assert_eq!(a.get_var(1), Ok("main_x+".to_string()));
    assert_eq!(a.get_var(2), Ok("main_y".to_string()));
}

#[test]
fn merge_states_no_equality_for_an_arm_that_kept_the_name() {
    let fns = HashMap::new();
    let mut a = branch_parent(&fns);
    a.merge_then_else_ctxt(
        "c".to_string(),
        arm_ctxt("then", "c", "main_x", 10),
        Some(arm_ctxt("else", "(not c)", "else_main_x", 20)),
    );
    assert_eq!(
        a.current_context.path,
        vec![
            decl("main_x", Ty::Int, 0),
            decl("main_y", Ty::Int, 0),
            decl("else_main_x", Ty::Int, 21),
            assumed("(=> (not c) (= else_main_x 7))", 22),
            decl("main_x+", Ty::Int, 22),
            assumed("(=> (not c) (= main_x+ else_main_x))", 22),
        ]
    );
    assert_eq!(a.get_var(1), Ok("main_x+".to_string()));

    let mut b = branch_parent(&fns);
    b.merge_then_else_ctxt("c".to_string(), arm_ctxt("then", "c", "then_main_x", 10), None);
    assert_eq!(
        b.current_context.path,
        vec![
            decl("main_x", Ty::Int, 0),
            decl("main_y", Ty::Int, 0),
            decl("then_main_x", Ty::Int, 11),
            assumed("(=> c (= then_main_x 7))", 12),
            decl("main_x+", Ty::Int, 12),
            assumed("(=> c (= main_x+ then_main_x))", 12),
        ]
    );

    let mut d = branch_parent(&fns);
    d.merge_then_else_ctxt("c".to_string(), arm_ctxt("then", "c", "main_x", 10), None);
    assert_eq!(
        d.current_context.path,
        vec![decl("main_x", Ty::Int, 0), decl("main_y", Ty::Int, 0)]
    );
    assert_eq!(d.get_var(1), Ok("main_x".to_string()));
}

#[test]
fn merge_of_a_call_is_unguarded() {
    let fns = HashMap::new();
    let mut a = branch_parent(&fns);
    a.merge_ctxt(arm_ctxt("f", "(> main_y 0)", "f_main_x", 10));
    assert_eq!(
        a.current_context.path,
        vec![
            decl("main_x", Ty::Int, 0),
            decl("main_y", Ty::Int, 0),
            assumed("(> main_y 0)", 10),
            decl("f_main_x", Ty::Int, 11),
            assumed("(= f_main_x 7)", 12),
            decl("main_x+", Ty::Int, 12),
            assumed("(= main_x+ f_main_x)", 12),
        ]
    );
    assert_eq!(a.get_var(1), Ok("main_x+".to_string()));
}

#[test]
fn absorb_takes_arms_as_they_are_given() {
    let mut parent = Context::new();
    parent.add_assumption(decl("main_x", Ty::Int, 0));
    parent.insert_var(1, "main_x".to_string(), Ty::Int);
    let first = Arm { guard: Some("g".to_string()), ctxt: arm_ctxt("then", "g", "t_x", 10) };
    parent.absorb(&first, &None);
    assert_eq!(
        parent.path,
        vec![
            decl("main_x", Ty::Int, 0),
            assumed("g", 10),
            decl("t_x", Ty::Int, 11),
            assumed("(= t_x 7)", 12),
            decl("main_x+", Ty::Int, 12),
            assumed("(=> g (= main_x+ t_x))", 12),
        ]
    );
}

#[test]
fn scopes_are_entered_and_left() {
    let fns = HashMap::new();
    let mut a = branch_parent(&fns);
    assert_eq!(a.save_and_switch_ctxt("then".to_string(), sp(9)), Ok(()));
    assert_eq!(a.context_stack.len(), 1);
    assert_eq!(a.current_context.name(), "then");
    assert_eq!(
        a.current_context.path,
        vec![Lir::new_assumptions(
            "(declare-const main_x Int)\n(declare-const main_y Int)\n".to_string(),
            sp(9)
        )]
    );
    assert_eq!(a.get_var(2), Ok("main_y".to_string()));
    assert_eq!(a.enter_arm("then", &"c".to_string(), sp(3), sp(4)), Ok(()));
    assert_eq!(a.current_context.name(), "then+");
    assert_eq!(a.current_context.get_assumption(1), &assumed("c", 4));
    assert_eq!(a.enter_arm("then", &"d".to_string(), sp(3), sp(4)), Ok(()));
    assert_eq!(a.current_context.name(), "then");
    assert_eq!(a.enter_arm("else", &"e".to_string(), sp(3), sp(4)), Ok(()));
    assert_eq!(a.current_context.name(), "else");
    assert_eq!(a.context_stack.len(), 4);
    let child = a.restore_ctxt();
    assert_eq!(child.name, "else");
    assert_eq!(a.current_context.name(), "then");
    assert_eq!(a.context_stack.len(), 3);
}

fn branch_program() -> HashMap<u64, RThir> {
    main_only(vec![
        let_stmt("x", Ty::Int, 1, Some(num(1, 1)), 2),
        if_(
            bin(BinOp::Gt, var(1, 3), num(0, 3), 3),
            block(vec![assign(1, num(2, 4), 4)], None, 5),
            Some(block(vec![assign(1, num(3, 6), 6)], None, 7)),
            8,
        ),
        t3assert(bin(BinOp::Gt, var(1, 9), num(1, 9), 9), 10),
    ])
}

#[test]
fn branch_is_merged_before_the_assertion() {
    let report = analyze(0, &branch_program());
    assert_eq!(report.outcome, Ok(()));
    assert_eq!(
        smts(&report),
        vec![concat_lines(&[
            "(declare-const main_x Int)",
            "(assert (= main_x 1))",
            "(declare-const then_main_x Int)",
            "(assert (=> (> main_x 0) (= then_main_x 2)))",
            "(declare-const else_main_x Int)",
            "(assert (=> (not (> main_x 0)) (= else_main_x 3)))",
            "(declare-const main_x+ Int)",
            "(assert (=> (> main_x 0) (= main_x+ then_main_x)))",
            "(assert (=> (not (> main_x 0)) (= main_x+ else_main_x)))",
            "(assert (not (> main_x+ 1)))",
        ]) + "(check-sat)"]
    );
}

#[test]
fn assertion_inside_an_arm_sees_the_parent_and_the_guard() {
    let fns = main_only(vec![
        let_stmt("x", Ty::Int, 1, Some(num(1, 1)), 2),
        if_(
            bin(BinOp::Gt, var(1, 3), num(0, 3), 3),
            block(
                vec![if_(
                    bin(BinOp::Lt, var(1, 4), num(5, 4), 4),
                    block(vec![], Some(t3assert(boolean(true, 5), 5)), 5),
                    None,
                    6,
                )],
                None,
                7,
            ),
            None,
            8,
        ),
    ]);
    let report = analyze(0, &fns);
    assert_eq!(report.outcome, Ok(()));
    assert_eq!(
        smts(&report),
        vec![concat_lines(&[
            "(declare-const main_x Int)",
            "(assert (= main_x 1))",
            "(assert (> main_x 0))",
            "(assert (< main_x 5))",
            "(assert (not true))",
        ]) + "(check-sat)"]
    );
}

#[test]
fn conditional_value_is_an_ite() {
    let fns = main_only(vec![
        let_stmt("c", Ty::Bool, 1, Some(rand("rand_bool", 1)), 1),
        let_stmt(
            "y",
            Ty::Int,
            2,
            Some(if_(
                var(1, 2),
                block(vec![], Some(num(1, 3)), 3),
                Some(block(vec![ret(Some(num(2, 4)), 4), t3assert(boolean(false, 4), 4)], None, 4)),
                5,
            )),
            6,
        ),
        t3assert(bin(BinOp::Ge, var(2, 7), num(1, 7), 7), 8),
    ]);
    let report = analyze(0, &fns);
    assert_eq!(report.outcome, Ok(()));
    assert_eq!(
        smts(&report),
        vec![concat_lines(&[
            "(declare-const main_c Bool)",
            "(declare-const main_y Int)",
            "(assert (= main_y (ite main_c 1 2)))",
            "(assert (not (>= main_y 1)))",
        ]) + "(check-sat)"]
    );
}

#[test]
fn compound_assignment_uses_the_old_name() {
    let fns = main_only(vec![
        let_stmt("x", Ty::Int, 1, Some(num(1, 1)), 1),
        assign_op(BinOp::Add, 1, bin(BinOp::Mul, var(1, 2), num(2, 2), 2), 3),
        assign(1, bin(BinOp::Sub, var(1, 4), num(1, 4), 4), 4),
        t3assert(bin(BinOp::Eq, var(1, 5), num(2, 5), 5), 5),
    ]);
    let report = analyze(0, &fns);
    assert_eq!(
        smts(&report),
        vec![concat_lines(&[
            "(declare-const main_x Int)",
            "(assert (= main_x 1))",
            "(declare-const main_x+ Int)",
            "(assert (= main_x+ (+ main_x (* main_x 2))))",
            "(declare-const main_x++ Int)",
            "(assert (= main_x++ (- main_x+ 1)))",
            "(assert (not (= main_x++ 2)))",
        ]) + "(check-sat)"]
    );
}

#[test]
fn statements_after_a_return_are_skipped() {
    let fns = main_only(vec![
        t3assert(boolean(true, 1), 1),
        ret(None, 2),
        t3assert(boolean(false, 3), 3),
    ]);
    let report = analyze(0, &fns);
    assert_eq!(report.outcome, Ok(()));
    assert_eq!(smts(&report), vec!["(assert (not true))\n(check-sat)".to_string()]);
}

#[test]
fn bare_expressions_are_assumed() {
    let fns = main_only(vec![
        let_stmt("x", Ty::Bool, 1, None, 1),
        var(1, 2),
        boolean(true, 3),
        bin(BinOp::Eq, var(1, 4), boolean(true, 4), 4),
        binding("raw", Ty::Int, 2, 5),
        ex(RExprKind::Pat { kind: RPatKind::Wild }, 6),
        t3assert(
            ex(
                RExprKind::LogicalOp {
                    op: LogicalOp::Or,
                    lhs: Box::new(var(1, 7)),
                    rhs: Box::new(ex(
                        RExprKind::Unary { op: UnOp::Not, arg: Box::new(var(1, 7)) },
                        7,
                    )),
                },
                7,
            ),
            8,
        ),
    ]);
    let report = analyze(0, &fns);
    assert_eq!(report.outcome, Ok(()));
    assert_eq!(
        smts(&report),
        vec![concat_lines(&[
            "(declare-const main_x Bool)",
            "(assert main_x)",
            "(assert true)",
            "(assert (= main_x true))",
            "(declare-const raw Int)",
            "(assert (not (or main_x (not main_x))))",
        ]) + "(check-sat)"]
    );
    assert_eq!(report.queries[0].span, sp(7));
}

#[test]
fn call_value_is_the_value_of_the_body() {
    let double = RThir {
        params: vec![
            RParam { pat: Some(Box::new(binding("n", Ty::Int, 10, 1))) },
            RParam { pat: Some(Box::new(ex(RExprKind::Pat { kind: RPatKind::Wild }, 1))) },
            RParam { pat: None },
        ],
        body: Some(block(vec![], Some(bin(BinOp::Mul, var(10, 2), num(2, 2), 2)), 3)),
    };
    let main = function(
        vec![],
        vec![
            let_stmt(
                "y",
                Ty::Int,
                1,
                Some(call_local(5, "crate::double", vec![num(4, 4), num(5, 4), num(6, 4)], 5)),
                6,
            ),
            t3assert(bin(BinOp::Eq, var(1, 7), num(8, 7), 7), 8),
        ],
    );
    let report = analyze(0, &program(vec![(0, main), (5, double)]));
    assert_eq!(report.outcome, Ok(()));
    assert_eq!(
        smts(&report),
        vec![concat_lines(&[
            "(declare-const main_y Int)",
            "(declare-const double_n Int)",
            "(assert (= double_n 4))",
            "(assert (= main_y (* double_n 2)))",
            "(assert (not (= main_y 8)))",
        ]) + "(check-sat)"]
    );
}

#[test]
fn every_assertion_gets_its_own_query() {
    let fns = main_only(vec![
        let_stmt("x", Ty::Int, 1, Some(num(1, 1)), 1),
        t3assert(bin(BinOp::Gt, var(1, 2), num(0, 2), 2), 3),
        t3assert(bin(BinOp::Lt, var(1, 4), num(2, 4), 4), 5),
        ex(RExprKind::Other, 6),
    ]);
    let report = analyze(0, &fns);
    assert_eq!(report.outcome, Err(unsupported("Unknown expr")));
    assert_eq!(
        smts(&report),
        vec![
            concat_lines(&[
                "(declare-const main_x Int)",
                "(assert (= main_x 1))",
                "(assert (not (> main_x 0)))",
            ]) + "(check-sat)",
            concat_lines(&[
                "(declare-const main_x Int)",
                "(assert (= main_x 1))",
                "(assert (> main_x 0))",
                "(assert (not (< main_x 2)))",
            ]) + "(check-sat)",
        ]
    );
    let ok = "unsat\n".to_string();
    assert_eq!(report.advance(&vec![]), Step::Ask(0));
    assert_eq!(report.advance(&vec![ok.clone()]), Step::Ask(1));
    assert_eq!(
        report.advance(&vec![ok.clone(), ok.clone()]),
        Step::Done(Err(unsupported("Unknown expr")))
    );
    assert_eq!(
        report.advance(&vec!["unknown\n".to_string(), ok.clone()]),
        Step::Done(Err(AnalysisError::VerifyError {
            message: "unknown\n".to_string(),
            span: sp(2)
        }))
    );
    assert_eq!(
        report.advance(&vec![ok.clone(), "sat\n".to_string(), ok.clone()]),
        Step::Done(Err(AnalysisError::VerifyError { message: "sat\n".to_string(), span: sp(4) }))
    );
}

#[test]
fn only_the_exact_answer_confirms() {
    let q = Query { smt: "(check-sat)".to_string(), span: sp(1) };
    assert_eq!(judge(&q, "unsat\n".to_string()), Ok(()));
    for answer in ["unsat", "unsat\n\n", " unsat\n", "sat\n", "", "UNSAT\n"] {
        assert_eq!(
            judge(&q, answer.to_string()),
            Err(AnalysisError::VerifyError { message: answer.to_string(), span: sp(1) })
        );
    }
}

#[test]
fn missing_functions_are_reported() {
    let report = analyze(3, &main_only(vec![]));
    assert_eq!(report.outcome, Err(AnalysisError::FunctionNotFound(3)));
    assert_eq!(report.advance(&vec![]), Step::Done(Err(AnalysisError::FunctionNotFound(3))));
    let fns = main_only(vec![call_local(9, "g", vec![], 1)]);
    assert_eq!(analyze(0, &fns).outcome, Err(AnalysisError::FunctionNotFound(9)));
    let fns = main_only(vec![let_stmt("x", Ty::Int, 1, Some(call_local(9, "g", vec![], 1)), 1)]);
    assert_eq!(analyze(0, &fns).outcome, Err(AnalysisError::FunctionNotFound(9)));
    let a = Analyzer::new(&fns);
    assert!(a.get_fn(0).is_ok());
    assert_eq!(a.get_fn(1), Err(AnalysisError::FunctionNotFound(1)));
    assert_eq!(
        a.get_local_fn(&FnDef { local: None, path: "std::mem::drop".to_string() }),
        Ok(None)
    );
    assert_eq!(
        a.get_fn_info(&FnDef { local: None, path: "std::mem::drop".to_string() }),
        vec!["std", "mem", "drop"]
    );
}

#[test]
fn unsupported_constructs_are_refused() {
    let outcome = |stmts: Vec<RExpr>| analyze(0, &main_only(stmts)).outcome;
    assert_eq!(outcome(vec![ex(RExprKind::Other, 1)]), Err(unsupported("Unknown expr")));
    assert_eq!(
        outcome(vec![ex(
            RExprKind::Unary { op: UnOp::Not, arg: Box::new(boolean(true, 1)) },
            1
        )]),
        Err(unsupported("Unknown expr"))
    );
    assert_eq!(
        outcome(vec![t3assume(ex(RExprKind::Other, 1), 1)]),
        Err(unsupported("Unknown value"))
    );
    assert_eq!(outcome(vec![var(4, 1)]), Err(AnalysisError::UnboundVariable(4)));
    assert_eq!(
        outcome(vec![call_extern("std::mem::drop", vec![], 1)]),
        Err(unsupported("Unknown function!"))
    );
    assert_eq!(
        outcome(vec![call_extern("t3modules::other", vec![], 1)]),
        Err(unsupported("Unknown function!"))
    );
    assert_eq!(
        outcome(vec![call_extern("t3modules", vec![], 1)]),
        Err(unsupported("Unknown function!"))
    );
    assert_eq!(outcome(vec![rand("rand_int", 1)]), Err(unsupported("Unknown function!")));
    assert_eq!(
        outcome(vec![call_extern("t3modules::t3assume", vec![], 1)]),
        Err(unsupported("Missing argument"))
    );
    assert_eq!(
        outcome(vec![t3assume(t3assume(boolean(true, 1), 1), 1)]),
        Err(unsupported("Unknown function!"))
    );
    assert_eq!(
        outcome(vec![t3assume(rand("rand_bool", 1), 1)]),
        Err(unsupported("Free value outside a let"))
    );
    assert_eq!(
        outcome(vec![t3assume(rand("rand_float", 1), 1)]),
        Err(unsupported("Free value outside a let"))
    );
    assert_eq!(
        outcome(vec![ex(RExprKind::Pat { kind: RPatKind::Other }, 1)]),
        Err(unsupported("Unsupported pattern"))
    );
    assert_eq!(
        outcome(vec![ex(
            RExprKind::LetStmt {
                pattern: Box::new(ex(RExprKind::Pat { kind: RPatKind::Wild }, 1)),
                initializer: None,
                else_block: None
            },
            1
        )]),
        Err(unsupported("Unsupported let pattern"))
    );
    assert_eq!(
        outcome(vec![let_stmt(
            "y",
            Ty::Int,
            1,
            Some(if_(boolean(true, 1), block(vec![], Some(num(1, 1)), 1), None, 1)),
            1
        )]),
        Err(unsupported("Else block of if initializer not found"))
    );
    assert_eq!(
        outcome(vec![let_stmt(
            "y",
            Ty::Int,
            1,
            Some(if_(boolean(true, 1), block(vec![ret(None, 1)], None, 1), None, 1)),
            1
        )]),
        Err(unsupported("No value with return"))
    );
    assert_eq!(
        outcome(vec![if_(boolean(true, 1), num(1, 1), None, 1)]),
        Err(unsupported("Unknown body pattern"))
    );
    assert_eq!(
        outcome(vec![let_stmt("x", Ty::Int, 1, None, 1), assign_op(BinOp::Shl, 1, num(1, 1), 1)]),
        Err(AnalysisError::UnsupportedOperator("Shl".to_string()))
    );
    assert_eq!(
        outcome(vec![t3assume(
            ex(RExprKind::Literal { lit: Lit::Other, neg: false }, 1),
            1
        )]),
        Err(unsupported("Unsupported literal pattern"))
    );
    let no_body = RThir { params: vec![], body: None };
    let fns = program(vec![
        (0, function(vec![], vec![let_stmt("x", Ty::Int, 1, Some(call_local(1, "g", vec![], 1)), 1)])),
        (1, no_body),
    ]);
    assert_eq!(analyze(0, &fns).outcome, Err(unsupported("Body not found")));
    let nameless = main_only(vec![call_local(0, "::", vec![], 1)]);
    assert_eq!(analyze(0, &nameless).outcome, Err(unsupported("fn info not found")));
    let body_is_no_block = program(vec![(0, RThir { params: vec![], body: Some(num(1, 1)) })]);
    assert_eq!(analyze(0, &body_is_no_block).outcome, Err(unsupported("Unknown body pattern")));
    let bad_param = program(vec![
        (0, function(vec![], vec![call_local(1, "g", vec![num(1, 1)], 1)])),
        (1, function(vec![ex(RExprKind::Pat { kind: RPatKind::Other }, 1)], vec![])),
    ]);
    assert_eq!(analyze(0, &bad_param).outcome, Err(unsupported("Unsupported pattern")));
}

#[test]
fn a_function_that_calls_itself_runs_out_of_depth() {
    let fns = main_only(vec![
        t3assert(boolean(true, 1), 1),
        call_local(0, "main", vec![], 2),
    ]);
    let report = analyze(0, &fns);
    assert_eq!(report.outcome, Err(unsupported("Call depth exhausted")));
    assert_eq!(smts(&report), vec!["(assert (not true))\n(check-sat)".to_string()]);

    let chain = program(vec![
        (0, function(vec![], vec![call_local(1, "a", vec![], 1)])),
        (1, function(vec![], vec![call_local(2, "b", vec![], 1)])),
        (2, function(vec![], vec![t3assert(boolean(true, 1), 1)])),
    ]);
    let report = analyze(0, &chain);
    assert_eq!(report.outcome, Ok(()));
    assert_eq!(report.queries.len(), 1);
}

#[test]
fn calls_in_arguments_take_no_depth() {
    let inc = RThir {
        params: vec![RParam { pat: Some(Box::new(binding("n", Ty::Int, 10, 1))) }],
        body: Some(block(vec![], Some(bin(BinOp::Add, var(10, 2), num(1, 2), 2)), 3)),
    };
    let nested = call_local(
        1,
        "inc",
        vec![call_local(1, "inc", vec![call_local(1, "inc", vec![num(0, 4)], 4)], 4)],
        4,
    );
    let fns = program(vec![
        (
            0,
            function(
                vec![],
                vec![
                    let_stmt("y", Ty::Int, 1, Some(nested), 5),
                    t3assert(bin(BinOp::Eq, var(1, 6), num(3, 6), 6), 6),
                ],
            ),
        ),
        (1, inc),
    ]);
    let report = analyze(0, &fns);
    assert_eq!(report.outcome, Ok(()));
    assert_eq!(report.queries.len(), 1);
    assert_eq!(report.queries[0].span, sp(6));
}

#[test]
fn an_inlined_call_runs_in_a_scope_named_after_it() {
    let helper = function(
        vec![binding("n", Ty::Int, 10, 1)],
        vec![
            let_stmt("m", Ty::Int, 11, Some(var(10, 2)), 2),
            call_local(1, "helper", vec![], 3),
        ],
    );
    let fns = program(vec![
        (0, function(vec![], vec![call_local(1, "helper", vec![num(3, 4)], 5)])),
        (1, helper),
        (2, function(vec![], vec![])),
        (3, function(vec![], vec![])),
    ]);
    let mut a = Analyzer::new(&fns);
    let outcome = a.analyze_main(&fns[&0], 3);
    assert_eq!(outcome, Err(unsupported("Call depth exhausted")));
    assert_eq!(a.current_context.name(), "helper");
    assert_eq!(a.context_stack.len(), 3);
    assert_eq!(a.context_stack[0].name, "main");
    assert_eq!(a.context_stack[1].name, "helper");
    assert_eq!(a.context_stack[2].name, "helper+");
    assert_eq!(a.context_stack[2].get_var(11), Ok(("helper+_m".to_string(), Ty::Int)));
    assert_eq!(
        a.context_stack[1].get_assumptions(),
        Ok(concat_lines(&[
            "(declare-const helper_n Int)",
            "(assert (= helper_n 3))",
            "(declare-const helper_m Int)",
            "(assert (= helper_m helper_n))",
        ]))
    );
}

fn annotation(cond: RExpr, s: u32) -> RExpr {
    call_extern("t3modules::invariant", vec![cond], s)
}

fn loop_(body: RExpr, s: u32) -> RExpr {
    ex(RExprKind::Loop { body: Box::new(body) }, s)
}

#[test]
fn a_loop_is_checked_against_its_invariant() {
    let fns = main_only(vec![
        let_stmt("i", Ty::Int, 1, Some(num(0, 1)), 1),
        annotation(bin(BinOp::Ge, var(1, 2), num(0, 2), 2), 3),
        loop_(block(vec![assign_op(BinOp::Add, 1, num(1, 4), 4)], None, 5), 6),
        t3assert(bin(BinOp::Gt, var(1, 7), num(0, 7), 7), 8),
    ]);
    let report = analyze(0, &fns);
    assert_eq!(report.outcome, Ok(()));
    let through_body = [
        "(declare-const main_i Int)",
        "(assert (= main_i 0))",
        "(assert (>= main_i 0))",
        "(declare-const main_i+ Int)",
        "(assert (= main_i+ (+ main_i 1)))",
    ];
    assert_eq!(
        smts(&report),
        vec![
            concat_lines(&through_body) + "(assert (not (>= main_i+ 0)))\n(check-sat)",
            concat_lines(&through_body)
                + "(assert (>= main_i+ 0))\n(assert (not (> main_i+ 0)))\n(check-sat)",
        ]
    );
    assert_eq!(report.queries[0].span, sp(2));
    assert_eq!(report.queries[1].span, sp(7));
}

#[test]
fn a_break_is_refused_like_every_kind_without_a_rule() {
    let outcome = |stmts: Vec<RExpr>| analyze(0, &main_only(stmts)).outcome;
    assert_eq!(outcome(vec![ex(RExprKind::Break, 1)]), Err(unsupported("Unknown expr")));
    let body = block(
        vec![],
        Some(if_(
            bin(BinOp::Lt, var(1, 2), num(9, 2), 2),
            block(vec![assign_op(BinOp::Add, 1, num(1, 3), 3)], None, 3),
            Some(block(vec![ex(RExprKind::Break, 4)], None, 4)),
            5,
        )),
        6,
    );
    let report = analyze(
        0,
        &main_only(vec![
            let_stmt("i", Ty::Int, 1, Some(num(0, 1)), 1),
            annotation(bin(BinOp::Le, var(1, 7), num(9, 7), 7), 7),
            loop_(body, 8),
        ]),
    );
    assert_eq!(report.outcome, Err(unsupported("Unknown expr")));
    assert!(report.queries.is_empty());
}

#[test]
fn an_invariant_needs_its_loop() {
    let outcome = |stmts: Vec<RExpr>| analyze(0, &main_only(stmts)).outcome;
    assert_eq!(
        outcome(vec![annotation(boolean(true, 1), 1)]),
        Err(unsupported("Invariant without loop"))
    );
    assert_eq!(
        outcome(vec![annotation(boolean(true, 1), 1), t3assume(boolean(true, 2), 2)]),
        Err(unsupported("Invariant without loop"))
    );
    assert_eq!(
        analyze(
            0,
            &program(vec![(
                0,
                RThir {
                    params: vec![],
                    body: Some(block(vec![], Some(annotation(boolean(true, 1), 1)), 1))
                }
            )])
        )
        .outcome,
        Err(unsupported("Invariant without loop"))
    );
    assert_eq!(
        outcome(vec![call_extern("t3modules::invariant", vec![], 1), loop_(block(vec![], None, 1), 1)]),
        Err(unsupported("Missing argument"))
    );
    assert_eq!(
        outcome(vec![loop_(block(vec![], None, 1), 1)]),
        Err(unsupported("Unknown expr"))
    );
    assert_eq!(
        outcome(vec![annotation(boolean(true, 1), 1), loop_(num(1, 1), 1)]),
        Err(unsupported("Unknown body pattern"))
    );
    assert_eq!(
        outcome(vec![let_stmt("x", Ty::Int, 1, Some(annotation(boolean(true, 1), 1)), 1)]),
        Err(unsupported("Unknown function!"))
    );
    assert_eq!(
        outcome(vec![annotation(rand("rand_bool", 1), 1), loop_(block(vec![], None, 1), 1)]),
        Err(unsupported("Free value outside a let"))
    );
    assert!(!AnalysisType::Invariant.is_return());
}

#[test]
fn a_finished_branch_leaves_the_analyser_in_its_scope() {
    let fns = HashMap::new();
    let mut a = Analyzer::new(&fns);
    a.add_parameter("main_x".to_string(), Ty::Int, 1, sp(0));
    a.add_assumption("(> main_x 0)".to_string(), sp(0));
    let before = a.current_context.path.clone();
    let stmt = if_(
        bin(BinOp::Gt, var(1, 1), num(5, 1), 1),
        block(
            vec![if_(
                bin(BinOp::Gt, var(1, 2), num(7, 2), 2),
                block(vec![assign(1, num(7, 3), 3)], None, 3),
                None,
                4,
            )],
            None,
            5,
        ),
        Some(block(vec![t3assert(bin(BinOp::Le, var(1, 6), num(5, 6), 6), 6)], None, 7)),
        8,
    );
    assert_eq!(a.analyze_expr(&stmt, 0), Ok(AnalysisType::Other));
    assert!(a.context_stack.is_empty());
    assert_eq!(a.current_context.name(), "main");
    let kept: Vec<Lir> = a.current_context.path.iter().take(before.len()).cloned().collect();
    assert_eq!(before, kept);
    assert!(a.current_context.path.len() > before.len());
    assert_eq!(a.queries.len(), 1);
    assert_eq!(a.get_var(1), Ok("main_x++".to_string()));

    let failing = if_(
        boolean(true, 1),
        block(vec![ex(RExprKind::Other, 2)], None, 2),
        None,
        3,
    );
    assert_eq!(a.analyze_expr(&failing, 0), Err(unsupported("Unknown expr")));
    assert_eq!(a.context_stack.len(), 1);
    assert_eq!(a.context_stack[0].name, "main");
    assert_eq!(a.current_context.name(), "then");
    assert_eq!(a.queries.len(), 1);
}

#[test]
fn parameters_of_the_entry_function_are_declared_free() {
    let entry = RThir {
        params: vec![
            RParam { pat: Some(Box::new(binding("x", Ty::Int, 10, 1))) },
            RParam { pat: Some(Box::new(ex(RExprKind::Pat { kind: RPatKind::Wild }, 1))) },
            RParam { pat: None },
            RParam { pat: Some(Box::new(binding("b", Ty::Bool, 11, 2))) },
        ],
        body: Some(block(
            vec![
                t3assume(bin(BinOp::Gt, var(10, 3), num(0, 3), 3), 3),
                t3assert(
                    bin(BinOp::Gt, bin(BinOp::Add, var(10, 4), num(1, 4), 4), num(0, 4), 5),
                    6,
                ),
            ],
            None,
            7,
        )),
    };
    let report = analyze(0, &program(vec![(0, entry)]));
    assert_eq!(report.outcome, Ok(()));
    assert_eq!(
        smts(&report),
        vec![concat_lines(&[
            "(declare-const main_x Int)",
            "(declare-const main_b Bool)",
            "(assert (> main_x 0))",
            "(assert (not (> (+ main_x 1) 0)))",
        ]) + "(check-sat)"]
    );
    assert_eq!(report.queries[0].span, sp(5));
    assert_eq!(report.advance(&vec!["unsat\n".to_string()]), Step::Done(Ok(())));

    let refuted = RThir {
        params: vec![RParam { pat: Some(Box::new(binding("x", Ty::Int, 10, 1))) }],
        body: Some(block(
            vec![
                t3assume(bin(BinOp::Gt, var(10, 3), num(0, 3), 3), 3),
                t3assert(bin(BinOp::Lt, var(10, 4), num(0, 4), 5), 6),
            ],
            None,
            7,
        )),
    };
    let report = analyze(0, &program(vec![(0, refuted)]));
    assert_eq!(
        smts(&report),
        vec![concat_lines(&[
            "(declare-const main_x Int)",
            "(assert (> main_x 0))",
            "(assert (not (< main_x 0)))",
        ]) + "(check-sat)"]
    );
    assert_eq!(
        report.advance(&vec!["sat\n".to_string()]),
        Step::Done(Err(AnalysisError::VerifyError { message: "sat\n".to_string(), span: sp(5) }))
    );

    let bad = RThir {
        params: vec![RParam { pat: Some(Box::new(ex(RExprKind::Pat { kind: RPatKind::Other }, 1))) }],
        body: None,
    };
    assert_eq!(
        analyze(0, &program(vec![(0, bad)])).outcome,
        Err(unsupported("Unsupported pattern"))
    );
}

fn one_var(name: &str, decls: &[&str], scope: &str) -> Context {
    let mut c = Context::from(scope.to_string(), VecDeque::new(), vec![]);
    for d in decls {
        c.add_assumption(decl(d, Ty::Int, 1));
    }
    c.insert_var(1, name.to_string(), Ty::Int);
    c
}

#[test]
fn the_merged_name_is_fresh() {
    let fns = HashMap::new();
    // The arm left the variable under the very name that one marker gives.
    let mut a = Analyzer::new(&fns);
    a.current_context = one_var("then_x", &["then_x"], "else");
    a.merge_then_else_ctxt("c".to_string(), one_var("then_x+", &["then_x+"], "then"), None);
    assert_eq!(a.get_var(1), Ok("then_x++".to_string()));
    assert_eq!(
        a.current_context.path,
        vec![
            decl("then_x", Ty::Int, 1),
            decl("then_x+", Ty::Int, 1),
            decl("then_x++", Ty::Int, 1),
            assumed("(=> c (= then_x++ then_x+))", 1),
        ]
    );

    // The name that one marker gives is declared in the parent already.
    let mut b = Analyzer::new(&fns);
    b.current_context = one_var("x", &["x", "x+", "x++"], "main");
    b.merge_then_else_ctxt(
        "c".to_string(),
        one_var("then_x", &["then_x"], "then"),
        Some(one_var("x+++", &[], "else")),
    );
    assert_eq!(b.get_var(1), Ok("x++++".to_string()));
    assert_eq!(
        b.current_context.path.iter().skip(4).cloned().collect::<Vec<Lir>>(),
        vec![
            decl("x++++", Ty::Int, 1),
            assumed("(=> c (= x++++ then_x))", 1),
            Lir::new_assume("(=> (not c) (= x++++ x+++))".to_string(), Span { lo: 0, hi: 0 }),
        ]
    );

    // The same holds of the merge after a call.
    let mut d = Analyzer::new(&fns);
    d.current_context = one_var("main_x", &["main_x"], "main");
    d.merge_ctxt(one_var("main_x+", &["main_x+"], "f"));
    assert_eq!(d.get_var(1), Ok("main_x++".to_string()));
    assert_eq!(
        d.current_context.path,
        vec![
            decl("main_x", Ty::Int, 1),
            decl("main_x+", Ty::Int, 1),
            decl("main_x++", Ty::Int, 1),
            assumed("(= main_x++ main_x+)", 1),
        ]
    );
}

#[test]
fn nested_arms_never_declare_a_name_twice() {
    let inner = if_(
        boolean(true, 3),
        block(vec![assign(1, num(2, 4), 4)], None, 4),
        None,
        5,
    );
    let middle = if_(boolean(false, 2), block(vec![], None, 2), Some(block(vec![inner], None, 6)), 7);
    let outer = if_(
        boolean(true, 1),
        block(vec![let_stmt("x", Ty::Int, 1, Some(num(1, 1)), 1), middle], None, 8),
        None,
        9,
    );
    let fns = HashMap::new();
    let mut a = Analyzer::new(&fns);
    assert_eq!(a.analyze_expr(&outer, 0), Ok(AnalysisType::Other));
    let mut names: Vec<String> = Vec::new();
    for lir in &a.current_context.path {
        if let LirKind::Declaration { name, .. } = &lir.kind {
            assert!(!names.contains(name), "{} is declared twice", name);
            names.push(name.clone());
        }
    }
    assert_eq!(names, vec!["then_x", "then_x+", "then_x++", "then_x+++"]);
}

#[test]
fn assignments_whose_values_merge_scopes_get_distinct_names() {
    let fns = HashMap::new();
    let mut a = Analyzer::new(&fns);
    a.add_parameter("main_c".to_string(), Ty::Bool, 2, sp(0));
    a.add_parameter("main_x".to_string(), Ty::Int, 1, sp(0));
    let value = if_(
        var(2, 1),
        block(vec![assign(1, num(5, 2), 2)], Some(num(1, 2)), 2),
        Some(block(vec![], Some(num(2, 3)), 3)),
        4,
    );
    let mut names = vec!["main_x".to_string()];
    for stmt in [
        assign(1, value, 5),
        assign_op(BinOp::Add, 1, num(1, 6), 6),
        assign(1, bin(BinOp::Mul, var(1, 7), num(2, 7), 7), 7),
    ] {
        assert_eq!(a.analyze_expr(&stmt, 0), Ok(AnalysisType::Other));
        let name = a.get_var(1).unwrap();
        assert!(!names.contains(&name));
        let log = &a.current_context.path;
        assert_eq!(log[log.len() - 2], decl(&name, Ty::Int, stmt.span.lo));
        assert!(matches!(log[log.len() - 1].kind, LirKind::Assume(_)));
        names.push(name);
    }
    assert_eq!(names, vec!["main_x", "main_x++", "main_x+++", "main_x++++"]);
    assert_eq!(
        a.get_current_assumptions(),
        Ok(concat_lines(&[
            "(declare-const main_c Bool)",
            "(declare-const main_x Int)",
            "(declare-const then_main_x Int)",
            "(assert (=> main_c (= then_main_x 5)))",
            "(declare-const main_x+ Int)",
            "(assert (=> main_c (= main_x+ then_main_x)))",
            "(declare-const main_x++ Int)",
            "(assert (= main_x++ (ite main_c 1 2)))",
            "(declare-const main_x+++ Int)",
            "(assert (= main_x+++ (+ main_x++ 1)))",
            "(declare-const main_x++++ Int)",
            "(assert (= main_x++++ (* main_x+++ 2)))",
        ]))
    );
}
