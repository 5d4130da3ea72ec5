//! Tests of the MiniC type checker on hand-built programs.

use mini_c::ir::ast::{
    Expr, ExprD, FunDecl, Literal, Program, Statement, StatementD, Type, UncheckedExpr,
    UncheckedFunDecl, UncheckedProgram, UncheckedStmt,
};
use mini_c::semantic::type_checker::{type_check, TypeError};

fn e(exp: Expr<()>) -> UncheckedExpr {
    ExprD { exp, ty: () }
}

fn int_lit(n: i64) -> UncheckedExpr {
    e(Expr::Literal(Literal::Int(n)))
}

fn float(x: f64) -> UncheckedExpr {
    e(Expr::Literal(Literal::Float(x.to_bits())))
}

fn boolean(b: bool) -> UncheckedExpr {
    e(Expr::Literal(Literal::Bool(b)))
}

fn var(name: &str) -> UncheckedExpr {
    e(Expr::Ident(name.to_string()))
}

fn bx(x: UncheckedExpr) -> Box<UncheckedExpr> {
    Box::new(x)
}

fn s(stmt: Statement<()>) -> UncheckedStmt {
    StatementD { stmt, ty: () }
}

fn assign(target: UncheckedExpr, value: UncheckedExpr) -> UncheckedStmt {
    s(Statement::Assign { target: bx(target), value: bx(value) })
}

fn block(seq: Vec<UncheckedStmt>) -> UncheckedStmt {
    s(Statement::Block { seq })
}

fn fun(name: &str, params: Vec<(&str, Type)>, return_type: Type, body: UncheckedStmt) -> UncheckedFunDecl {
    FunDecl {
        name: name.to_string(),
        params: params.into_iter().map(|(n, t)| (n.to_string(), t)).collect(),
        return_type,
        body: Box::new(body),
    }
}

fn main_with(body: UncheckedStmt) -> UncheckedProgram {
    Program { functions: vec![fun("main", vec![], Type::Unit, body)] }
}

fn error_of(p: &UncheckedProgram) -> String {
    match type_check(p) {
        Ok(_) => panic!("expected a type error"),
        Err(TypeError { message }) => message,
    }
}

#[test]
fn test_type_check_int_float_coercion() {
    let prog = main_with(assign(var("x"), e(Expr::Add(bx(int_lit(1)), bx(float(3.14))))));
    let checked = type_check(&prog).expect("well-typed");
    let main_fn = checked.functions.iter().find(|f| f.name == "main").unwrap();
    if let Statement::Assign { ref value, ref target } = main_fn.body.stmt {
        assert_eq!(value.ty, Type::Float);
        assert_eq!(target.ty, Type::Float);
    } else {
        panic!("expected Assign");
    }
}

#[test]
fn test_type_check_undeclared_var() {
    let prog = main_with(assign(var("x"), var("y")));
    let msg = error_of(&prog);
    assert!(msg.contains("undeclared"));
    assert_eq!(msg, "undeclared variable: y");
}

#[test]
fn test_type_check_requires_main() {
    let prog = Program { functions: vec![fun("helper", vec![], Type::Unit, block(vec![]))] };
    assert_eq!(error_of(&prog), "program must have a main function");
    let empty: UncheckedProgram = Program { functions: vec![] };
    assert_eq!(error_of(&empty), "program must have a main function");
}

#[test]
fn test_type_check_missing_main_reported_before_other_errors() {
    let prog = Program { functions: vec![fun("helper", vec![], Type::Unit, assign(var("x"), var("y")))] };
    assert_eq!(error_of(&prog), "program must have a main function");
}

#[test]
fn test_type_check_if_condition_must_be_bool() {
    let prog = main_with(s(Statement::If {
        cond: bx(int_lit(1)),
        then_branch: Box::new(block(vec![])),
        else_branch: None,
    }));
    assert_eq!(error_of(&prog), "if condition must be Bool, got Int");
}

#[test]
fn test_type_check_while_condition_reports_array_type() {
    let arr = e(Expr::ArrayLit(vec![int_lit(1), int_lit(2)]));
    let prog = main_with(s(Statement::While { cond: bx(arr), body: Box::new(block(vec![])) }));
    assert_eq!(error_of(&prog), "while condition must be Bool, got Array(Int)");
}

#[test]
fn test_type_check_call_arity_and_arguments() {
    let f = || fun("f", vec![("a", Type::Int), ("b", Type::Bool)], Type::Int, block(vec![]));
    let call_short = s(Statement::Call { name: "f".to_string(), args: vec![int_lit(1)] });
    let prog = Program { functions: vec![f(), fun("main", vec![], Type::Unit, call_short)] };
    assert_eq!(error_of(&prog), "function f expects 2 arguments, got 1");

    let call_bad = s(Statement::Call { name: "f".to_string(), args: vec![int_lit(1), int_lit(2)] });
    let prog = Program { functions: vec![f(), fun("main", vec![], Type::Unit, call_bad)] };
    assert_eq!(error_of(&prog), "argument 2 to f: expected Bool, got Int");

    let call_ok = s(Statement::Call { name: "f".to_string(), args: vec![float(1.5), boolean(true)] });
    let prog = Program { functions: vec![f(), fun("main", vec![], Type::Unit, call_ok)] };
    assert!(type_check(&prog).is_ok());

    let undefined = s(Statement::Call { name: "g".to_string(), args: vec![] });
    assert_eq!(error_of(&main_with(undefined)), "undefined function: g");
}

#[test]
fn test_type_check_call_expression_type_is_return_type() {
    let f = fun("f", vec![("a", Type::Int)], Type::Bool, block(vec![]));
    let call = e(Expr::Call { name: "f".to_string(), args: vec![int_lit(3)] });
    let prog = Program { functions: vec![f, fun("main", vec![], Type::Unit, assign(var("b"), call))] };
    let checked = type_check(&prog).unwrap();
    if let Statement::Assign { ref value, .. } = checked.functions[1].body.stmt {
        assert_eq!(value.ty, Type::Bool);
    } else {
        panic!("expected Assign");
    }
}

#[test]
fn test_type_check_later_function_declaration_wins() {
    let first = fun("f", vec![], Type::Int, block(vec![]));
    let second = fun("f", vec![], Type::Bool, block(vec![]));
    let call = e(Expr::Call { name: "f".to_string(), args: vec![] });
    let prog = Program { functions: vec![first, second, fun("main", vec![], Type::Unit, assign(var("b"), call))] };
    let checked = type_check(&prog).unwrap();
    if let Statement::Assign { ref value, .. } = checked.functions[2].body.stmt {
        assert_eq!(value.ty, Type::Bool);
    } else {
        panic!("expected Assign");
    }
}

#[test]
fn test_type_check_array_literals() {
    let ok = main_with(assign(var("a"), e(Expr::ArrayLit(vec![int_lit(1), float(2.0)]))));
    let checked = type_check(&ok).unwrap();
    if let Statement::Assign { ref value, .. } = checked.functions[0].body.stmt {
        assert_eq!(value.ty, Type::Array(Box::new(Type::Int)));
    } else {
        panic!("expected Assign");
    }
    let mixed = main_with(assign(var("a"), e(Expr::ArrayLit(vec![int_lit(1), boolean(true)]))));
    assert_eq!(error_of(&mixed), "array elements must have same type");
    let empty = main_with(assign(var("a"), e(Expr::ArrayLit(vec![]))));
    assert_eq!(error_of(&empty), "empty array literal needs type annotation");
}

#[test]
fn test_type_check_indexing() {
    let arr = assign(var("a"), e(Expr::ArrayLit(vec![int_lit(1), int_lit(2)])));
    let read = assign(var("x"), e(Expr::Index { base: bx(var("a")), index: bx(int_lit(0)) }));
    let prog = main_with(block(vec![arr, read]));
    let checked = type_check(&prog).unwrap();
    if let Statement::Block { ref seq } = checked.functions[0].body.stmt {
        if let Statement::Assign { ref value, .. } = seq[1].stmt {
            assert_eq!(value.ty, Type::Int);
        } else {
            panic!("expected Assign");
        }
    } else {
        panic!("expected Block");
    }

    let bad_index = main_with(block(vec![
        assign(var("a"), e(Expr::ArrayLit(vec![int_lit(1)]))),
        assign(var("x"), e(Expr::Index { base: bx(var("a")), index: bx(boolean(true)) })),
    ]));
    assert_eq!(error_of(&bad_index), "array index must be Int");

    let not_array = main_with(block(vec![
        assign(var("n"), int_lit(1)),
        assign(var("x"), e(Expr::Index { base: bx(var("n")), index: bx(int_lit(0)) })),
    ]));
    assert_eq!(error_of(&not_array), "indexed expression must be array");
}

#[test]
fn test_type_check_assignment_targets() {
    let arr = assign(var("a"), e(Expr::ArrayLit(vec![int_lit(1)])));
    let store_bad = assign(e(Expr::Index { base: bx(var("a")), index: bx(int_lit(0)) }), boolean(true));
    assert_eq!(error_of(&main_with(block(vec![arr, store_bad]))), "assignment type mismatch");

    let arr = assign(var("a"), e(Expr::ArrayLit(vec![int_lit(1)])));
    let store_ok = assign(e(Expr::Index { base: bx(var("a")), index: bx(int_lit(0)) }), int_lit(7));
    assert!(type_check(&main_with(block(vec![arr, store_ok]))).is_ok());

    let n = assign(var("n"), int_lit(1));
    let store_scalar = assign(e(Expr::Index { base: bx(var("n")), index: bx(int_lit(0)) }), int_lit(7));
    assert_eq!(error_of(&main_with(block(vec![n, store_scalar]))), "indexed target must be array");

    let literal_target = assign(int_lit(1), int_lit(2));
    assert_eq!(error_of(&main_with(literal_target)), "invalid assignment target");
}

#[test]
fn test_type_check_operator_errors() {
    let neg = main_with(assign(var("x"), e(Expr::Neg(bx(boolean(true))))));
    assert_eq!(error_of(&neg), "unary minus requires Int or Float");
    let arith = main_with(assign(var("x"), e(Expr::Mul(bx(boolean(true)), bx(int_lit(1))))));
    assert_eq!(error_of(&arith), "arithmetic operands must be Int or Float");
    let not = main_with(assign(var("x"), e(Expr::Not(bx(int_lit(1))))));
    assert_eq!(error_of(&not), "not requires Bool operand");
    let and = main_with(assign(var("x"), e(Expr::And(bx(boolean(true)), bx(int_lit(1))))));
    assert_eq!(error_of(&and), "and/or require Bool operands");
    let or = main_with(assign(var("x"), e(Expr::Or(bx(int_lit(0)), bx(boolean(true))))));
    assert_eq!(error_of(&or), "and/or require Bool operands");
}

#[test]
fn test_type_check_comparisons_are_bool() {
    let prog = main_with(assign(var("b"), e(Expr::Lt(bx(int_lit(1)), bx(float(2.0))))));
    let checked = type_check(&prog).unwrap();
    if let Statement::Assign { ref value, .. } = checked.functions[0].body.stmt {
        assert_eq!(value.ty, Type::Bool);
    } else {
        panic!("expected Assign");
    }
}

#[test]
fn test_type_check_assignment_binds_for_later_statements() {
    let prog = main_with(block(vec![
        assign(var("x"), int_lit(1)),
        assign(var("y"), e(Expr::Add(bx(var("x")), bx(int_lit(2))))),
    ]));
    assert!(type_check(&prog).is_ok());

    let prog = main_with(block(vec![
        assign(var("y"), e(Expr::Add(bx(var("x")), bx(int_lit(2))))),
        assign(var("x"), int_lit(1)),
    ]));
    assert_eq!(error_of(&prog), "undeclared variable: x");
}

#[test]
fn test_type_check_variables_do_not_leak_between_functions() {
    let helper = fun("helper", vec![("p", Type::Int)], Type::Unit, assign(var("x"), var("p")));
    let main = fun("main", vec![], Type::Unit, assign(var("y"), var("x")));
    let prog = Program { functions: vec![helper, main] };
    assert_eq!(error_of(&prog), "undeclared variable: x");
}

#[test]
fn test_type_check_first_error_wins() {
    let prog = main_with(block(vec![
        assign(var("a"), var("u")),
        assign(var("b"), e(Expr::Not(bx(int_lit(1))))),
    ]));
    assert_eq!(error_of(&prog), "undeclared variable: u");
}

#[test]
fn test_type_check_decl_for_and_return() {
    let decl = s(Statement::Decl { name: "i".to_string(), ty: Type::Float, init: bx(int_lit(0)) });
    let looped = s(Statement::For {
        init: Some(Box::new(decl)),
        cond: Some(bx(e(Expr::Lt(bx(var("i")), bx(int_lit(10)))))),
        update: Some(Box::new(assign(var("i"), e(Expr::Add(bx(var("i")), bx(int_lit(1))))))),
        body: Box::new(s(Statement::Return(Some(bx(var("i")))))),
    });
    let checked = type_check(&main_with(looped)).unwrap();
    if let Statement::For { ref init, .. } = checked.functions[0].body.stmt {
        if let Some(d) = init {
            if let Statement::Decl { ref ty, ref init, .. } = d.stmt {
                assert_eq!(*ty, Type::Float);
                assert_eq!(init.ty, Type::Int);
            } else {
                panic!("expected Decl");
            }
        }
    } else {
        panic!("expected For");
    }

    let bad_decl = s(Statement::Decl { name: "b".to_string(), ty: Type::Bool, init: bx(int_lit(0)) });
    assert_eq!(error_of(&main_with(bad_decl)), "declaration of b: expected Bool, got Int");

    let bad_for = s(Statement::For { init: None, cond: Some(bx(int_lit(1))), update: None, body: Box::new(block(vec![])) });
    assert_eq!(error_of(&main_with(bad_for)), "for condition must be Bool, got Int");
}

#[test]
fn test_type_check_keeps_the_program_shape() {
    let prog = main_with(block(vec![
        assign(var("x"), int_lit(1)),
        s(Statement::If {
            cond: bx(e(Expr::Gt(bx(var("x")), bx(int_lit(0))))),
            then_branch: Box::new(assign(var("x"), e(Expr::Sub(bx(var("x")), bx(int_lit(1)))))),
            else_branch: Some(Box::new(assign(var("x"), int_lit(0)))),
        }),
    ]));
    let checked = type_check(&prog).unwrap();
    assert_eq!(checked.functions.len(), 1);
    assert_eq!(checked.functions[0].name, "main");
    assert_eq!(checked.functions[0].return_type, Type::Unit);
    assert_eq!(checked.functions[0].body.ty, Type::Unit);
    if let Statement::Block { ref seq } = checked.functions[0].body.stmt {
        assert_eq!(seq.len(), 2);
        if let Statement::If { ref cond, ref else_branch, .. } = seq[1].stmt {
            assert_eq!(cond.ty, Type::Bool);
            assert!(matches!(cond.exp, Expr::Gt(_, _)));
            assert!(else_branch.is_some());
        } else {
            panic!("expected If");
        }
    } else {
        panic!("expected Block");
    }
}

#[test]
fn test_type_error_new_keeps_message() {
    let err = TypeError::new("boom".to_string());
    assert_eq!(err.message, "boom");
}

fn strip_expr(x: &ExprD<Type>) -> UncheckedExpr {
    let sub = |a: &ExprD<Type>| Box::new(strip_expr(a));
    let exp = match &x.exp {
        Expr::Literal(l) => Expr::Literal(l.clone()),
        Expr::Ident(n) => Expr::Ident(n.clone()),
        Expr::Neg(a) => Expr::Neg(sub(a)),
        Expr::Add(a, b) => Expr::Add(sub(a), sub(b)),
        Expr::Sub(a, b) => Expr::Sub(sub(a), sub(b)),
        Expr::Mul(a, b) => Expr::Mul(sub(a), sub(b)),
        Expr::Div(a, b) => Expr::Div(sub(a), sub(b)),
        Expr::Eq(a, b) => Expr::Eq(sub(a), sub(b)),
        Expr::Ne(a, b) => Expr::Ne(sub(a), sub(b)),
        Expr::Lt(a, b) => Expr::Lt(sub(a), sub(b)),
        Expr::Le(a, b) => Expr::Le(sub(a), sub(b)),
        Expr::Gt(a, b) => Expr::Gt(sub(a), sub(b)),
        Expr::Ge(a, b) => Expr::Ge(sub(a), sub(b)),
        Expr::Not(a) => Expr::Not(sub(a)),
        Expr::And(a, b) => Expr::And(sub(a), sub(b)),
        Expr::Or(a, b) => Expr::Or(sub(a), sub(b)),
        Expr::Call { name, args } => Expr::Call { name: name.clone(), args: args.iter().map(strip_expr).collect() },
        Expr::ArrayLit(es) => Expr::ArrayLit(es.iter().map(strip_expr).collect()),
        Expr::Index { base, index } => Expr::Index { base: sub(base), index: sub(index) },
    };
    ExprD { exp, ty: () }
}

fn strip_stmt(x: &StatementD<Type>) -> UncheckedStmt {
    let sub = |a: &StatementD<Type>| Box::new(strip_stmt(a));
    let stmt = match &x.stmt {
        Statement::Decl { name, ty, init } => Statement::Decl { name: name.clone(), ty: ty.clone(), init: bx(strip_expr(init)) },
        Statement::Assign { target, value } => Statement::Assign { target: bx(strip_expr(target)), value: bx(strip_expr(value)) },
        Statement::Block { seq } => Statement::Block { seq: seq.iter().map(strip_stmt).collect() },
        Statement::Call { name, args } => Statement::Call { name: name.clone(), args: args.iter().map(strip_expr).collect() },
        Statement::If { cond, then_branch, else_branch } => Statement::If {
            cond: bx(strip_expr(cond)),
            then_branch: sub(then_branch),
            else_branch: else_branch.as_ref().map(|e| sub(e)),
        },
        Statement::While { cond, body } => Statement::While { cond: bx(strip_expr(cond)), body: sub(body) },
        Statement::For { init, cond, update, body } => Statement::For {
            init: init.as_ref().map(|i| sub(i)),
            cond: cond.as_ref().map(|c| bx(strip_expr(c))),
            update: update.as_ref().map(|u| sub(u)),
            body: sub(body),
        },
        Statement::Return(e) => Statement::Return(e.as_ref().map(|v| bx(strip_expr(v)))),
    };
    StatementD { stmt, ty: () }
}

#[test]
fn test_type_check_only_decorates() {
    let helper = fun(
        "scale",
        vec![("v", Type::Int), ("f", Type::Float)],
        Type::Float,
        block(vec![s(Statement::Return(Some(bx(e(Expr::Mul(bx(var("v")), bx(var("f"))))))))]),
    );
    let body = block(vec![
        s(Statement::Decl { name: "n".to_string(), ty: Type::Int, init: bx(int_lit(3)) }),
        assign(var("xs"), e(Expr::ArrayLit(vec![int_lit(1), int_lit(2), int_lit(3)]))),
        assign(
            e(Expr::Index { base: bx(var("xs")), index: bx(int_lit(0)) }),
            e(Expr::Neg(bx(var("n")))),
        ),
        s(Statement::For {
            init: Some(Box::new(assign(var("i"), int_lit(0)))),
            cond: Some(bx(e(Expr::And(
                bx(e(Expr::Lt(bx(var("i")), bx(var("n"))))),
                bx(e(Expr::Not(bx(boolean(false))))),
            )))),
            update: Some(Box::new(assign(var("i"), e(Expr::Add(bx(var("i")), bx(int_lit(1))))))),
            body: Box::new(s(Statement::If {
                cond: bx(e(Expr::Or(bx(e(Expr::Eq(bx(var("i")), bx(int_lit(1))))), bx(boolean(true))))),
                then_branch: Box::new(assign(var("y"), e(Expr::Call { name: "scale".to_string(), args: vec![var("i"), float(0.5)] }))),
                else_branch: None,
            })),
        }),
        s(Statement::While {
            cond: bx(e(Expr::Ge(bx(var("n")), bx(int_lit(0))))),
            body: Box::new(assign(var("n"), e(Expr::Div(bx(var("n")), bx(int_lit(2)))))),
        }),
        s(Statement::Call { name: "scale".to_string(), args: vec![var("n"), float(1.0)] }),
        s(Statement::Return(None)),
    ]);
    let prog = Program { functions: vec![helper, fun("main", vec![], Type::Unit, body)] };
    let checked = type_check(&prog).unwrap();
    let stripped: UncheckedProgram = Program {
        functions: checked
            .functions
            .iter()
            .map(|f| FunDecl {
                name: f.name.clone(),
                params: f.params.clone(),
                return_type: f.return_type.clone(),
                body: Box::new(strip_stmt(&f.body)),
            })
            .collect(),
    };
    assert_eq!(stripped, prog);
}

fn assignments(x: &StatementD<Type>, out: &mut Vec<(Type, Type)>) {
    match &x.stmt {
        Statement::Assign { target, value } => out.push((target.ty.clone(), value.ty.clone())),
        Statement::Block { seq } => seq.iter().for_each(|s| assignments(s, out)),
        Statement::If { then_branch, else_branch, .. } => {
            assignments(then_branch, out);
            if let Some(e) = else_branch {
                assignments(e, out);
            }
        }
        Statement::While { body, .. } => assignments(body, out),
        Statement::For { init, update, body, .. } => {
            if let Some(i) = init {
                assignments(i, out);
            }
            assignments(body, out);
            if let Some(u) = update {
                assignments(u, out);
            }
        }
        _ => {}
    }
}

#[test]
fn test_checked_statements_follow_the_typing_rules() {
    let body = block(vec![
        assign(var("xs"), e(Expr::ArrayLit(vec![float(1.5), float(2.5)]))),
        assign(e(Expr::Index { base: bx(var("xs")), index: bx(int_lit(1)) }), float(0.0)),
        assign(var("i"), int_lit(0)),
        s(Statement::While {
            cond: bx(e(Expr::Lt(bx(var("i")), bx(int_lit(2))))),
            body: Box::new(block(vec![
                assign(var("y"), e(Expr::Index { base: bx(var("xs")), index: bx(var("i")) })),
                assign(var("i"), e(Expr::Add(bx(var("i")), bx(int_lit(1))))),
            ])),
        }),
        assign(var("i"), boolean(true)),
    ]);
    let checked = type_check(&main_with(body)).unwrap();
    let main = &checked.functions[0];
    assert_eq!(main.body.ty, Type::Unit);
    let mut pairs = Vec::new();
    assignments(&main.body, &mut pairs);
    assert_eq!(pairs.len(), 6);
    for (target, value) in &pairs {
        assert_eq!(target, value);
    }
    assert_eq!(pairs[0].1, Type::Array(Box::new(Type::Float)));
    assert_eq!(pairs[1].1, Type::Float);
    assert_eq!(pairs[3].1, Type::Float);
    assert_eq!(pairs[5].1, Type::Bool);
    if let Statement::Block { seq } = &main.body.stmt {
        if let Statement::While { cond, .. } = &seq[3].stmt {
            assert_eq!(cond.ty, Type::Bool);
        } else {
            panic!("expected While");
        }
    } else {
        panic!("expected Block");
    }
}

#[test]
fn test_type_error_text_is_its_message() {
    let err = type_check(&main_with(block(vec![assign(var("x"), var("nope"))]))).unwrap_err();
    assert_eq!(err.render(), err.message);
    assert_eq!(err.render(), "undeclared variable: nope");
}

#[test]
fn test_type_compatibility_is_symmetric() {
    let decl = |name: &str, ty: Type, init: UncheckedExpr| s(Statement::Decl { name: name.to_string(), ty, init: bx(init) });
    assert!(type_check(&main_with(decl("x", Type::Float, int_lit(1)))).is_ok());
    assert!(type_check(&main_with(decl("y", Type::Int, float(1.5)))).is_ok());
    assert_eq!(error_of(&main_with(decl("z", Type::Bool, int_lit(1)))), "declaration of z: expected Bool, got Int");
    assert_eq!(error_of(&main_with(decl("w", Type::Int, boolean(true)))), "declaration of w: expected Int, got Bool");
}
