//! Properties of generated code checked on concrete statements.

use mini_c::codegen::tac_code_gen::{
    condition_supported, expression_supported, program_supported, statement_supported,
    translate_statement, Environment,
};
use mini_c::ir::ast::{CheckedExpr, CheckedStmt, Expr, ExprD, FunDecl, Literal, Program, Statement, StatementD, Type};
use mini_c::ir::tac::{Address, Instruction, Operator};

fn var(name: &str, ty: Type) -> CheckedExpr {
    ExprD { exp: Expr::Ident(name.to_string()), ty }
}

fn num(n: i64) -> CheckedExpr {
    ExprD { exp: Expr::Literal(Literal::Int(n)), ty: Type::Int }
}

fn truth(b: bool) -> CheckedExpr {
    ExprD { exp: Expr::Literal(Literal::Bool(b)), ty: Type::Bool }
}

fn bin(make: fn(Box<CheckedExpr>, Box<CheckedExpr>) -> Expr<Type>, a: CheckedExpr, b: CheckedExpr, ty: Type) -> CheckedExpr {
    ExprD { exp: make(Box::new(a), Box::new(b)), ty }
}

fn not(a: CheckedExpr) -> CheckedExpr {
    ExprD { exp: Expr::Not(Box::new(a)), ty: Type::Bool }
}

fn st(stmt: Statement<Type>) -> CheckedStmt {
    StatementD { stmt, ty: Type::Unit }
}

fn set(name: &str, value: CheckedExpr) -> CheckedStmt {
    let ty = value.ty.clone();
    st(Statement::Assign { target: Box::new(var(name, ty)), value: Box::new(value) })
}

fn jump_target(i: &Instruction) -> Option<&String> {
    match i {
        Instruction::JMP(l)
        | Instruction::ConditionalJMP(_, l)
        | Instruction::ConditionalJMPFalse(_, l)
        | Instruction::ConditionalJMPRelational(_, _, _, l) => Some(l),
        _ => None,
    }
}

fn labels(code: &[Instruction]) -> Vec<&String> {
    code.iter()
        .filter_map(|i| match i {
            Instruction::Label(l) => Some(l),
            _ => None,
        })
        .collect()
}

fn nested_statement() -> CheckedStmt {
    let x = || var("x", Type::Int);
    let b = || var("b", Type::Bool);
    st(Statement::Block {
        seq: vec![
            st(Statement::If {
                cond: Box::new(bin(Expr::And, bin(Expr::Lt, x(), num(3), Type::Bool), not(b()), Type::Bool)),
                then_branch: Box::new(set("b", bin(Expr::Or, b(), truth(false), Type::Bool))),
                else_branch: Some(Box::new(st(Statement::While {
                    cond: Box::new(bin(Expr::Or, b(), bin(Expr::Ne, x(), num(0), Type::Bool), Type::Bool)),
                    body: Box::new(set("x", bin(Expr::Sub, x(), num(1), Type::Int))),
                }))),
            }),
            st(Statement::For {
                init: Some(Box::new(set("i", num(0)))),
                cond: Some(Box::new(bin(Expr::Lt, var("i", Type::Int), x(), Type::Bool))),
                update: Some(Box::new(set("i", bin(Expr::Add, var("i", Type::Int), num(1), Type::Int)))),
                body: Box::new(set("b", not(b()))),
            }),
        ],
    })
}

#[test]
fn test_statement_code_jumps_land_on_defined_labels() {
    let mut env = Environment::new();
    let code = translate_statement(nested_statement(), &mut env);
    let defined = labels(&code);
    let targets: Vec<&String> = code.iter().filter_map(jump_target).collect();
    assert!(!targets.is_empty());
    for t in &targets {
        assert!(defined.contains(t), "jump to undefined label {t}");
    }
}

#[test]
fn test_statement_code_defines_each_label_once() {
    let mut env = Environment::new();
    let code = translate_statement(nested_statement(), &mut env);
    let defined = labels(&code);
    for (k, l) in defined.iter().enumerate() {
        assert!(!defined[k + 1..].contains(l), "label {l} defined twice");
    }
}

#[test]
fn test_environment_numbering_continues_across_statements() {
    let mut env = Environment::new();
    let first = translate_statement(nested_statement(), &mut env);
    let second = translate_statement(nested_statement(), &mut env);
    let first_labels = labels(&first);
    let second_labels = labels(&second);
    assert_eq!(first_labels.len(), second_labels.len());
    for l in &second_labels {
        assert!(!first_labels.contains(l), "label {l} reused by a later statement");
    }
    let n = first_labels.len();
    assert!(second_labels.contains(&&format!("Label{}:", n + 1)));
    assert!(first_labels.contains(&&"Label1:".to_string()));
}

fn temporaries(code: &[Instruction]) -> Vec<String> {
    let mut out = Vec::new();
    let mut note = |a: &Address| {
        if let Address::Temporary(n, _) = a {
            if !out.contains(n) {
                out.push(n.clone());
            }
        }
    };
    for i in code {
        match i {
            Instruction::CopyAssignment(d, s) | Instruction::UnaryAssignment(_, d, s) => {
                note(d);
                note(s);
            }
            Instruction::BinaryAssignment(_, d, l, r) => {
                note(d);
                note(l);
                note(r);
            }
            Instruction::ConditionalJMP(a, _) | Instruction::ConditionalJMPFalse(a, _) | Instruction::Param(a) => note(a),
            Instruction::ConditionalJMPRelational(_, l, r, _) => {
                note(l);
                note(r);
            }
            Instruction::Return(Some(a)) => note(a),
            _ => {}
        }
    }
    out
}

#[test]
fn test_later_statement_uses_new_temporaries() {
    let mut env = Environment::new();
    let first = translate_statement(nested_statement(), &mut env);
    let second = translate_statement(nested_statement(), &mut env);
    let t1 = temporaries(&first);
    let t2 = temporaries(&second);
    assert!(!t1.is_empty());
    assert_eq!(t1.len(), t2.len());
    for t in &t2 {
        assert!(!t1.contains(t), "temporary {t} reused by a later statement");
    }
    for k in 1..=t1.len() {
        assert!(t1.contains(&format!("temp{k}")));
        assert!(t2.contains(&format!("temp{}", t1.len() + k)));
    }
}

#[test]
fn test_support_check_matches_what_translates() {
    assert!(statement_supported(&nested_statement()));
    let x = || var("x", Type::Int);
    let rel = bin(Expr::Lt, x(), num(1), Type::Bool);
    assert!(condition_supported(&rel));
    assert!(!expression_supported(&rel));
    let indexed = st(Statement::Assign {
        target: Box::new(ExprD {
            exp: Expr::Index { base: Box::new(var("a", Type::Array(Box::new(Type::Int)))), index: Box::new(num(0)) },
            ty: Type::Int,
        }),
        value: Box::new(num(1)),
    });
    assert!(!statement_supported(&indexed));
    let prog = |body: CheckedStmt, name: &str| Program {
        functions: vec![FunDecl { name: name.to_string(), params: vec![], return_type: Type::Unit, body: Box::new(body) }],
    };
    assert!(program_supported(&prog(nested_statement(), "main")));
    assert!(!program_supported(&prog(nested_statement(), "start")));
    assert!(!program_supported(&prog(indexed, "main")));
}

#[derive(Clone, Copy, PartialEq, Debug)]
enum Val {
    I(i64),
    B(bool),
}

fn lit_val(l: &Literal) -> Val {
    match l {
        Literal::Int(n) => Val::I(*n),
        Literal::Bool(b) => Val::B(*b),
        _ => panic!("no such value in these tests"),
    }
}

struct Machine {
    vars: std::collections::HashMap<String, Val>,
    temps: std::collections::HashMap<String, Val>,
}

impl Machine {
    fn get(&self, a: &Address) -> Val {
        match a {
            Address::Variable(n, _) => self.vars[n],
            Address::Temporary(n, _) => self.temps[n],
            Address::Constant(l, _) => lit_val(l),
        }
    }

    fn set(&mut self, a: &Address, v: Val) {
        match a {
            Address::Variable(n, _) => {
                self.vars.insert(n.clone(), v);
            }
            Address::Temporary(n, _) => {
                self.temps.insert(n.clone(), v);
            }
            Address::Constant(..) => panic!("write to a constant"),
        }
    }

    fn arith(op: &Operator, a: Val, b: Val) -> Val {
        match (op, a, b) {
            (Operator::Add, Val::I(x), Val::I(y)) => Val::I(x + y),
            (Operator::Sub, Val::I(x), Val::I(y)) => Val::I(x - y),
            (Operator::Mul, Val::I(x), Val::I(y)) => Val::I(x * y),
            (Operator::LT, Val::I(x), Val::I(y)) => Val::B(x < y),
            (Operator::GTE, Val::I(x), Val::I(y)) => Val::B(x >= y),
            _ => panic!("operator not used in these tests"),
        }
    }

    /// Runs `code` from its first instruction until it falls off its end.
    fn run(&mut self, code: &[Instruction]) {
        let find = |l: &String| code.iter().position(|i| *i == Instruction::Label(l.clone())).expect("label");
        let mut pc = 0;
        let mut fuel = 10_000;
        while pc < code.len() {
            fuel -= 1;
            assert!(fuel > 0, "code does not terminate");
            pc = match &code[pc] {
                Instruction::Label(_) => pc + 1,
                Instruction::CopyAssignment(d, s) => {
                    let v = self.get(s);
                    self.set(d, v);
                    pc + 1
                }
                Instruction::UnaryAssignment(Operator::Neg, d, s) => {
                    let v = match self.get(s) {
                        Val::I(x) => Val::I(-x),
                        _ => panic!("minus of a non-integer"),
                    };
                    self.set(d, v);
                    pc + 1
                }
                Instruction::BinaryAssignment(op, d, l, r) => {
                    let v = Self::arith(op, self.get(l), self.get(r));
                    self.set(d, v);
                    pc + 1
                }
                Instruction::JMP(l) => find(l),
                Instruction::ConditionalJMP(a, l) => if self.get(a) == Val::B(true) { find(l) } else { pc + 1 },
                Instruction::ConditionalJMPFalse(a, l) => if self.get(a) == Val::B(false) { find(l) } else { pc + 1 },
                Instruction::ConditionalJMPRelational(op, a, b, l) => {
                    if Self::arith(op, self.get(a), self.get(b)) == Val::B(true) { find(l) } else { pc + 1 }
                }
                other => panic!("instruction not used in these tests: {other:?}"),
            };
        }
    }
}

#[test]
fn test_expression_code_computes_its_value() {
    for (x, y, b) in [(3, 4, true), (-2, 7, false), (0, 0, true)] {
        let mut vars = std::collections::HashMap::new();
        vars.insert("x".to_string(), Val::I(x));
        vars.insert("y".to_string(), Val::I(y));
        vars.insert("b".to_string(), Val::B(b));
        let arith = bin(
            Expr::Add,
            bin(Expr::Mul, var("x", Type::Int), num(2), Type::Int),
            ExprD { exp: Expr::Neg(Box::new(var("y", Type::Int))), ty: Type::Int },
            Type::Int,
        );
        let logic = bin(
            Expr::And,
            not(var("b", Type::Bool)),
            bin(Expr::Or, var("b", Type::Bool), truth(true), Type::Bool),
            Type::Bool,
        );
        let code = translate_statement(
            st(Statement::Block { seq: vec![set("r", arith), set("s", logic)] }),
            &mut Environment::new(),
        );
        let mut m = Machine { vars, temps: std::collections::HashMap::new() };
        m.run(&code);
        assert_eq!(m.vars["r"], Val::I(2 * x - y));
        assert_eq!(m.vars["s"], Val::B(!b));
        assert_eq!(m.vars["x"], Val::I(x));
    }
}

#[test]
fn test_condition_code_tests_it() {
    for (x, b, expected) in [(1, false, 1), (5, false, 2), (5, true, 1)] {
        let mut vars = std::collections::HashMap::new();
        vars.insert("x".to_string(), Val::I(x));
        vars.insert("b".to_string(), Val::B(b));
        let cond = bin(Expr::Or, var("b", Type::Bool), bin(Expr::Lt, var("x", Type::Int), num(3), Type::Bool), Type::Bool);
        let code = translate_statement(
            st(Statement::If {
                cond: Box::new(cond),
                then_branch: Box::new(set("z", num(1))),
                else_branch: Some(Box::new(set("z", num(2)))),
            }),
            &mut Environment::new(),
        );
        let mut m = Machine { vars, temps: std::collections::HashMap::new() };
        m.run(&code);
        assert_eq!(m.vars["z"], Val::I(expected));
    }
}
