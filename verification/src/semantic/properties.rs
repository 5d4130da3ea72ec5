//! What holds of every program the type checker accepts.

use vstd::prelude::*;
use crate::ir::ast::{
    SpecLiteral, first_main, lemma_first_main, SpecExpr, SpecExprD, SpecFunDecl, SpecProgram, SpecStatement,
    SpecStatementD, Type,
};
use crate::semantic::env::{SigEnv, TypeEnv};
use crate::semantic::type_checker::{
    arith_result, call_result, compatible, condition, elements_agree, expr_type, fun_check, funs_check,
    params_env, program_check, signatures_of, spec_literal_type, stmt_check, stmts_check,
    target_check, typed, typed_list, typed_parts,
};

verus! {

// ---------------------------------------------------------------------------
// Erasure: forgetting the types of a checked tree
// ---------------------------------------------------------------------------

pub open spec fn erase_expr(x: SpecExprD<Type>) -> SpecExprD<()>
    decreases x,
{
    SpecExprD { exp: erase_exp(x.exp), ty: () }
}

pub open spec fn erase_exp(x: SpecExpr<Type>) -> SpecExpr<()>
    decreases x,
{
    match x {
        SpecExpr::Literal(l) => SpecExpr::Literal(l),
        SpecExpr::Ident(n) => SpecExpr::Ident(n),
        SpecExpr::Neg(a) => SpecExpr::Neg(Box::new(erase_expr(*a))),
        SpecExpr::Add(a, b) => SpecExpr::Add(Box::new(erase_expr(*a)), Box::new(erase_expr(*b))),
        SpecExpr::Sub(a, b) => SpecExpr::Sub(Box::new(erase_expr(*a)), Box::new(erase_expr(*b))),
        SpecExpr::Mul(a, b) => SpecExpr::Mul(Box::new(erase_expr(*a)), Box::new(erase_expr(*b))),
        SpecExpr::Div(a, b) => SpecExpr::Div(Box::new(erase_expr(*a)), Box::new(erase_expr(*b))),
        SpecExpr::Eq(a, b) => SpecExpr::Eq(Box::new(erase_expr(*a)), Box::new(erase_expr(*b))),
        SpecExpr::Ne(a, b) => SpecExpr::Ne(Box::new(erase_expr(*a)), Box::new(erase_expr(*b))),
        SpecExpr::Lt(a, b) => SpecExpr::Lt(Box::new(erase_expr(*a)), Box::new(erase_expr(*b))),
        SpecExpr::Le(a, b) => SpecExpr::Le(Box::new(erase_expr(*a)), Box::new(erase_expr(*b))),
        SpecExpr::Gt(a, b) => SpecExpr::Gt(Box::new(erase_expr(*a)), Box::new(erase_expr(*b))),
        SpecExpr::Ge(a, b) => SpecExpr::Ge(Box::new(erase_expr(*a)), Box::new(erase_expr(*b))),
        SpecExpr::Not(a) => SpecExpr::Not(Box::new(erase_expr(*a))),
        SpecExpr::And(a, b) => SpecExpr::And(Box::new(erase_expr(*a)), Box::new(erase_expr(*b))),
        SpecExpr::Or(a, b) => SpecExpr::Or(Box::new(erase_expr(*a)), Box::new(erase_expr(*b))),
        SpecExpr::Call { name, args } => SpecExpr::Call { name, args: erase_exprs(args) },
        SpecExpr::ArrayLit(es) => SpecExpr::ArrayLit(erase_exprs(es)),
        SpecExpr::Index { base, index } => SpecExpr::Index {
            base: Box::new(erase_expr(*base)),
            index: Box::new(erase_expr(*index)),
        },
    }
}

pub open spec fn erase_exprs(xs: Seq<SpecExprD<Type>>) -> Seq<SpecExprD<()>>
    decreases xs,
{
    if xs.len() == 0 {
        Seq::empty()
    } else {
        erase_exprs(xs.drop_last()).push(erase_expr(xs.last()))
    }
}

// ---------------------------------------------------------------------------
// The checker only decorates
// ---------------------------------------------------------------------------

proof fn lemma_typed_erases(e: SpecExprD<()>, env: TypeEnv, sigs: SigEnv)
    requires
        typed(e, env, sigs) is Ok,
    ensures
        erase_expr(typed(e, env, sigs)->Ok_0) == e,
    decreases e, 1nat,
{
    lemma_parts_erase(e.exp, env, sigs);
    let x = typed(e, env, sigs)->Ok_0;
    assert(erase_expr(x) =~= e);
}

proof fn lemma_parts_erase(e: SpecExpr<()>, env: TypeEnv, sigs: SigEnv)
    requires
        typed_parts(e, env, sigs) is Ok,
    ensures
        erase_exp(typed_parts(e, env, sigs)->Ok_0) == e,
    decreases e, 0nat,
{
    match e {
        SpecExpr::Neg(a) => lemma_typed_erases(*a, env, sigs),
        SpecExpr::Not(a) => lemma_typed_erases(*a, env, sigs),
        SpecExpr::Add(a, b) | SpecExpr::Sub(a, b) | SpecExpr::Mul(a, b) | SpecExpr::Div(a, b)
        | SpecExpr::Eq(a, b) | SpecExpr::Ne(a, b) | SpecExpr::Lt(a, b) | SpecExpr::Le(a, b)
        | SpecExpr::Gt(a, b) | SpecExpr::Ge(a, b) | SpecExpr::And(a, b) | SpecExpr::Or(a, b)
        | SpecExpr::Index { base: a, index: b } => {
            lemma_typed_erases(*a, env, sigs);
            lemma_typed_erases(*b, env, sigs);
        },
        SpecExpr::Call { args, .. } => lemma_typed_list_erases(args, env, sigs),
        SpecExpr::ArrayLit(es) => lemma_typed_list_erases(es, env, sigs),
        _ => {},
    }
}

proof fn lemma_typed_list_erases(es: Seq<SpecExprD<()>>, env: TypeEnv, sigs: SigEnv)
    requires
        typed_list(es, env, sigs) is Ok,
    ensures
        erase_exprs(typed_list(es, env, sigs)->Ok_0) == es,
    decreases es, 0nat,
{
    if es.len() > 0 {
        lemma_typed_list_erases(es.drop_last(), env, sigs);
        lemma_typed_erases(es.last(), env, sigs);
        let xs = typed_list(es, env, sigs)->Ok_0;
        assert(xs.drop_last() == typed_list(es.drop_last(), env, sigs)->Ok_0);
        assert(erase_exprs(xs) =~= es);
    }
}

/// Checking an expression only decorates it: stripping the types from the
/// checked expression gives back the expression that was checked.
pub proof fn law_checking_only_decorates(e: SpecExprD<()>, env: TypeEnv, sigs: SigEnv)
    requires
        typed(e, env, sigs) is Ok,
    ensures
        erase_expr(typed(e, env, sigs)->Ok_0) == e,
{
    lemma_typed_erases(e, env, sigs);
}

proof fn lemma_funs_check_names(fs: Seq<SpecFunDecl<()>>, sigs: SigEnv)
    requires
        funs_check(fs, sigs) is Ok,
    ensures
        (funs_check(fs, sigs)->Ok_0).len() == fs.len(),
        forall|i: int| 0 <= i < fs.len() ==> #[trigger] (funs_check(fs, sigs)->Ok_0)[i].name == fs[i].name,
    decreases fs.len(),
{
    if fs.len() > 0 {
        lemma_funs_check_names(fs.drop_last(), sigs);
        let xs = funs_check(fs, sigs)->Ok_0;
        assert(xs.drop_last() == funs_check(fs.drop_last(), sigs)->Ok_0);
        assert forall|i: int| 0 <= i < fs.len() implies #[trigger] xs[i].name == fs[i].name by {
            if i < fs.len() - 1 {
                assert(xs[i] == xs.drop_last()[i]);
                assert(fs[i] == fs.drop_last()[i]);
            }
        }
    }
}

/// A program the checker accepts can be handed to the code generator: the
/// checked program has a function named `main`, and its functions carry the
/// names of the functions checked, in order.
pub proof fn law_checked_program_has_main(p: SpecProgram<()>)
    requires
        program_check(p) is Ok,
    ensures
        (program_check(p)->Ok_0).functions.len() == p.functions.len(),
        forall|i: int| 0 <= i < p.functions.len() ==> #[trigger] (program_check(p)->Ok_0).functions[i].name == p.functions[i].name,
        first_main((program_check(p)->Ok_0).functions) is Some,
{
    let q = program_check(p)->Ok_0;
    lemma_funs_check_names(p.functions, signatures_of(p.functions));
    lemma_first_main(q.functions);
    let k = choose|k: int| 0 <= k < p.functions.len() && #[trigger] p.functions[k].name == "main"@;
    assert(q.functions[k].name == "main"@);
}

// ---------------------------------------------------------------------------
// Every checked expression obeys the typing rules locally
// ---------------------------------------------------------------------------

/// Whether the type carried by each node of a checked expression follows
/// from the types of its parts by the typing rules.
pub open spec fn well_typed(x: SpecExprD<Type>, env: TypeEnv, sigs: SigEnv) -> bool
    decreases x,
{
    match x.exp {
        SpecExpr::Literal(l) => x.ty == spec_literal_type(l),
        SpecExpr::Ident(n) => env.contains_key(n) && env[n] == x.ty,
        SpecExpr::Neg(a) => well_typed(*a, env, sigs) && (a.ty is Int || a.ty is Float) && x.ty == a.ty,
        SpecExpr::Add(a, b) => well_typed(*a, env, sigs) && well_typed(*b, env, sigs) && arith_result(a.ty, b.ty) == Ok::<Type, Seq<char>>(x.ty),
        SpecExpr::Sub(a, b) => well_typed(*a, env, sigs) && well_typed(*b, env, sigs) && arith_result(a.ty, b.ty) == Ok::<Type, Seq<char>>(x.ty),
        SpecExpr::Mul(a, b) => well_typed(*a, env, sigs) && well_typed(*b, env, sigs) && arith_result(a.ty, b.ty) == Ok::<Type, Seq<char>>(x.ty),
        SpecExpr::Div(a, b) => well_typed(*a, env, sigs) && well_typed(*b, env, sigs) && arith_result(a.ty, b.ty) == Ok::<Type, Seq<char>>(x.ty),
        SpecExpr::Eq(a, b) => well_typed(*a, env, sigs) && well_typed(*b, env, sigs) && x.ty == Type::Bool,
        SpecExpr::Ne(a, b) => well_typed(*a, env, sigs) && well_typed(*b, env, sigs) && x.ty == Type::Bool,
        SpecExpr::Lt(a, b) => well_typed(*a, env, sigs) && well_typed(*b, env, sigs) && x.ty == Type::Bool,
        SpecExpr::Le(a, b) => well_typed(*a, env, sigs) && well_typed(*b, env, sigs) && x.ty == Type::Bool,
        SpecExpr::Gt(a, b) => well_typed(*a, env, sigs) && well_typed(*b, env, sigs) && x.ty == Type::Bool,
        SpecExpr::Ge(a, b) => well_typed(*a, env, sigs) && well_typed(*b, env, sigs) && x.ty == Type::Bool,
        SpecExpr::Not(a) => well_typed(*a, env, sigs) && a.ty == Type::Bool && x.ty == Type::Bool,
        SpecExpr::And(a, b) => well_typed(*a, env, sigs) && well_typed(*b, env, sigs) && a.ty == Type::Bool && b.ty == Type::Bool && x.ty == Type::Bool,
        SpecExpr::Or(a, b) => well_typed(*a, env, sigs) && well_typed(*b, env, sigs) && a.ty == Type::Bool && b.ty == Type::Bool && x.ty == Type::Bool,
        SpecExpr::Call { name, args } => all_well_typed(args, env, sigs) && call_result(name, args, sigs) == Ok::<Type, Seq<char>>(x.ty),
        SpecExpr::ArrayLit(es) => es.len() > 0 && all_well_typed(es, env, sigs)
            && (forall|i: int| 1 <= i < es.len() ==> compatible(es[0].ty, #[trigger] es[i].ty))
            && x.ty == Type::Array(Box::new(es[0].ty)),
        SpecExpr::Index { base, index } => well_typed(*base, env, sigs) && well_typed(*index, env, sigs)
            && index.ty == Type::Int && base.ty == Type::Array(Box::new(x.ty)),
    }
}

pub open spec fn all_well_typed(xs: Seq<SpecExprD<Type>>, env: TypeEnv, sigs: SigEnv) -> bool
    decreases xs,
{
    xs.len() == 0 || (all_well_typed(xs.drop_last(), env, sigs) && well_typed(xs.last(), env, sigs))
}

proof fn lemma_typed_list_elements(es: Seq<SpecExprD<()>>, env: TypeEnv, sigs: SigEnv)
    requires
        typed_list(es, env, sigs) is Ok,
    ensures
        (typed_list(es, env, sigs)->Ok_0).len() == es.len(),
        forall|i: int| 0 <= i < es.len() ==> typed(#[trigger] es[i], env, sigs) == Ok::<SpecExprD<Type>, Seq<char>>((typed_list(es, env, sigs)->Ok_0)[i]),
    decreases es.len(),
{
    if es.len() > 0 {
        lemma_typed_list_elements(es.drop_last(), env, sigs);
        let xs = typed_list(es, env, sigs)->Ok_0;
        assert(xs.drop_last() == typed_list(es.drop_last(), env, sigs)->Ok_0);
        assert forall|i: int| 0 <= i < es.len() implies typed(#[trigger] es[i], env, sigs) == Ok::<SpecExprD<Type>, Seq<char>>(xs[i]) by {
            if i < es.len() - 1 {
                assert(es[i] == es.drop_last()[i]);
                assert(xs[i] == xs.drop_last()[i]);
            }
        }
    }
}

proof fn lemma_elements_agree_all(first: Type, es: Seq<SpecExprD<()>>, env: TypeEnv, sigs: SigEnv)
    requires
        elements_agree(first, es, env, sigs) is Ok,
    ensures
        forall|i: int| 0 <= i < es.len() ==> (expr_type(#[trigger] es[i], env, sigs) is Ok
            && compatible(first, expr_type(es[i], env, sigs)->Ok_0)),
    decreases es.len(),
{
    if es.len() > 0 {
        lemma_elements_agree_all(first, es.drop_last(), env, sigs);
        assert forall|i: int| 0 <= i < es.len() implies (expr_type(#[trigger] es[i], env, sigs) is Ok
            && compatible(first, expr_type(es[i], env, sigs)->Ok_0)) by {
            if i < es.len() - 1 {
                assert(es[i] == es.drop_last()[i]);
            }
        }
    }
}

proof fn lemma_typed_well_typed(e: SpecExprD<()>, env: TypeEnv, sigs: SigEnv)
    requires
        typed(e, env, sigs) is Ok,
    ensures
        well_typed(typed(e, env, sigs)->Ok_0, env, sigs),
        (typed(e, env, sigs)->Ok_0).ty == expr_type(e, env, sigs)->Ok_0,
    decreases e, 1nat,
{
    lemma_parts_well_typed(e, env, sigs);
}

proof fn lemma_parts_well_typed(e: SpecExprD<()>, env: TypeEnv, sigs: SigEnv)
    requires
        typed(e, env, sigs) is Ok,
    ensures
        well_typed(typed(e, env, sigs)->Ok_0, env, sigs),
    decreases e, 0nat,
{
    match e.exp {
        SpecExpr::Neg(a) | SpecExpr::Not(a) => lemma_typed_well_typed(*a, env, sigs),
        SpecExpr::Add(a, b) | SpecExpr::Sub(a, b) | SpecExpr::Mul(a, b) | SpecExpr::Div(a, b)
        | SpecExpr::Eq(a, b) | SpecExpr::Ne(a, b) | SpecExpr::Lt(a, b) | SpecExpr::Le(a, b)
        | SpecExpr::Gt(a, b) | SpecExpr::Ge(a, b) | SpecExpr::And(a, b) | SpecExpr::Or(a, b)
        | SpecExpr::Index { base: a, index: b } => {
            lemma_typed_well_typed(*a, env, sigs);
            lemma_typed_well_typed(*b, env, sigs);
        },
        SpecExpr::Call { args, .. } => {
            lemma_typed_list_well_typed(args, env, sigs);
        },
        SpecExpr::ArrayLit(es) => {
            lemma_typed_list_well_typed(es, env, sigs);
            lemma_typed_list_elements(es, env, sigs);
            let first = expr_type(es[0], env, sigs)->Ok_0;
            let rest = es.subrange(1, es.len() as int);
            lemma_elements_agree_all(first, rest, env, sigs);
            let xs = typed_list(es, env, sigs)->Ok_0;
            assert(xs[0].ty == first);
            assert forall|i: int| 1 <= i < xs.len() implies compatible(xs[0].ty, #[trigger] xs[i].ty) by {
                assert(rest[i - 1] == es[i]);
                assert(typed(es[i], env, sigs) == Ok::<SpecExprD<Type>, Seq<char>>(xs[i]));
            }
        },
        _ => {},
    }
}

proof fn lemma_typed_list_well_typed(es: Seq<SpecExprD<()>>, env: TypeEnv, sigs: SigEnv)
    requires
        typed_list(es, env, sigs) is Ok,
    ensures
        all_well_typed(typed_list(es, env, sigs)->Ok_0, env, sigs),
    decreases es, 0nat,
{
    if es.len() > 0 {
        lemma_typed_list_well_typed(es.drop_last(), env, sigs);
        lemma_typed_well_typed(es.last(), env, sigs);
        let xs = typed_list(es, env, sigs)->Ok_0;
        assert(xs.drop_last() == typed_list(es.drop_last(), env, sigs)->Ok_0);
    }
}

/// Every node of a checked expression carries the type that the typing rules
/// give it from the types of its parts, and the root carries the type of the
/// expression.
pub proof fn law_checked_expressions_are_well_typed(e: SpecExprD<()>, env: TypeEnv, sigs: SigEnv)
    requires
        typed(e, env, sigs) is Ok,
    ensures
        well_typed(typed(e, env, sigs)->Ok_0, env, sigs),
        (typed(e, env, sigs)->Ok_0).ty == expr_type(e, env, sigs)->Ok_0,
{
    lemma_typed_well_typed(e, env, sigs);
}


// ---------------------------------------------------------------------------
// Erasure of statements
// ---------------------------------------------------------------------------

pub open spec fn erase_opt_expr(x: Option<Box<SpecExprD<Type>>>) -> Option<Box<SpecExprD<()>>> {
    match x {
        None => None,
        Some(e) => Some(Box::new(erase_expr(*e))),
    }
}

pub open spec fn erase_stmt(x: SpecStatementD<Type>) -> SpecStatementD<()>
    decreases x,
{
    let stmt = match x.stmt {
        SpecStatement::Decl { name, ty, init } => SpecStatement::Decl { name, ty, init: Box::new(erase_expr(*init)) },
        SpecStatement::Assign { target, value } => SpecStatement::Assign {
            target: Box::new(erase_expr(*target)),
            value: Box::new(erase_expr(*value)),
        },
        SpecStatement::Block { seq } => SpecStatement::Block { seq: erase_stmts(seq) },
        SpecStatement::Call { name, args } => SpecStatement::Call { name, args: erase_exprs(args) },
        SpecStatement::If { cond, then_branch, else_branch } => SpecStatement::If {
            cond: Box::new(erase_expr(*cond)),
            then_branch: Box::new(erase_stmt(*then_branch)),
            else_branch: match else_branch {
                None => None,
                Some(e) => Some(Box::new(erase_stmt(*e))),
            },
        },
        SpecStatement::While { cond, body } => SpecStatement::While {
            cond: Box::new(erase_expr(*cond)),
            body: Box::new(erase_stmt(*body)),
        },
        SpecStatement::For { init, cond, update, body } => SpecStatement::For {
            init: match init {
                None => None,
                Some(i) => Some(Box::new(erase_stmt(*i))),
            },
            cond: erase_opt_expr(cond),
            update: match update {
                None => None,
                Some(u) => Some(Box::new(erase_stmt(*u))),
            },
            body: Box::new(erase_stmt(*body)),
        },
        SpecStatement::Return(e) => SpecStatement::Return(erase_opt_expr(e)),
    };
    SpecStatementD { stmt, ty: () }
}

pub open spec fn erase_stmts(xs: Seq<SpecStatementD<Type>>) -> Seq<SpecStatementD<()>>
    decreases xs,
{
    if xs.len() == 0 {
        Seq::empty()
    } else {
        erase_stmts(xs.drop_last()).push(erase_stmt(xs.last()))
    }
}

proof fn lemma_condition_erases(what: Seq<char>, c: SpecExprD<()>, env: TypeEnv, sigs: SigEnv)
    requires
        condition(what, c, env, sigs) is Ok,
    ensures
        erase_expr(condition(what, c, env, sigs)->Ok_0) == c,
{
    lemma_typed_erases(c, env, sigs);
}

proof fn lemma_stmt_erases(s: SpecStatementD<()>, env: TypeEnv, sigs: SigEnv)
    requires
        stmt_check(s, env, sigs) is Ok,
    ensures
        erase_stmt(stmt_check(s, env, sigs)->Ok_0.0) == s,
    decreases s, 2nat,
{
    match s.stmt {
        SpecStatement::If { .. } => lemma_if_erases(s, env, sigs),
        SpecStatement::For { .. } => lemma_for_erases(s, env, sigs),
        _ => lemma_simple_erases(s, env, sigs),
    }
}

proof fn lemma_simple_erases(s: SpecStatementD<()>, env: TypeEnv, sigs: SigEnv)
    requires
        stmt_check(s, env, sigs) is Ok,
        !(s.stmt is If),
        !(s.stmt is For),
    ensures
        erase_stmt(stmt_check(s, env, sigs)->Ok_0.0) == s,
    decreases s, 1nat,
{
    let x = stmt_check(s, env, sigs)->Ok_0.0;
    match s.stmt {
        SpecStatement::Decl { init, .. } => {
            lemma_typed_erases(*init, env, sigs);
            assert(erase_stmt(x) =~= s);
        },
        SpecStatement::Assign { target, value } => {
            lemma_typed_erases(*value, env, sigs);
            let v = typed(*value, env, sigs)->Ok_0;
            let env1 = crate::semantic::type_checker::target_check(target.exp, v.ty, env, sigs)->Ok_0;
            lemma_typed_erases(*target, env1, sigs);
            assert(erase_stmt(x) =~= s);
        },
        SpecStatement::Block { seq } => {
            lemma_stmts_erases(seq, env, sigs);
            assert(erase_stmt(x) =~= s);
        },
        SpecStatement::Call { args, .. } => {
            lemma_typed_list_erases(args, env, sigs);
            assert(erase_stmt(x) =~= s);
        },
        SpecStatement::While { cond, body } => {
            lemma_condition_erases("while"@, *cond, env, sigs);
            lemma_stmt_erases(*body, env, sigs);
            assert(erase_stmt(x) =~= s);
        },
        SpecStatement::Return(e) => {
            match e {
                Some(v) => lemma_typed_erases(*v, env, sigs),
                None => {},
            }
            assert(erase_stmt(x) =~= s);
        },
        _ => {},
    }
}

#[verifier::spinoff_prover]
proof fn lemma_if_erases(s: SpecStatementD<()>, env: TypeEnv, sigs: SigEnv)
    requires
        stmt_check(s, env, sigs) is Ok,
        s.stmt is If,
    ensures
        erase_stmt(stmt_check(s, env, sigs)->Ok_0.0) == s,
    decreases s, 1nat,
{
    match s.stmt {
        SpecStatement::If { cond, then_branch, else_branch } => {
            lemma_condition_erases("if"@, *cond, env, sigs);
            lemma_stmt_erases(*then_branch, env, sigs);
            let env1 = stmt_check(*then_branch, env, sigs)->Ok_0.1;
            match else_branch {
                Some(e) => lemma_stmt_erases(*e, env1, sigs),
                None => {},
            }
            let x = stmt_check(s, env, sigs)->Ok_0.0;
            assert(erase_stmt(x) =~= s);
        },
        _ => {},
    }
}

#[verifier::spinoff_prover]
proof fn lemma_for_erases(s: SpecStatementD<()>, env: TypeEnv, sigs: SigEnv)
    requires
        stmt_check(s, env, sigs) is Ok,
        s.stmt is For,
    ensures
        erase_stmt(stmt_check(s, env, sigs)->Ok_0.0) == s,
    decreases s, 1nat,
{
    match s.stmt {
        SpecStatement::For { init, cond, update, body } => {
            let env1 = match init {
                None => env,
                Some(i) => stmt_check(*i, env, sigs)->Ok_0.1,
            };
            match init {
                None => {},
                Some(i) => lemma_stmt_erases(*i, env, sigs),
            }
            match cond {
                None => {},
                Some(c) => lemma_condition_erases("for"@, *c, env1, sigs),
            }
            lemma_stmt_erases(*body, env1, sigs);
            let env2 = stmt_check(*body, env1, sigs)->Ok_0.1;
            match update {
                None => {},
                Some(u) => lemma_stmt_erases(*u, env2, sigs),
            }
            let x = stmt_check(s, env, sigs)->Ok_0.0;
            assert(erase_stmt(x) =~= s);
        },
        _ => {},
    }
}

proof fn lemma_stmts_erases(ss: Seq<SpecStatementD<()>>, env: TypeEnv, sigs: SigEnv)
    requires
        stmts_check(ss, env, sigs) is Ok,
    ensures
        erase_stmts(stmts_check(ss, env, sigs)->Ok_0.0) == ss,
    decreases ss, 1nat,
{
    if ss.len() > 0 {
        lemma_stmts_erases(ss.drop_last(), env, sigs);
        let env1 = stmts_check(ss.drop_last(), env, sigs)->Ok_0.1;
        lemma_stmt_erases(ss.last(), env1, sigs);
        let xs = stmts_check(ss, env, sigs)->Ok_0.0;
        assert(xs.drop_last() == stmts_check(ss.drop_last(), env, sigs)->Ok_0.0);
        assert(erase_stmts(xs) =~= ss);
    }
}


/// Checking a statement only decorates it: stripping the types from the
/// checked statement gives back the statement that was checked.
pub proof fn law_checking_statement_only_decorates(s: SpecStatementD<()>, env: TypeEnv, sigs: SigEnv)
    requires
        stmt_check(s, env, sigs) is Ok,
    ensures
        erase_stmt(stmt_check(s, env, sigs)->Ok_0.0) == s,
{
    lemma_stmt_erases(s, env, sigs);
}

pub open spec fn erase_fun(f: SpecFunDecl<Type>) -> SpecFunDecl<()> {
    SpecFunDecl { name: f.name, params: f.params, return_type: f.return_type, body: erase_stmt(f.body) }
}

pub open spec fn erase_program(p: SpecProgram<Type>) -> SpecProgram<()> {
    SpecProgram { functions: p.functions.map_values(|f: SpecFunDecl<Type>| erase_fun(f)) }
}

proof fn lemma_funs_erase(fs: Seq<SpecFunDecl<()>>, sigs: SigEnv)
    requires
        funs_check(fs, sigs) is Ok,
    ensures
        (funs_check(fs, sigs)->Ok_0).map_values(|f: SpecFunDecl<Type>| erase_fun(f)) == fs,
    decreases fs.len(),
{
    if fs.len() > 0 {
        lemma_funs_erase(fs.drop_last(), sigs);
        let f = fs.last();
        lemma_stmt_erases(f.body, crate::semantic::type_checker::params_env(f.params), sigs);
        let xs = funs_check(fs, sigs)->Ok_0;
        assert(xs.drop_last() == funs_check(fs.drop_last(), sigs)->Ok_0);
        assert(xs.last() == fun_check(f, sigs)->Ok_0);
        assert(erase_fun(xs.last()) =~= f);
        let ys = xs.map_values(|g: SpecFunDecl<Type>| erase_fun(g));
        let zs = xs.drop_last().map_values(|g: SpecFunDecl<Type>| erase_fun(g));
        assert forall|i: int| 0 <= i < fs.len() implies #[trigger] ys[i] == fs[i] by {
            if i < fs.len() - 1 {
                assert(ys[i] == zs[i]);
                assert(fs[i] == fs.drop_last()[i]);
            }
        }
        assert(ys =~= fs);
    }
}

/// Checking a program only decorates it: stripping the types from the
/// checked program gives back the program that was checked.
pub proof fn law_checking_program_only_decorates(p: SpecProgram<()>)
    requires
        program_check(p) is Ok,
    ensures
        erase_program(program_check(p)->Ok_0) == p,
{
    lemma_funs_erase(p.functions, signatures_of(p.functions));
    assert(erase_program(program_check(p)->Ok_0) =~= p);
}


// ---------------------------------------------------------------------------
// Every checked statement obeys the typing rules
// ---------------------------------------------------------------------------

/// The variable types after the checked statement `x`, run from `env`: a
/// declaration binds its name to the declared type, an assignment to a
/// variable binds it to the type of the value.
pub open spec fn env_after(x: SpecStatementD<Type>, env: TypeEnv) -> TypeEnv
    decreases x,
{
    match x.stmt {
        SpecStatement::Decl { name, ty, .. } => env.insert(name, ty),
        SpecStatement::Assign { target, value } => match target.exp {
            SpecExpr::Ident(n) => env.insert(n, value.ty),
            _ => env,
        },
        SpecStatement::Block { seq } => envs_after(seq, env),
        SpecStatement::If { then_branch, else_branch, .. } => match else_branch {
            Some(e) => env_after(*e, env_after(*then_branch, env)),
            None => env_after(*then_branch, env),
        },
        SpecStatement::While { body, .. } => env_after(*body, env),
        SpecStatement::For { init, update, body, .. } => {
            let e1 = match init {
                Some(i) => env_after(*i, env),
                None => env,
            };
            let e2 = env_after(*body, e1);
            match update {
                Some(u) => env_after(*u, e2),
                None => e2,
            }
        },
        _ => env,
    }
}

pub open spec fn envs_after(xs: Seq<SpecStatementD<Type>>, env: TypeEnv) -> TypeEnv
    decreases xs,
{
    if xs.len() == 0 {
        env
    } else {
        env_after(xs.last(), envs_after(xs.drop_last(), env))
    }
}

/// Whether every node of the checked statement `x`, run from `env`, follows
/// the typing rules: expressions are well typed where they stand, conditions
/// are `Bool`, a declaration's initial value fits its type, an assignment
/// gives its target the type of the value, a called function accepts its
/// arguments, and every statement has type `Unit`.
pub open spec fn stmt_well_typed(x: SpecStatementD<Type>, env: TypeEnv, sigs: SigEnv) -> bool
    decreases x,
{
    x.ty == Type::Unit && match x.stmt {
        SpecStatement::Decl { ty, init, .. } => well_typed(*init, env, sigs) && compatible(init.ty, ty),
        SpecStatement::Assign { target, value } => well_typed(*value, env, sigs) && target.ty == value.ty && match target.exp {
            SpecExpr::Ident(n) => well_typed(*target, env.insert(n, value.ty), sigs),
            SpecExpr::Index { .. } => well_typed(*target, env, sigs),
            _ => false,
        },
        SpecStatement::Block { seq } => stmts_well_typed(seq, env, sigs),
        SpecStatement::Call { name, args } => all_well_typed(args, env, sigs) && call_result(name, args, sigs) is Ok,
        SpecStatement::If { cond, then_branch, else_branch } => well_typed(*cond, env, sigs) && cond.ty == Type::Bool
            && stmt_well_typed(*then_branch, env, sigs) && match else_branch {
                Some(e) => stmt_well_typed(*e, env_after(*then_branch, env), sigs),
                None => true,
            },
        SpecStatement::While { cond, body } => well_typed(*cond, env, sigs) && cond.ty == Type::Bool
            && stmt_well_typed(*body, env, sigs),
        SpecStatement::For { init, cond, update, body } => {
            let e1 = match init {
                Some(i) => env_after(*i, env),
                None => env,
            };
            &&& match init {
                Some(i) => stmt_well_typed(*i, env, sigs),
                None => true,
            }
            &&& match cond {
                Some(c) => well_typed(*c, e1, sigs) && c.ty == Type::Bool,
                None => true,
            }
            &&& stmt_well_typed(*body, e1, sigs)
            &&& match update {
                Some(u) => stmt_well_typed(*u, env_after(*body, e1), sigs),
                None => true,
            }
        },
        SpecStatement::Return(e) => match e {
            Some(v) => well_typed(*v, env, sigs),
            None => true,
        },
    }
}

pub open spec fn stmts_well_typed(xs: Seq<SpecStatementD<Type>>, env: TypeEnv, sigs: SigEnv) -> bool
    decreases xs,
{
    xs.len() == 0 || (stmts_well_typed(xs.drop_last(), env, sigs) && stmt_well_typed(xs.last(), envs_after(xs.drop_last(), env), sigs))
}

proof fn lemma_stmt_well_typed(s: SpecStatementD<()>, env: TypeEnv, sigs: SigEnv)
    requires
        stmt_check(s, env, sigs) is Ok,
    ensures
        stmt_well_typed(stmt_check(s, env, sigs)->Ok_0.0, env, sigs),
        stmt_check(s, env, sigs)->Ok_0.1 == env_after(stmt_check(s, env, sigs)->Ok_0.0, env),
    decreases s, 2nat,
{
    match s.stmt {
        SpecStatement::If { .. } => lemma_if_well_typed(s, env, sigs),
        SpecStatement::For { .. } => lemma_for_well_typed(s, env, sigs),
        _ => lemma_simple_well_typed(s, env, sigs),
    }
}

proof fn lemma_simple_well_typed(s: SpecStatementD<()>, env: TypeEnv, sigs: SigEnv)
    requires
        stmt_check(s, env, sigs) is Ok,
        !(s.stmt is If),
        !(s.stmt is For),
    ensures
        stmt_well_typed(stmt_check(s, env, sigs)->Ok_0.0, env, sigs),
        stmt_check(s, env, sigs)->Ok_0.1 == env_after(stmt_check(s, env, sigs)->Ok_0.0, env),
    decreases s, 1nat,
{
    match s.stmt {
        SpecStatement::Decl { init, .. } => {
            lemma_typed_well_typed(*init, env, sigs);
        },
        SpecStatement::Assign { target, value } => {
            lemma_typed_well_typed(*value, env, sigs);
            let v = typed(*value, env, sigs)->Ok_0;
            let env1 = target_check(target.exp, v.ty, env, sigs)->Ok_0;
            lemma_typed_well_typed(*target, env1, sigs);
            match target.exp {
                SpecExpr::Index { base, index } => {
                    lemma_typed_well_typed(*base, env, sigs);
                    lemma_typed_well_typed(*index, env, sigs);
                },
                _ => {},
            }
        },
        SpecStatement::Block { seq } => {
            lemma_stmts_well_typed(seq, env, sigs);
        },
        SpecStatement::Call { args, .. } => {
            lemma_typed_list_well_typed(args, env, sigs);
        },
        SpecStatement::While { cond, body } => {
            lemma_typed_well_typed(*cond, env, sigs);
            lemma_stmt_well_typed(*body, env, sigs);
        },
        SpecStatement::Return(e) => {
            match e {
                Some(v) => lemma_typed_well_typed(*v, env, sigs),
                None => {},
            }
        },
        _ => {},
    }
}

#[verifier::spinoff_prover]
proof fn lemma_if_well_typed(s: SpecStatementD<()>, env: TypeEnv, sigs: SigEnv)
    requires
        stmt_check(s, env, sigs) is Ok,
        s.stmt is If,
    ensures
        stmt_well_typed(stmt_check(s, env, sigs)->Ok_0.0, env, sigs),
        stmt_check(s, env, sigs)->Ok_0.1 == env_after(stmt_check(s, env, sigs)->Ok_0.0, env),
    decreases s, 1nat,
{
    match s.stmt {
        SpecStatement::If { cond, then_branch, else_branch } => {
            lemma_typed_well_typed(*cond, env, sigs);
            lemma_stmt_well_typed(*then_branch, env, sigs);
            let env1 = stmt_check(*then_branch, env, sigs)->Ok_0.1;
            match else_branch {
                Some(e) => lemma_stmt_well_typed(*e, env1, sigs),
                None => {},
            }
        },
        _ => {},
    }
}

#[verifier::spinoff_prover]
proof fn lemma_for_well_typed(s: SpecStatementD<()>, env: TypeEnv, sigs: SigEnv)
    requires
        stmt_check(s, env, sigs) is Ok,
        s.stmt is For,
    ensures
        stmt_well_typed(stmt_check(s, env, sigs)->Ok_0.0, env, sigs),
        stmt_check(s, env, sigs)->Ok_0.1 == env_after(stmt_check(s, env, sigs)->Ok_0.0, env),
    decreases s, 1nat,
{
    match s.stmt {
        SpecStatement::For { init, cond, update, body } => {
            let env1 = match init {
                None => env,
                Some(i) => stmt_check(*i, env, sigs)->Ok_0.1,
            };
            match init {
                None => {},
                Some(i) => lemma_stmt_well_typed(*i, env, sigs),
            }
            match cond {
                None => {},
                Some(c) => lemma_typed_well_typed(*c, env1, sigs),
            }
            lemma_stmt_well_typed(*body, env1, sigs);
            let env2 = stmt_check(*body, env1, sigs)->Ok_0.1;
            match update {
                None => {},
                Some(u) => lemma_stmt_well_typed(*u, env2, sigs),
            }
        },
        _ => {},
    }
}

proof fn lemma_stmts_well_typed(ss: Seq<SpecStatementD<()>>, env: TypeEnv, sigs: SigEnv)
    requires
        stmts_check(ss, env, sigs) is Ok,
    ensures
        stmts_well_typed(stmts_check(ss, env, sigs)->Ok_0.0, env, sigs),
        stmts_check(ss, env, sigs)->Ok_0.1 == envs_after(stmts_check(ss, env, sigs)->Ok_0.0, env),
    decreases ss, 1nat,
{
    if ss.len() > 0 {
        lemma_stmts_well_typed(ss.drop_last(), env, sigs);
        let env1 = stmts_check(ss.drop_last(), env, sigs)->Ok_0.1;
        lemma_stmt_well_typed(ss.last(), env1, sigs);
        let xs = stmts_check(ss, env, sigs)->Ok_0.0;
        assert(xs.drop_last() == stmts_check(ss.drop_last(), env, sigs)->Ok_0.0);
    }
}

/// Every statement the checker accepts comes out well typed, and the variable
/// types the checker carries on after it are those the statement leaves.
pub proof fn law_checked_statements_are_well_typed(s: SpecStatementD<()>, env: TypeEnv, sigs: SigEnv)
    requires
        stmt_check(s, env, sigs) is Ok,
    ensures
        stmt_well_typed(stmt_check(s, env, sigs)->Ok_0.0, env, sigs),
        stmt_check(s, env, sigs)->Ok_0.1 == env_after(stmt_check(s, env, sigs)->Ok_0.0, env),
{
    lemma_stmt_well_typed(s, env, sigs);
}

proof fn lemma_funs_well_typed(fs: Seq<SpecFunDecl<()>>, sigs: SigEnv)
    requires
        funs_check(fs, sigs) is Ok,
    ensures
        forall|i: int| 0 <= i < fs.len() ==> stmt_well_typed(#[trigger] (funs_check(fs, sigs)->Ok_0)[i].body, params_env(fs[i].params), sigs),
    decreases fs.len(),
{
    if fs.len() > 0 {
        lemma_funs_well_typed(fs.drop_last(), sigs);
        lemma_funs_check_names(fs, sigs);
        let f = fs.last();
        lemma_stmt_well_typed(f.body, params_env(f.params), sigs);
        let xs = funs_check(fs, sigs)->Ok_0;
        assert(xs.drop_last() == funs_check(fs.drop_last(), sigs)->Ok_0);
        assert(xs.last() == fun_check(f, sigs)->Ok_0);
        assert forall|i: int| 0 <= i < fs.len() implies stmt_well_typed(#[trigger] xs[i].body, params_env(fs[i].params), sigs) by {
            if i < fs.len() - 1 {
                assert(xs[i] == xs.drop_last()[i]);
                assert(fs[i] == fs.drop_last()[i]);
            }
        }
    }
}

/// Every function of a program the checker accepts has a well-typed body,
/// read with its parameters in scope and the program's function signatures.
pub proof fn law_checked_programs_are_well_typed(p: SpecProgram<()>)
    requires
        program_check(p) is Ok,
    ensures
        forall|i: int| 0 <= i < p.functions.len() ==> stmt_well_typed(
            #[trigger] (program_check(p)->Ok_0).functions[i].body,
            params_env(p.functions[i].params),
            signatures_of(p.functions),
        ),
{
    lemma_funs_well_typed(p.functions, signatures_of(p.functions));
}


// ---------------------------------------------------------------------------
// Checking an expression agrees with finding its type
// ---------------------------------------------------------------------------

proof fn lemma_typed_total(e: SpecExprD<()>, env: TypeEnv, sigs: SigEnv)
    requires
        expr_type(e, env, sigs) is Ok,
    ensures
        typed(e, env, sigs) is Ok,
    decreases e, 1nat,
{
    lemma_parts_total(e, env, sigs);
}

proof fn lemma_parts_total(e: SpecExprD<()>, env: TypeEnv, sigs: SigEnv)
    requires
        expr_type(e, env, sigs) is Ok,
    ensures
        typed_parts(e.exp, env, sigs) is Ok,
    decreases e, 0nat,
{
    match e.exp {
        SpecExpr::Neg(a) | SpecExpr::Not(a) => lemma_typed_total(*a, env, sigs),
        SpecExpr::Add(a, b) | SpecExpr::Sub(a, b) | SpecExpr::Mul(a, b) | SpecExpr::Div(a, b)
        | SpecExpr::Eq(a, b) | SpecExpr::Ne(a, b) | SpecExpr::Lt(a, b) | SpecExpr::Le(a, b)
        | SpecExpr::Gt(a, b) | SpecExpr::Ge(a, b) | SpecExpr::And(a, b) | SpecExpr::Or(a, b)
        | SpecExpr::Index { base: a, index: b } => {
            lemma_typed_total(*a, env, sigs);
            lemma_typed_total(*b, env, sigs);
        },
        SpecExpr::ArrayLit(es) => {
            let first = expr_type(es[0], env, sigs)->Ok_0;
            let rest = es.subrange(1, es.len() as int);
            lemma_elements_agree_all(first, rest, env, sigs);
            assert forall|i: int| 0 <= i < es.len() implies #[trigger] expr_type(es[i], env, sigs) is Ok by {
                if i > 0 {
                    assert(rest[i - 1] == es[i]);
                }
            }
            lemma_typed_list_total(es, env, sigs);
        },
        _ => {},
    }
}

proof fn lemma_typed_list_total(es: Seq<SpecExprD<()>>, env: TypeEnv, sigs: SigEnv)
    requires
        forall|i: int| 0 <= i < es.len() ==> #[trigger] expr_type(es[i], env, sigs) is Ok,
    ensures
        typed_list(es, env, sigs) is Ok,
    decreases es, 0nat,
{
    if es.len() > 0 {
        assert forall|i: int| 0 <= i < es.drop_last().len() implies #[trigger] expr_type(es.drop_last()[i], env, sigs) is Ok by {
            assert(es.drop_last()[i] == es[i]);
        }
        lemma_typed_list_total(es.drop_last(), env, sigs);
        assert(expr_type(es[es.len() - 1], env, sigs) is Ok);
        lemma_typed_total(es.last(), env, sigs);
    }
}

/// Checking an expression succeeds exactly when its type can be found: the
/// checked expression then carries that type, and otherwise checking fails
/// with the same error as finding the type.
pub proof fn law_checking_agrees_with_typing(e: SpecExprD<()>, env: TypeEnv, sigs: SigEnv)
    ensures
        typed(e, env, sigs) is Ok <==> expr_type(e, env, sigs) is Ok,
        expr_type(e, env, sigs) is Err ==> typed(e, env, sigs) == Err::<SpecExprD<Type>, Seq<char>>(expr_type(e, env, sigs)->Err_0),
        typed(e, env, sigs) is Ok ==> (typed(e, env, sigs)->Ok_0).ty == expr_type(e, env, sigs)->Ok_0,
{
    if expr_type(e, env, sigs) is Ok {
        lemma_typed_total(e, env, sigs);
    }
}

/// Whether every node of the checked expression `x` carries the type that
/// the checker finds for that node with its types stripped.
pub open spec fn types_agree(x: SpecExprD<Type>, env: TypeEnv, sigs: SigEnv) -> bool
    decreases x,
{
    expr_type(erase_expr(x), env, sigs) == Ok::<Type, Seq<char>>(x.ty) && match x.exp {
        SpecExpr::Neg(a) | SpecExpr::Not(a) => types_agree(*a, env, sigs),
        SpecExpr::Add(a, b) | SpecExpr::Sub(a, b) | SpecExpr::Mul(a, b) | SpecExpr::Div(a, b)
        | SpecExpr::Eq(a, b) | SpecExpr::Ne(a, b) | SpecExpr::Lt(a, b) | SpecExpr::Le(a, b)
        | SpecExpr::Gt(a, b) | SpecExpr::Ge(a, b) | SpecExpr::And(a, b) | SpecExpr::Or(a, b)
        | SpecExpr::Index { base: a, index: b } => types_agree(*a, env, sigs) && types_agree(*b, env, sigs),
        SpecExpr::Call { args, .. } => all_types_agree(args, env, sigs),
        SpecExpr::ArrayLit(es) => all_types_agree(es, env, sigs),
        _ => true,
    }
}

pub open spec fn all_types_agree(xs: Seq<SpecExprD<Type>>, env: TypeEnv, sigs: SigEnv) -> bool
    decreases xs,
{
    xs.len() == 0 || (all_types_agree(xs.drop_last(), env, sigs) && types_agree(xs.last(), env, sigs))
}

proof fn lemma_typed_agree(e: SpecExprD<()>, env: TypeEnv, sigs: SigEnv)
    requires
        typed(e, env, sigs) is Ok,
    ensures
        types_agree(typed(e, env, sigs)->Ok_0, env, sigs),
    decreases e, 1nat,
{
    lemma_typed_erases(e, env, sigs);
    lemma_parts_agree(e, env, sigs);
}

proof fn lemma_parts_agree(e: SpecExprD<()>, env: TypeEnv, sigs: SigEnv)
    requires
        typed(e, env, sigs) is Ok,
        erase_expr(typed(e, env, sigs)->Ok_0) == e,
    ensures
        types_agree(typed(e, env, sigs)->Ok_0, env, sigs),
    decreases e, 0nat,
{
    match e.exp {
        SpecExpr::Neg(a) | SpecExpr::Not(a) => lemma_typed_agree(*a, env, sigs),
        SpecExpr::Add(a, b) | SpecExpr::Sub(a, b) | SpecExpr::Mul(a, b) | SpecExpr::Div(a, b)
        | SpecExpr::Eq(a, b) | SpecExpr::Ne(a, b) | SpecExpr::Lt(a, b) | SpecExpr::Le(a, b)
        | SpecExpr::Gt(a, b) | SpecExpr::Ge(a, b) | SpecExpr::And(a, b) | SpecExpr::Or(a, b)
        | SpecExpr::Index { base: a, index: b } => {
            lemma_typed_agree(*a, env, sigs);
            lemma_typed_agree(*b, env, sigs);
        },
        SpecExpr::Call { args, .. } => lemma_typed_list_agree(args, env, sigs),
        SpecExpr::ArrayLit(es) => lemma_typed_list_agree(es, env, sigs),
        _ => {},
    }
}

proof fn lemma_typed_list_agree(es: Seq<SpecExprD<()>>, env: TypeEnv, sigs: SigEnv)
    requires
        typed_list(es, env, sigs) is Ok,
    ensures
        all_types_agree(typed_list(es, env, sigs)->Ok_0, env, sigs),
    decreases es, 0nat,
{
    if es.len() > 0 {
        lemma_typed_list_agree(es.drop_last(), env, sigs);
        lemma_typed_agree(es.last(), env, sigs);
        let xs = typed_list(es, env, sigs)->Ok_0;
        assert(xs.drop_last() == typed_list(es.drop_last(), env, sigs)->Ok_0);
    }
}

/// Every node of a checked expression carries the type that the checker
/// finds for that node alone, stripped of its types.
pub proof fn law_checked_nodes_carry_their_types(e: SpecExprD<()>, env: TypeEnv, sigs: SigEnv)
    requires
        typed(e, env, sigs) is Ok,
    ensures
        types_agree(typed(e, env, sigs)->Ok_0, env, sigs),
{
    lemma_typed_agree(e, env, sigs);
}

// ---------------------------------------------------------------------------
// Checked statements and programs, in one statement each
// ---------------------------------------------------------------------------

/// A statement the checker accepts comes back as the same statement with
/// types added, every statement node of type `Unit`, every expression well
/// typed where it stands (conditions `Bool`, assignment targets of the type
/// of their value), and the variable types after it are those it leaves.
pub proof fn law_checked_statement(s: SpecStatementD<()>, env: TypeEnv, sigs: SigEnv)
    requires
        stmt_check(s, env, sigs) is Ok,
    ensures
        erase_stmt(stmt_check(s, env, sigs)->Ok_0.0) == s,
        stmt_well_typed(stmt_check(s, env, sigs)->Ok_0.0, env, sigs),
        stmt_check(s, env, sigs)->Ok_0.1 == env_after(stmt_check(s, env, sigs)->Ok_0.0, env),
{
    lemma_stmt_erases(s, env, sigs);
    lemma_stmt_well_typed(s, env, sigs);
}

/// A program the checker accepts comes back function by function: the same
/// number of functions, each with the name, parameters and return type it
/// had, a body that is the same statement with types added, and a body that
/// is well typed with its parameters in scope (so every statement node has
/// type `Unit`).
pub proof fn law_checked_program(p: SpecProgram<()>)
    requires
        program_check(p) is Ok,
    ensures
        (program_check(p)->Ok_0).functions.len() == p.functions.len(),
        forall|i: int| 0 <= i < p.functions.len() ==> {
            let f = #[trigger] (program_check(p)->Ok_0).functions[i];
            &&& f.name == p.functions[i].name
            &&& f.params == p.functions[i].params
            &&& f.return_type == p.functions[i].return_type
            &&& erase_stmt(f.body) == p.functions[i].body
            &&& stmt_well_typed(f.body, params_env(p.functions[i].params), signatures_of(p.functions))
        },
{
    let q = program_check(p)->Ok_0;
    lemma_funs_erase(p.functions, signatures_of(p.functions));
    lemma_funs_well_typed(p.functions, signatures_of(p.functions));
    assert forall|i: int| 0 <= i < p.functions.len() implies {
        let f = #[trigger] q.functions[i];
        &&& f.name == p.functions[i].name
        &&& f.params == p.functions[i].params
        &&& f.return_type == p.functions[i].return_type
        &&& erase_stmt(f.body) == p.functions[i].body
        &&& stmt_well_typed(f.body, params_env(p.functions[i].params), signatures_of(p.functions))
    } by {
        let ys = q.functions.map_values(|g: SpecFunDecl<Type>| erase_fun(g));
        assert(ys[i] == erase_fun(q.functions[i]));
    }
}


// ---------------------------------------------------------------------------
// The type of arithmetic
// ---------------------------------------------------------------------------

/// The type of an arithmetic operation does not depend on the order of its
/// operands: two `Int`s give an `Int`, an `Int` or a `Float` with a `Float`
/// gives a `Float` (an `Int` operand is promoted), and any other operand is
/// refused with the same message.
pub proof fn law_arithmetic_types(l: Type, r: Type)
    ensures
        arith_result(l, r) == arith_result(r, l),
        (l is Int && r is Int) ==> arith_result(l, r) == Ok::<Type, Seq<char>>(Type::Int),
        (l is Float && (r is Int || r is Float)) ==> arith_result(l, r) == Ok::<Type, Seq<char>>(Type::Float),
        !((l is Int || l is Float) && (r is Int || r is Float))
            ==> arith_result(l, r) == Err::<Type, Seq<char>>("arithmetic operands must be Int or Float"@),
{
}

/// Swapping the operands of an addition, subtraction, multiplication or
/// division the checker accepts gives an expression of the same type.
pub proof fn law_arithmetic_operand_order(a: SpecExprD<()>, b: SpecExprD<()>, env: TypeEnv, sigs: SigEnv)
    ensures
        ({
            let ab = SpecExprD { exp: SpecExpr::Add(Box::new(a), Box::new(b)), ty: () };
            let ba = SpecExprD { exp: SpecExpr::Add(Box::new(b), Box::new(a)), ty: () };
            expr_type(ab, env, sigs) is Ok && expr_type(ba, env, sigs) is Ok ==> expr_type(ab, env, sigs) == expr_type(ba, env, sigs)
        }),
        ({
            let ab = SpecExprD { exp: SpecExpr::Mul(Box::new(a), Box::new(b)), ty: () };
            let ba = SpecExprD { exp: SpecExpr::Mul(Box::new(b), Box::new(a)), ty: () };
            expr_type(ab, env, sigs) is Ok && expr_type(ba, env, sigs) is Ok ==> expr_type(ab, env, sigs) == expr_type(ba, env, sigs)
        }),
        ({
            let ab = SpecExprD { exp: SpecExpr::Sub(Box::new(a), Box::new(b)), ty: () };
            let ba = SpecExprD { exp: SpecExpr::Sub(Box::new(b), Box::new(a)), ty: () };
            expr_type(ab, env, sigs) is Ok && expr_type(ba, env, sigs) is Ok ==> expr_type(ab, env, sigs) == expr_type(ba, env, sigs)
        }),
        ({
            let ab = SpecExprD { exp: SpecExpr::Div(Box::new(a), Box::new(b)), ty: () };
            let ba = SpecExprD { exp: SpecExpr::Div(Box::new(b), Box::new(a)), ty: () };
            expr_type(ab, env, sigs) is Ok && expr_type(ba, env, sigs) is Ok ==> expr_type(ab, env, sigs) == expr_type(ba, env, sigs)
        }),
        // an arithmetic operation with a `Float` operand and a numeric other operand is a `Float`
        ({
            let ab = SpecExprD { exp: SpecExpr::Add(Box::new(a), Box::new(b)), ty: () };
            (expr_type(a, env, sigs) == Ok::<Type, Seq<char>>(Type::Float) && (expr_type(b, env, sigs) == Ok::<Type, Seq<char>>(Type::Int) || expr_type(b, env, sigs) == Ok::<Type, Seq<char>>(Type::Float)))
                ==> expr_type(ab, env, sigs) == Ok::<Type, Seq<char>>(Type::Float)
        }),
{
    if expr_type(a, env, sigs) is Ok && expr_type(b, env, sigs) is Ok {
        law_arithmetic_types(expr_type(a, env, sigs)->Ok_0, expr_type(b, env, sigs)->Ok_0);
    }
}


/// The typing rules of the other operations: a literal has the type of its
/// kind; a comparison of two typed operands is a `Bool`; `not`, `and` and
/// `or` take and give `Bool`s; unary minus keeps an `Int` or a `Float`; a
/// variable has the type it is bound to.
pub proof fn law_expression_types(a: SpecExprD<()>, b: SpecExprD<()>, l: SpecLiteral, n: Seq<char>, env: TypeEnv, sigs: SigEnv)
    ensures
        expr_type(SpecExprD { exp: SpecExpr::Literal(l), ty: () }, env, sigs) == Ok::<Type, Seq<char>>(match l {
            SpecLiteral::Int(_) => Type::Int,
            SpecLiteral::Float(_) => Type::Float,
            SpecLiteral::Str(_) => Type::Str,
            SpecLiteral::Bool(_) => Type::Bool,
        }),
        env.contains_key(n) ==> expr_type(SpecExprD { exp: SpecExpr::Ident(n), ty: () }, env, sigs) == Ok::<Type, Seq<char>>(env[n]),
        !env.contains_key(n) ==> expr_type(SpecExprD { exp: SpecExpr::Ident(n), ty: () }, env, sigs) is Err,
        expr_type(a, env, sigs) is Ok && expr_type(b, env, sigs) is Ok ==> {
            &&& expr_type(SpecExprD { exp: SpecExpr::Lt(Box::new(a), Box::new(b)), ty: () }, env, sigs) == Ok::<Type, Seq<char>>(Type::Bool)
            &&& expr_type(SpecExprD { exp: SpecExpr::Le(Box::new(a), Box::new(b)), ty: () }, env, sigs) == Ok::<Type, Seq<char>>(Type::Bool)
            &&& expr_type(SpecExprD { exp: SpecExpr::Gt(Box::new(a), Box::new(b)), ty: () }, env, sigs) == Ok::<Type, Seq<char>>(Type::Bool)
            &&& expr_type(SpecExprD { exp: SpecExpr::Ge(Box::new(a), Box::new(b)), ty: () }, env, sigs) == Ok::<Type, Seq<char>>(Type::Bool)
            &&& expr_type(SpecExprD { exp: SpecExpr::Eq(Box::new(a), Box::new(b)), ty: () }, env, sigs) == Ok::<Type, Seq<char>>(Type::Bool)
            &&& expr_type(SpecExprD { exp: SpecExpr::Ne(Box::new(a), Box::new(b)), ty: () }, env, sigs) == Ok::<Type, Seq<char>>(Type::Bool)
        },
        expr_type(a, env, sigs) is Ok ==>
            (expr_type(SpecExprD { exp: SpecExpr::Not(Box::new(a)), ty: () }, env, sigs) is Ok
                <==> expr_type(a, env, sigs) == Ok::<Type, Seq<char>>(Type::Bool)),
        expr_type(a, env, sigs) == Ok::<Type, Seq<char>>(Type::Bool) ==>
            expr_type(SpecExprD { exp: SpecExpr::Not(Box::new(a)), ty: () }, env, sigs) == Ok::<Type, Seq<char>>(Type::Bool),
        expr_type(a, env, sigs) is Ok && expr_type(b, env, sigs) is Ok ==>
            (expr_type(SpecExprD { exp: SpecExpr::And(Box::new(a), Box::new(b)), ty: () }, env, sigs) is Ok
                <==> (expr_type(a, env, sigs) == Ok::<Type, Seq<char>>(Type::Bool) && expr_type(b, env, sigs) == Ok::<Type, Seq<char>>(Type::Bool))),
        expr_type(a, env, sigs) is Ok && expr_type(b, env, sigs) is Ok ==>
            (expr_type(SpecExprD { exp: SpecExpr::Or(Box::new(a), Box::new(b)), ty: () }, env, sigs) is Ok
                <==> (expr_type(a, env, sigs) == Ok::<Type, Seq<char>>(Type::Bool) && expr_type(b, env, sigs) == Ok::<Type, Seq<char>>(Type::Bool))),
        expr_type(a, env, sigs) == Ok::<Type, Seq<char>>(Type::Bool) && expr_type(b, env, sigs) == Ok::<Type, Seq<char>>(Type::Bool) ==> {
            &&& expr_type(SpecExprD { exp: SpecExpr::And(Box::new(a), Box::new(b)), ty: () }, env, sigs) == Ok::<Type, Seq<char>>(Type::Bool)
            &&& expr_type(SpecExprD { exp: SpecExpr::Or(Box::new(a), Box::new(b)), ty: () }, env, sigs) == Ok::<Type, Seq<char>>(Type::Bool)
        },
        (expr_type(a, env, sigs) == Ok::<Type, Seq<char>>(Type::Int) || expr_type(a, env, sigs) == Ok::<Type, Seq<char>>(Type::Float)) ==>
            expr_type(SpecExprD { exp: SpecExpr::Neg(Box::new(a)), ty: () }, env, sigs) == expr_type(a, env, sigs),
{
}

} // verus!
