//! Translation of checked MiniC into three-address code.
//!
//! The translation scheme is the family of spec functions `tr_*` below: each
//! takes the counters of labels and temporaries made so far and gives back
//! the instructions and the new counters. Labels are `Label<n>:` and
//! temporaries `temp<n>`, numbered from 1 in the order in which they are made.
//! Constructs that the generator does not translate yet (relational and
//! call, array and index expressions as values, assignment to an indexed
//! target) are left out by the `*_supported` predicates.

use vstd::prelude::*;
use vstd::string::StringExecFns;
use crate::ir::ast::{
    first_main, lemma_first_main, SpecFunDecl, SpecProgram, copy_literal, copy_type, exprs_view, lemma_exprs_view, lemma_stmts_view, opt_expr_view, opt_stmt_view,
    stmts_view, CheckedExpr, CheckedFunDecl, CheckedProgram, CheckedStmt, Expr,
    Literal, SpecExpr, SpecExprD, SpecLiteral, SpecStatement, SpecStatementD, Statement, Type,
};
use crate::ir::tac::{
    copy_address, instrs_view, lemma_instrs_view_concat, lemma_instrs_view_push, Address, Instruction,
    Operator, SpecAddress, SpecInstruction, TACProgram,
};
use crate::text::{decimal, push_decimal};

verus! {

/// How many labels and temporaries have been made.
pub struct Counters {
    pub labels: nat,
    pub temps: nat,
}

pub open spec fn counters_le(a: Counters, b: Counters) -> bool {
    a.labels <= b.labels && a.temps <= b.temps
}

/// Whether both counters still fit in a machine word.
pub open spec fn counters_fit(c: Counters) -> bool {
    c.labels <= usize::MAX && c.temps <= usize::MAX
}

/// The name of label `n`.
pub open spec fn label_name(n: nat) -> Seq<char> {
    "Label"@ + decimal(n) + ":"@
}

/// The name of temporary `n`.
pub open spec fn temp_name(n: nat) -> Seq<char> {
    "temp"@ + decimal(n)
}

pub open spec fn next_label(c: Counters) -> Counters {
    Counters { labels: c.labels + 1, temps: c.temps }
}

pub open spec fn next_temp(c: Counters) -> Counters {
    Counters { labels: c.labels, temps: c.temps + 1 }
}

pub open spec fn bool_constant(b: bool) -> SpecAddress {
    SpecAddress::Constant(SpecLiteral::Bool(b), Type::Bool)
}

/// The relational operator that holds exactly when `op` does not.
pub open spec fn negated(op: Operator) -> Operator {
    match op {
        Operator::LT => Operator::GTE,
        Operator::LTE => Operator::GT,
        Operator::GT => Operator::LTE,
        Operator::GTE => Operator::LT,
        Operator::EQ => Operator::NE,
        Operator::NE => Operator::EQ,
        other => other,
    }
}

/// Negating a relational operator twice gives it back; an operator that is
/// not relational is its own negation.
pub proof fn law_negation_undoes_itself(op: Operator)
    ensures
        negated(negated(op)) == op,
        (op is LT || op is LTE || op is GT || op is GTE || op is EQ || op is NE) ==> negated(op) != op,
{
}

/// Whether the comparison `op` holds of the integers `x` and `y`, as in C.
pub open spec fn compares(op: Operator, x: int, y: int) -> bool {
    match op {
        Operator::LT => x < y,
        Operator::LTE => x <= y,
        Operator::GT => x > y,
        Operator::GTE => x >= y,
        Operator::EQ => x == y,
        Operator::NE => x != y,
        _ => false,
    }
}

/// The negation of a comparison holds exactly when the comparison does not:
/// a jump on the negated comparison skips code exactly when the comparison
/// fails.
pub proof fn law_negation_is_complement(op: Operator, x: int, y: int)
    requires
        op is LT || op is LTE || op is GT || op is GTE || op is EQ || op is NE,
    ensures
        compares(negated(op), x, y) == !compares(op, x, y),
{
}

// ---------------------------------------------------------------------------
// What the generator translates
// ---------------------------------------------------------------------------

/// Expressions that translate to an address and the code computing it.
pub open spec fn expr_supported(e: SpecExprD<Type>) -> bool
    decreases e,
{
    match e.exp {
        SpecExpr::Literal(_) => true,
        SpecExpr::Ident(_) => true,
        SpecExpr::Neg(a) => expr_supported(*a),
        SpecExpr::Not(a) => expr_supported(*a),
        SpecExpr::Add(a, b) => expr_supported(*a) && expr_supported(*b),
        SpecExpr::Sub(a, b) => expr_supported(*a) && expr_supported(*b),
        SpecExpr::Mul(a, b) => expr_supported(*a) && expr_supported(*b),
        SpecExpr::Div(a, b) => expr_supported(*a) && expr_supported(*b),
        SpecExpr::And(a, b) => expr_supported(*a) && expr_supported(*b),
        SpecExpr::Or(a, b) => expr_supported(*a) && expr_supported(*b),
        _ => false,
    }
}

pub open spec fn exprs_supported(es: Seq<SpecExprD<Type>>) -> bool
    decreases es.len(),
{
    es.len() == 0 || (exprs_supported(es.drop_last()) && expr_supported(es.last()))
}

/// Expressions that translate as conditions (a jump when false).
pub open spec fn cond_supported(e: SpecExprD<Type>) -> bool
    decreases e,
{
    match e.exp {
        SpecExpr::Literal(_) => true,
        SpecExpr::Ident(_) => true,
        SpecExpr::And(a, b) => cond_supported(*a) && cond_supported(*b),
        SpecExpr::Or(a, b) => expr_supported(*a) && cond_supported(*b),
        SpecExpr::Not(a) => expr_supported(*a),
        SpecExpr::Lt(a, b) => expr_supported(*a) && expr_supported(*b),
        SpecExpr::Le(a, b) => expr_supported(*a) && expr_supported(*b),
        SpecExpr::Gt(a, b) => expr_supported(*a) && expr_supported(*b),
        SpecExpr::Ge(a, b) => expr_supported(*a) && expr_supported(*b),
        SpecExpr::Eq(a, b) => expr_supported(*a) && expr_supported(*b),
        SpecExpr::Ne(a, b) => expr_supported(*a) && expr_supported(*b),
        _ => expr_supported(e),
    }
}

pub open spec fn stmt_supported(s: SpecStatementD<Type>) -> bool
    decreases s,
{
    match s.stmt {
        SpecStatement::Decl { init, .. } => expr_supported(*init),
        SpecStatement::Assign { target, value } => target.exp is Ident && expr_supported(*value),
        SpecStatement::Block { seq } => stmts_supported(seq),
        SpecStatement::Call { args, .. } => exprs_supported(args),
        SpecStatement::If { cond, then_branch, else_branch } => cond_supported(*cond) && stmt_supported(*then_branch) && match else_branch {
            Some(e) => stmt_supported(*e),
            None => true,
        },
        SpecStatement::While { cond, body } => cond_supported(*cond) && stmt_supported(*body),
        SpecStatement::For { init, cond, update, body } => (match init {
            Some(i) => stmt_supported(*i),
            None => true,
        }) && (match cond {
            Some(c) => cond_supported(*c),
            None => true,
        }) && (match update {
            Some(u) => stmt_supported(*u),
            None => true,
        }) && stmt_supported(*body),
        SpecStatement::Return(e) => match e {
            Some(x) => expr_supported(*x),
            None => true,
        },
    }
}

pub open spec fn stmts_supported(ss: Seq<SpecStatementD<Type>>) -> bool
    decreases ss,
{
    ss.len() == 0 || (stmts_supported(ss.drop_last()) && stmt_supported(ss.last()))
}

/// The number of operator nodes and leaves of an expression, as far as the
/// translation descends (the measure of its recursion).
pub open spec fn expr_size(e: SpecExprD<Type>) -> nat
    decreases e,
{
    match e.exp {
        SpecExpr::Neg(a) => 1 + expr_size(*a),
        SpecExpr::Not(a) => 1 + expr_size(*a),
        SpecExpr::Add(a, b) => 1 + expr_size(*a) + expr_size(*b),
        SpecExpr::Sub(a, b) => 1 + expr_size(*a) + expr_size(*b),
        SpecExpr::Mul(a, b) => 1 + expr_size(*a) + expr_size(*b),
        SpecExpr::Div(a, b) => 1 + expr_size(*a) + expr_size(*b),
        SpecExpr::And(a, b) => 1 + expr_size(*a) + expr_size(*b),
        SpecExpr::Or(a, b) => 1 + expr_size(*a) + expr_size(*b),
        _ => 1,
    }
}

// ---------------------------------------------------------------------------
// The translation scheme
// ---------------------------------------------------------------------------

/// The code of an arithmetic operation whose operands were translated to
/// `la` (by `li`) and `ra` (by `ri`), the counters being then `c`.
pub open spec fn binary_code(op: Operator, ty: Type, la: SpecAddress, li: Seq<SpecInstruction>, ra: SpecAddress, ri: Seq<SpecInstruction>, c: Counters) -> (SpecAddress, Seq<SpecInstruction>, Counters) {
    let t = SpecAddress::Temporary(temp_name(c.temps + 1), ty);
    (t, (li + ri).push(SpecInstruction::BinaryAssignment(op, t, la, ra)), next_temp(c))
}

/// An expression translated: the address of its value, the code computing it,
/// and the counters after it.
pub open spec fn tr_expr(e: SpecExprD<Type>, c: Counters) -> (SpecAddress, Seq<SpecInstruction>, Counters)
    decreases e,
{
    match e.exp {
        SpecExpr::Literal(v) => (SpecAddress::Constant(v, e.ty), Seq::empty(), c),
        SpecExpr::Ident(n) => (SpecAddress::Variable(n, e.ty), Seq::empty(), c),
        SpecExpr::Not(x) => {
            let (a, xi, c1) = tr_expr(*x, c);
            let lf = label_name(c1.labels + 1);
            let lx = label_name(c1.labels + 2);
            let t = SpecAddress::Temporary(temp_name(c1.temps + 1), Type::Bool);
            (t, xi.push(SpecInstruction::ConditionalJMPFalse(a, lf)).push(SpecInstruction::CopyAssignment(t, bool_constant(false))).push(SpecInstruction::JMP(lx)).push(SpecInstruction::Label(lf)).push(SpecInstruction::CopyAssignment(t, bool_constant(true))).push(SpecInstruction::Label(lx)), Counters { labels: c1.labels + 2, temps: c1.temps + 1 })
        },
        SpecExpr::Or(l, r) => {
            let (la, li, c1) = tr_expr(*l, c);
            let (ra, ri, c2) = tr_expr(*r, c1);
            let lt = label_name(c2.labels + 1);
            let lf = label_name(c2.labels + 2);
            let lx = label_name(c2.labels + 3);
            let t = SpecAddress::Temporary(temp_name(c2.temps + 1), Type::Bool);
            (t, (li.push(SpecInstruction::ConditionalJMPFalse(la, lf)).push(SpecInstruction::JMP(lt)).push(SpecInstruction::Label(lf)) + ri).push(SpecInstruction::ConditionalJMP(ra, lt)).push(SpecInstruction::CopyAssignment(t, bool_constant(false))).push(SpecInstruction::JMP(lx)).push(SpecInstruction::Label(lt)).push(SpecInstruction::CopyAssignment(t, bool_constant(true))).push(SpecInstruction::Label(lx)), Counters { labels: c2.labels + 3, temps: c2.temps + 1 })
        },
        SpecExpr::And(l, r) => {
            let (la, li, c1) = tr_expr(*l, c);
            let (ra, ri, c2) = tr_expr(*r, c1);
            let lf = label_name(c2.labels + 1);
            let lx = label_name(c2.labels + 2);
            let t = SpecAddress::Temporary(temp_name(c2.temps + 1), Type::Bool);
            (t, (li.push(SpecInstruction::ConditionalJMPFalse(la, lf)) + ri).push(SpecInstruction::ConditionalJMPFalse(ra, lf)).push(SpecInstruction::CopyAssignment(t, bool_constant(true))).push(SpecInstruction::JMP(lx)).push(SpecInstruction::Label(lf)).push(SpecInstruction::CopyAssignment(t, bool_constant(false))).push(SpecInstruction::Label(lx)), Counters { labels: c2.labels + 2, temps: c2.temps + 1 })
        },
        SpecExpr::Add(l, r) => {
            let (la, li, c1) = tr_expr(*l, c);
            let (ra, ri, c2) = tr_expr(*r, c1);
            binary_code(Operator::Add, e.ty, la, li, ra, ri, c2)
        },
        SpecExpr::Sub(l, r) => {
            let (la, li, c1) = tr_expr(*l, c);
            let (ra, ri, c2) = tr_expr(*r, c1);
            binary_code(Operator::Sub, e.ty, la, li, ra, ri, c2)
        },
        SpecExpr::Mul(l, r) => {
            let (la, li, c1) = tr_expr(*l, c);
            let (ra, ri, c2) = tr_expr(*r, c1);
            binary_code(Operator::Mul, e.ty, la, li, ra, ri, c2)
        },
        SpecExpr::Div(l, r) => {
            let (la, li, c1) = tr_expr(*l, c);
            let (ra, ri, c2) = tr_expr(*r, c1);
            binary_code(Operator::Div, e.ty, la, li, ra, ri, c2)
        },
        SpecExpr::Neg(x) => {
            let (a, xi, c1) = tr_expr(*x, c);
            let t = SpecAddress::Temporary(temp_name(c1.temps + 1), e.ty);
            (t, xi.push(SpecInstruction::UnaryAssignment(Operator::Neg, t, a)), next_temp(c1))
        },
        _ => (bool_constant(false), Seq::empty(), c),
    }
}

/// The code of a relational test that jumps to `fl` when `op` does not hold.
pub open spec fn tr_relational(l: SpecExprD<Type>, r: SpecExprD<Type>, op: Operator, fl: Seq<char>, c: Counters) -> (Seq<SpecInstruction>, Counters) {
    let (la, li, c1) = tr_expr(l, c);
    let (ra, ri, c2) = tr_expr(r, c1);
    ((li + ri).push(SpecInstruction::ConditionalJMPRelational(negated(op), la, ra, fl)), c2)
}

/// A condition translated: code that falls through when it holds and jumps to
/// `fl` when it does not.
pub open spec fn tr_cond(e: SpecExprD<Type>, c: Counters, fl: Seq<char>) -> (Seq<SpecInstruction>, Counters)
    decreases e,
{
    match e.exp {
        SpecExpr::Literal(SpecLiteral::Bool(true)) => (Seq::empty(), c),
        SpecExpr::Literal(SpecLiteral::Bool(false)) => (seq![SpecInstruction::JMP(fl)], c),
        SpecExpr::Ident(n) => (seq![SpecInstruction::ConditionalJMPFalse(SpecAddress::Variable(n, e.ty), fl)], c),
        SpecExpr::And(l, r) => {
            let lr = label_name(c.labels + 1);
            let (li, c1) = tr_cond(*l, next_label(c), fl);
            let (ri, c2) = tr_cond(*r, c1, fl);
            (li.push(SpecInstruction::Label(lr)) + ri, c2)
        },
        SpecExpr::Or(l, r) => {
            let ls = label_name(c.labels + 1);
            let (la, li, c1) = tr_expr(*l, next_label(c));
            let (ri, c2) = tr_cond(*r, c1, fl);
            ((li.push(SpecInstruction::ConditionalJMP(la, ls)) + ri).push(SpecInstruction::Label(ls)), c2)
        },
        SpecExpr::Not(x) => {
            let (a, xi, c1) = tr_expr(*x, c);
            (xi.push(SpecInstruction::ConditionalJMP(a, fl)), c1)
        },
        SpecExpr::Lt(l, r) => tr_relational(*l, *r, Operator::LT, fl, c),
        SpecExpr::Le(l, r) => tr_relational(*l, *r, Operator::LTE, fl, c),
        SpecExpr::Gt(l, r) => tr_relational(*l, *r, Operator::GT, fl, c),
        SpecExpr::Ge(l, r) => tr_relational(*l, *r, Operator::GTE, fl, c),
        SpecExpr::Eq(l, r) => tr_relational(*l, *r, Operator::EQ, fl, c),
        SpecExpr::Ne(l, r) => tr_relational(*l, *r, Operator::NE, fl, c),
        _ => {
            let (a, xi, c1) = tr_expr(e, c);
            (xi.push(SpecInstruction::ConditionalJMPFalse(a, fl)), c1)
        },
    }
}

/// Arguments translated in order: their addresses, the code computing them.
pub open spec fn tr_args(args: Seq<SpecExprD<Type>>, c: Counters) -> (Seq<SpecAddress>, Seq<SpecInstruction>, Counters)
    decreases args.len(),
{
    if args.len() == 0 {
        (Seq::empty(), Seq::empty(), c)
    } else {
        let (addrs, code, c1) = tr_args(args.drop_last(), c);
        let (a, ai, c2) = tr_expr(args.last(), c1);
        (addrs.push(a), code + ai, c2)
    }
}

/// The `param` instructions passing `addrs`.
pub open spec fn params_code(addrs: Seq<SpecAddress>) -> Seq<SpecInstruction> {
    addrs.map_values(|a: SpecAddress| SpecInstruction::Param(a))
}

/// The optional statement `s` translated (nothing when absent).
pub open spec fn tr_opt_stmt(s: Option<Box<SpecStatementD<Type>>>, c: Counters) -> (Seq<SpecInstruction>, Counters)
    decreases s,
{
    match s {
        Some(x) => tr_stmt(*x, c),
        None => (Seq::empty(), c),
    }
}

/// A statement translated: its code and the counters after it.
pub open spec fn tr_stmt(s: SpecStatementD<Type>, c: Counters) -> (Seq<SpecInstruction>, Counters)
    decreases s,
{
    match s.stmt {
        SpecStatement::Block { seq } => tr_stmts(seq, c),
        SpecStatement::Decl { name, ty, init } => {
            let (a, ii, c1) = tr_expr(*init, c);
            (ii.push(SpecInstruction::CopyAssignment(SpecAddress::Variable(name, ty), a)), c1)
        },
        SpecStatement::Assign { target, value } => match target.exp {
            SpecExpr::Ident(n) => {
                let (a, vi, c1) = tr_expr(*value, c);
                (vi.push(SpecInstruction::CopyAssignment(SpecAddress::Variable(n, target.ty), a)), c1)
            },
            _ => (Seq::empty(), c),
        },
        SpecStatement::Call { name, args } => {
            let (addrs, code, c1) = tr_args(args, c);
            ((code + params_code(addrs)).push(SpecInstruction::Call(None, name, args.len() as usize)), c1)
        },
        SpecStatement::If { cond, then_branch, else_branch } => match else_branch {
            Some(e) => {
                let le = label_name(c.labels + 1);
                let lend = label_name(c.labels + 2);
                let (ci, c1) = tr_cond(*cond, next_label(next_label(c)), le);
                let (ti, c2) = tr_stmt(*then_branch, c1);
                let (ei, c3) = tr_stmt(*e, c2);
                (((ci + ti).push(SpecInstruction::JMP(lend)).push(SpecInstruction::Label(le)) + ei).push(SpecInstruction::Label(lend)), c3)
            },
            None => {
                let lend = label_name(c.labels + 1);
                let (ci, c1) = tr_cond(*cond, next_label(c), lend);
                let (ti, c2) = tr_stmt(*then_branch, c1);
                ((ci + ti).push(SpecInstruction::Label(lend)), c2)
            },
        },
        SpecStatement::While { cond, body } => {
            let lt = label_name(c.labels + 1);
            let le = label_name(c.labels + 2);
            let (ci, c1) = tr_cond(*cond, next_label(next_label(c)), le);
            let (bi, c2) = tr_stmt(*body, c1);
            ((seq![SpecInstruction::Label(lt)] + ci + bi).push(SpecInstruction::JMP(lt)).push(SpecInstruction::Label(le)), c2)
        },
        SpecStatement::For { init, cond, update, body } => {
            let lt = label_name(c.labels + 1);
            let le = label_name(c.labels + 2);
            let (ii, c1) = tr_opt_stmt(init, next_label(next_label(c)));
            let head = ii.push(SpecInstruction::Label(lt));
            let (hc, c2) = match cond {
                Some(x) => {
                    let (ci, c2) = tr_cond(*x, c1, le);
                    (head + ci, c2)
                },
                None => (head, c1),
            };
            let (bi, c3) = tr_stmt(*body, c2);
            let (ui, c4) = tr_opt_stmt(update, c3);
            ((hc + bi + ui).push(SpecInstruction::JMP(lt)).push(SpecInstruction::Label(le)), c4)
        },
        SpecStatement::Return(e) => match e {
            None => (seq![SpecInstruction::Return(None)], c),
            Some(x) => {
                let (a, xi, c1) = tr_expr(*x, c);
                (xi.push(SpecInstruction::Return(Some(a))), c1)
            },
        },
    }
}

/// Statements translated in order.
pub open spec fn tr_stmts(ss: Seq<SpecStatementD<Type>>, c: Counters) -> (Seq<SpecInstruction>, Counters)
    decreases ss,
{
    if ss.len() == 0 {
        (Seq::empty(), c)
    } else {
        let (pi, c1) = tr_stmts(ss.drop_last(), c);
        let (li, c2) = tr_stmt(ss.last(), c1);
        (pi + li, c2)
    }
}

// ---------------------------------------------------------------------------
// The counters only grow
// ---------------------------------------------------------------------------

pub proof fn lemma_expr_counters(e: SpecExprD<Type>, c: Counters)
    ensures
        counters_le(c, tr_expr(e, c).2),
    decreases e,
{
    match e.exp {
        SpecExpr::Not(x) => lemma_expr_counters(*x, c),
        SpecExpr::Neg(x) => lemma_expr_counters(*x, c),
        SpecExpr::Or(l, r) | SpecExpr::And(l, r) | SpecExpr::Add(l, r) | SpecExpr::Sub(l, r)
        | SpecExpr::Mul(l, r) | SpecExpr::Div(l, r) => {
            lemma_expr_counters(*l, c);
            lemma_expr_counters(*r, tr_expr(*l, c).2);
        },
        _ => {},
    }
}

pub proof fn lemma_cond_counters(e: SpecExprD<Type>, c: Counters, fl: Seq<char>)
    ensures
        counters_le(c, tr_cond(e, c, fl).1),
    decreases e,
{
    match e.exp {
        SpecExpr::Literal(_) | SpecExpr::Ident(_) => {},
        SpecExpr::And(l, r) => {
            lemma_cond_counters(*l, next_label(c), fl);
            lemma_cond_counters(*r, tr_cond(*l, next_label(c), fl).1, fl);
        },
        SpecExpr::Or(l, r) => {
            lemma_expr_counters(*l, next_label(c));
            lemma_cond_counters(*r, tr_expr(*l, next_label(c)).2, fl);
        },
        SpecExpr::Not(x) => lemma_expr_counters(*x, c),
        SpecExpr::Lt(l, r) | SpecExpr::Le(l, r) | SpecExpr::Gt(l, r) | SpecExpr::Ge(l, r)
        | SpecExpr::Eq(l, r) | SpecExpr::Ne(l, r) => {
            lemma_expr_counters(*l, c);
            lemma_expr_counters(*r, tr_expr(*l, c).2);
        },
        _ => lemma_expr_counters(e, c),
    }
}

pub proof fn lemma_args_counters(args: Seq<SpecExprD<Type>>, c: Counters)
    ensures
        counters_le(c, tr_args(args, c).2),
    decreases args.len(),
{
    if args.len() > 0 {
        lemma_args_counters(args.drop_last(), c);
        lemma_expr_counters(args.last(), tr_args(args.drop_last(), c).2);
    }
}

#[verifier::spinoff_prover]
#[verifier::rlimit(50)]
pub proof fn lemma_stmt_counters(s: SpecStatementD<Type>, c: Counters)
    ensures
        counters_le(c, tr_stmt(s, c).1),
    decreases s,
{
    match s.stmt {
        SpecStatement::Block { seq } => lemma_stmts_counters(seq, c),
        SpecStatement::Decl { init, .. } => lemma_expr_counters(*init, c),
        SpecStatement::Assign { target, value } => lemma_expr_counters(*value, c),
        SpecStatement::Call { args, .. } => lemma_args_counters(args, c),
        SpecStatement::If { cond, then_branch, else_branch } => match else_branch {
            Some(e) => {
                let c0 = next_label(next_label(c));
                let le = label_name(c.labels + 1);
                lemma_cond_counters(*cond, c0, le);
                let c1 = tr_cond(*cond, c0, le).1;
                lemma_stmt_counters(*then_branch, c1);
                lemma_stmt_counters(*e, tr_stmt(*then_branch, c1).1);
            },
            None => {
                let c0 = next_label(c);
                let lend = label_name(c.labels + 1);
                lemma_cond_counters(*cond, c0, lend);
                lemma_stmt_counters(*then_branch, tr_cond(*cond, c0, lend).1);
            },
        },
        SpecStatement::While { cond, body } => {
            let c0 = next_label(next_label(c));
            let le = label_name(c.labels + 2);
            lemma_cond_counters(*cond, c0, le);
            lemma_stmt_counters(*body, tr_cond(*cond, c0, le).1);
        },
        SpecStatement::For { init, cond, update, body } => {
            let c0 = next_label(next_label(c));
            let le = label_name(c.labels + 2);
            lemma_opt_stmt_counters(init, c0);
            let c1 = tr_opt_stmt(init, c0).1;
            let c2 = match cond {
                Some(x) => {
                    lemma_cond_counters(*x, c1, le);
                    tr_cond(*x, c1, le).1
                },
                None => c1,
            };
            lemma_stmt_counters(*body, c2);
            lemma_opt_stmt_counters(update, tr_stmt(*body, c2).1);
        },
        SpecStatement::Return(e) => match e {
            Some(x) => lemma_expr_counters(*x, c),
            None => {},
        },
    }
}

pub proof fn lemma_opt_stmt_counters(s: Option<Box<SpecStatementD<Type>>>, c: Counters)
    ensures
        counters_le(c, tr_opt_stmt(s, c).1),
    decreases s,
{
    match s {
        Some(x) => lemma_stmt_counters(*x, c),
        None => {},
    }
}

pub proof fn lemma_stmts_counters(ss: Seq<SpecStatementD<Type>>, c: Counters)
    ensures
        counters_le(c, tr_stmts(ss, c).1),
    decreases ss,
{
    if ss.len() > 0 {
        lemma_stmts_counters(ss.drop_last(), c);
        lemma_stmt_counters(ss.last(), tr_stmts(ss.drop_last(), c).1);
    }
}

proof fn lemma_stmts_prefix(ss: Seq<SpecStatementD<Type>>, j: int, c: Counters)
    requires
        0 <= j <= ss.len(),
    ensures
        counters_le(tr_stmts(ss.take(j), c).1, tr_stmts(ss, c).1),
        stmts_supported(ss) ==> stmts_supported(ss.take(j)),
    decreases ss.len() - j,
{
    if j == ss.len() {
        assert(ss.take(j) =~= ss);
    } else {
        lemma_stmts_prefix(ss, j + 1, c);
        assert(ss.take(j + 1).drop_last() =~= ss.take(j));
        lemma_stmt_counters(ss[j], tr_stmts(ss.take(j), c).1);
    }
}

proof fn lemma_args_prefix(args: Seq<SpecExprD<Type>>, j: int, c: Counters)
    requires
        0 <= j <= args.len(),
    ensures
        counters_le(tr_args(args.take(j), c).2, tr_args(args, c).2),
        exprs_supported(args) ==> exprs_supported(args.take(j)),
    decreases args.len() - j,
{
    if j == args.len() {
        assert(args.take(j) =~= args);
    } else {
        lemma_args_prefix(args, j + 1, c);
        assert(args.take(j + 1).drop_last() =~= args.take(j));
        lemma_expr_counters(args[j], tr_args(args.take(j), c).2);
    }
}

// ---------------------------------------------------------------------------
// The generator
// ---------------------------------------------------------------------------

/// The counters of labels and temporaries made so far.
#[derive(Clone)]
pub struct Environment {
    current_label: usize,
    current_temporary: usize,
}

impl View for Environment {
    type V = Counters;

    closed spec fn view(&self) -> Counters {
        Counters { labels: self.current_label as nat, temps: self.current_temporary as nat }
    }
}

impl Default for Environment {
    fn default() -> (r: Self)
        ensures
            r@ == (Counters { labels: 0, temps: 0 }),
    {
        Self::new()
    }
}

impl Environment {
    pub fn new() -> (r: Self)
        ensures
            r@ == (Counters { labels: 0, temps: 0 }),
    {
        Self { current_label: 0, current_temporary: 0 }
    }

    fn new_label(&mut self) -> (r: String)
        requires
            old(self)@.labels < usize::MAX,
        ensures
            r@ == label_name(old(self)@.labels + 1),
            final(self)@ == next_label(old(self)@),
    {
        self.current_label += 1;
        let mut s = String::from_str("Label");
        push_decimal(&mut s, self.current_label as u64);
        s.append(":");
        s
    }

    fn new_temporary(&mut self) -> (r: String)
        requires
            old(self)@.temps < usize::MAX,
        ensures
            r@ == temp_name(old(self)@.temps + 1),
            final(self)@ == next_temp(old(self)@),
    {
        self.current_temporary += 1;
        let mut s = String::from_str("temp");
        push_decimal(&mut s, self.current_temporary as u64);
        s
    }
}

fn bool_address(b: bool) -> (r: Address)
    ensures
        r@ == bool_constant(b),
{
    Address::Constant(Literal::Bool(b), Type::Bool)
}

fn translate_not(exp: &CheckedExpr, env: &mut Environment) -> (res: (Address, Vec<Instruction>))
    requires
        expr_supported(exp@),
        ({
            let c1 = tr_expr(exp@, old(env)@).2;
            counters_fit(Counters { labels: c1.labels + 2, temps: c1.temps + 1 })
        }),
    ensures
        ({
            let (a, xi, c1) = tr_expr(exp@, old(env)@);
            let lf = label_name(c1.labels + 1);
            let lx = label_name(c1.labels + 2);
            let t = SpecAddress::Temporary(temp_name(c1.temps + 1), Type::Bool);
            &&& res.0@ == t
            &&& instrs_view(res.1@) == xi.push(SpecInstruction::ConditionalJMPFalse(a, lf)).push(SpecInstruction::CopyAssignment(t, bool_constant(false))).push(SpecInstruction::JMP(lx)).push(SpecInstruction::Label(lf)).push(SpecInstruction::CopyAssignment(t, bool_constant(true))).push(SpecInstruction::Label(lx))
            &&& final(env)@ == Counters { labels: c1.labels + 2, temps: c1.temps + 1 }
        }),
    decreases expr_size(exp@), 2nat,
{
    let (addr, mut instructions) = translate_expression(exp, env);
    let ghost xi = instructions@;
    let label_false = env.new_label();
    let label_exit = env.new_label();
    let temp = Address::Temporary(env.new_temporary(), Type::Bool);
    instructions.push(Instruction::ConditionalJMPFalse(addr, label_false.clone()));
    instructions.push(Instruction::CopyAssignment(copy_address(&temp), bool_address(false)));
    instructions.push(Instruction::JMP(label_exit.clone()));
    instructions.push(Instruction::Label(label_false));
    instructions.push(Instruction::CopyAssignment(copy_address(&temp), bool_address(true)));
    instructions.push(Instruction::Label(label_exit));
    proof {
        let (a, xs, c1) = tr_expr(exp@, old(env)@);
        let lf = label_name(c1.labels + 1);
        let lx = label_name(c1.labels + 2);
        let t = SpecAddress::Temporary(temp_name(c1.temps + 1), Type::Bool);
        assert(instrs_view(instructions@) =~= xs.push(SpecInstruction::ConditionalJMPFalse(a, lf)).push(SpecInstruction::CopyAssignment(t, bool_constant(false))).push(SpecInstruction::JMP(lx)).push(SpecInstruction::Label(lf)).push(SpecInstruction::CopyAssignment(t, bool_constant(true))).push(SpecInstruction::Label(lx)));
    }
    (temp, instructions)
}

fn translate_or(left: &CheckedExpr, right: &CheckedExpr, env: &mut Environment) -> (res: (Address, Vec<Instruction>))
    requires
        expr_supported(left@),
        expr_supported(right@),
        ({
            let c2 = tr_expr(right@, tr_expr(left@, old(env)@).2).2;
            counters_fit(Counters { labels: c2.labels + 3, temps: c2.temps + 1 })
        }),
    ensures
        ({
            let (la, li, c1) = tr_expr(left@, old(env)@);
            let (ra, ri, c2) = tr_expr(right@, c1);
            let lt = label_name(c2.labels + 1);
            let lf = label_name(c2.labels + 2);
            let lx = label_name(c2.labels + 3);
            let t = SpecAddress::Temporary(temp_name(c2.temps + 1), Type::Bool);
            &&& res.0@ == t
            &&& instrs_view(res.1@) == (li.push(SpecInstruction::ConditionalJMPFalse(la, lf)).push(SpecInstruction::JMP(lt)).push(SpecInstruction::Label(lf)) + ri).push(SpecInstruction::ConditionalJMP(ra, lt)).push(SpecInstruction::CopyAssignment(t, bool_constant(false))).push(SpecInstruction::JMP(lx)).push(SpecInstruction::Label(lt)).push(SpecInstruction::CopyAssignment(t, bool_constant(true))).push(SpecInstruction::Label(lx))
            &&& final(env)@ == Counters { labels: c2.labels + 3, temps: c2.temps + 1 }
        }),
    decreases expr_size(left@) + expr_size(right@), 2nat,
{
    let ghost c = env@;
    proof {
        lemma_expr_counters(right@, tr_expr(left@, c).2);
    }
    let (l_addr, l_instructions) = translate_expression(left, env);
    let (r_addr, mut r_instructions) = translate_expression(right, env);
    let label_true = env.new_label();
    let label_false = env.new_label();
    let label_exit = env.new_label();
    let temp = Address::Temporary(env.new_temporary(), Type::Bool);
    let mut instructions = l_instructions;
    instructions.push(Instruction::ConditionalJMPFalse(l_addr, label_false.clone()));
    instructions.push(Instruction::JMP(label_true.clone()));
    instructions.push(Instruction::Label(label_false));
    instructions.append(&mut r_instructions);
    instructions.push(Instruction::ConditionalJMP(r_addr, label_true.clone()));
    instructions.push(Instruction::CopyAssignment(copy_address(&temp), bool_address(false)));
    instructions.push(Instruction::JMP(label_exit.clone()));
    instructions.push(Instruction::Label(label_true));
    instructions.push(Instruction::CopyAssignment(copy_address(&temp), bool_address(true)));
    instructions.push(Instruction::Label(label_exit));
    proof {
        let (la, li, c1) = tr_expr(left@, c);
        let (ra, ri, c2) = tr_expr(right@, c1);
        let lt = label_name(c2.labels + 1);
        let lf = label_name(c2.labels + 2);
        let lx = label_name(c2.labels + 3);
        let t = SpecAddress::Temporary(temp_name(c2.temps + 1), Type::Bool);
        assert(instrs_view(instructions@) =~= (li.push(SpecInstruction::ConditionalJMPFalse(la, lf)).push(SpecInstruction::JMP(lt)).push(SpecInstruction::Label(lf)) + ri).push(SpecInstruction::ConditionalJMP(ra, lt)).push(SpecInstruction::CopyAssignment(t, bool_constant(false))).push(SpecInstruction::JMP(lx)).push(SpecInstruction::Label(lt)).push(SpecInstruction::CopyAssignment(t, bool_constant(true))).push(SpecInstruction::Label(lx)));
    }
    (temp, instructions)
}

fn translate_and(left: &CheckedExpr, right: &CheckedExpr, env: &mut Environment) -> (res: (Address, Vec<Instruction>))
    requires
        expr_supported(left@),
        expr_supported(right@),
        ({
            let c2 = tr_expr(right@, tr_expr(left@, old(env)@).2).2;
            counters_fit(Counters { labels: c2.labels + 2, temps: c2.temps + 1 })
        }),
    ensures
        ({
            let (la, li, c1) = tr_expr(left@, old(env)@);
            let (ra, ri, c2) = tr_expr(right@, c1);
            let lf = label_name(c2.labels + 1);
            let lx = label_name(c2.labels + 2);
            let t = SpecAddress::Temporary(temp_name(c2.temps + 1), Type::Bool);
            &&& res.0@ == t
            &&& instrs_view(res.1@) == (li.push(SpecInstruction::ConditionalJMPFalse(la, lf)) + ri).push(SpecInstruction::ConditionalJMPFalse(ra, lf)).push(SpecInstruction::CopyAssignment(t, bool_constant(true))).push(SpecInstruction::JMP(lx)).push(SpecInstruction::Label(lf)).push(SpecInstruction::CopyAssignment(t, bool_constant(false))).push(SpecInstruction::Label(lx))
            &&& final(env)@ == Counters { labels: c2.labels + 2, temps: c2.temps + 1 }
        }),
    decreases expr_size(left@) + expr_size(right@), 2nat,
{
    let ghost c = env@;
    proof {
        lemma_expr_counters(right@, tr_expr(left@, c).2);
    }
    let (l_addr, l_instructions) = translate_expression(left, env);
    let (r_addr, mut r_instructions) = translate_expression(right, env);
    let label_false = env.new_label();
    let label_exit = env.new_label();
    let temp = Address::Temporary(env.new_temporary(), Type::Bool);
    let mut instructions = l_instructions;
    instructions.push(Instruction::ConditionalJMPFalse(l_addr, label_false.clone()));
    instructions.append(&mut r_instructions);
    instructions.push(Instruction::ConditionalJMPFalse(r_addr, label_false.clone()));
    instructions.push(Instruction::CopyAssignment(copy_address(&temp), bool_address(true)));
    instructions.push(Instruction::JMP(label_exit.clone()));
    instructions.push(Instruction::Label(label_false));
    instructions.push(Instruction::CopyAssignment(copy_address(&temp), bool_address(false)));
    instructions.push(Instruction::Label(label_exit));
    proof {
        let (la, li, c1) = tr_expr(left@, c);
        let (ra, ri, c2) = tr_expr(right@, c1);
        let lf = label_name(c2.labels + 1);
        let lx = label_name(c2.labels + 2);
        let t = SpecAddress::Temporary(temp_name(c2.temps + 1), Type::Bool);
        assert(instrs_view(instructions@) =~= (li.push(SpecInstruction::ConditionalJMPFalse(la, lf)) + ri).push(SpecInstruction::ConditionalJMPFalse(ra, lf)).push(SpecInstruction::CopyAssignment(t, bool_constant(true))).push(SpecInstruction::JMP(lx)).push(SpecInstruction::Label(lf)).push(SpecInstruction::CopyAssignment(t, bool_constant(false))).push(SpecInstruction::Label(lx)));
    }
    (temp, instructions)
}

fn translate_neg(exp: &CheckedExpr, result_ty: &Type, env: &mut Environment) -> (res: (Address, Vec<Instruction>))
    requires
        expr_supported(exp@),
        counters_fit(next_temp(tr_expr(exp@, old(env)@).2)),
    ensures
        ({
            let (a, xi, c1) = tr_expr(exp@, old(env)@);
            let t = SpecAddress::Temporary(temp_name(c1.temps + 1), *result_ty);
            &&& res.0@ == t
            &&& instrs_view(res.1@) == xi.push(SpecInstruction::UnaryAssignment(Operator::Neg, t, a))
            &&& final(env)@ == next_temp(c1)
        }),
    decreases expr_size(exp@), 2nat,
{
    let (addr, mut instructions) = translate_expression(exp, env);
    let ghost xi = instructions@;
    let temp = Address::Temporary(env.new_temporary(), copy_type(result_ty));
    instructions.push(Instruction::UnaryAssignment(Operator::Neg, copy_address(&temp), addr));
    proof {
        lemma_instrs_view_push(xi, instructions@.last());
        assert(instrs_view(xi) == tr_expr(exp@, old(env)@).1);
    }
    (temp, instructions)
}

#[verifier::spinoff_prover]
fn translate_expression(expression: &CheckedExpr, env: &mut Environment) -> (res: (Address, Vec<Instruction>))
    requires
        expr_supported(expression@),
        counters_fit(tr_expr(expression@, old(env)@).2),
    ensures
        res.0@ == tr_expr(expression@, old(env)@).0,
        instrs_view(res.1@) == tr_expr(expression@, old(env)@).1,
        final(env)@ == tr_expr(expression@, old(env)@).2,
    decreases expr_size(expression@), 1nat,
{
    match &expression.exp {
        Expr::Literal(value) => (Address::Constant(copy_literal(value), copy_type(&expression.ty)), Vec::new()),
        Expr::Ident(name) => (Address::Variable(name.clone(), copy_type(&expression.ty)), Vec::new()),
        Expr::Not(exp) => translate_not(exp, env),
        Expr::Or(left, right) => translate_or(left, right, env),
        Expr::And(left, right) => translate_and(left, right, env),
        Expr::Add(left, right) => binary_arithmetic(Operator::Add, left, right, &expression.ty, env),
        Expr::Sub(left, right) => binary_arithmetic(Operator::Sub, left, right, &expression.ty, env),
        Expr::Mul(left, right) => binary_arithmetic(Operator::Mul, left, right, &expression.ty, env),
        Expr::Div(left, right) => binary_arithmetic(Operator::Div, left, right, &expression.ty, env),
        Expr::Neg(exp) => translate_neg(exp, &expression.ty, env),
        _ => vstd::pervasive::unreached(),
    }
}

fn binary_arithmetic(op: Operator, left: &CheckedExpr, right: &CheckedExpr, result_ty: &Type, env: &mut Environment) -> (res: (Address, Vec<Instruction>))
    requires
        expr_supported(left@),
        expr_supported(right@),
        counters_fit({
            let (la, li, c1) = tr_expr(left@, old(env)@);
            let (ra, ri, c2) = tr_expr(right@, c1);
            binary_code(op, *result_ty, la, li, ra, ri, c2).2
        }),
    ensures
        ({
            let (la, li, c1) = tr_expr(left@, old(env)@);
            let (ra, ri, c2) = tr_expr(right@, c1);
            let (a, code, c3) = binary_code(op, *result_ty, la, li, ra, ri, c2);
            &&& res.0@ == a
            &&& instrs_view(res.1@) == code
            &&& final(env)@ == c3
        }),
    decreases expr_size(left@) + expr_size(right@), 2nat,
{
    let ghost c = env@;
    proof {
        lemma_expr_counters(right@, tr_expr(left@, c).2);
    }
    let (l_addr, l_instructions) = translate_expression(left, env);
    let (r_addr, mut r_instructions) = translate_expression(right, env);
    let mut instructions = l_instructions;
    instructions.append(&mut r_instructions);
    let temp = Address::Temporary(env.new_temporary(), copy_type(result_ty));
    instructions.push(Instruction::BinaryAssignment(op, copy_address(&temp), l_addr, r_addr));
    proof {
        let (la, li, c1) = tr_expr(left@, c);
        let (ra, ri, c2) = tr_expr(right@, c1);
        assert(instrs_view(instructions@) =~= binary_code(op, *result_ty, la, li, ra, ri, c2).1);
    }
    (temp, instructions)
}

fn negate_op(op: Operator) -> (r: Operator)
    ensures
        r == negated(op),
{
    match op {
        Operator::LT => Operator::GTE,
        Operator::LTE => Operator::GT,
        Operator::GT => Operator::LTE,
        Operator::GTE => Operator::LT,
        Operator::EQ => Operator::NE,
        Operator::NE => Operator::EQ,
        other => other,
    }
}

fn translate_relational(left: &CheckedExpr, right: &CheckedExpr, op: Operator, false_label: String, env: &mut Environment) -> (res: Vec<Instruction>)
    requires
        expr_supported(left@),
        expr_supported(right@),
        counters_fit(tr_relational(left@, right@, op, false_label@, old(env)@).1),
    ensures
        instrs_view(res@) == tr_relational(left@, right@, op, false_label@, old(env)@).0,
        final(env)@ == tr_relational(left@, right@, op, false_label@, old(env)@).1,
{
    let ghost c = env@;
    proof {
        lemma_expr_counters(right@, tr_expr(left@, c).2);
    }
    let (l_addr, l_instructions) = translate_expression(left, env);
    let (r_addr, mut r_instructions) = translate_expression(right, env);
    let mut instructions = l_instructions;
    instructions.append(&mut r_instructions);
    instructions.push(Instruction::ConditionalJMPRelational(negate_op(op), l_addr, r_addr, false_label));
    assert(instrs_view(instructions@) =~= tr_relational(left@, right@, op, false_label@, c).0);
    instructions
}

fn translate_cond_and(left: &CheckedExpr, right: &CheckedExpr, env: &mut Environment, false_label: String) -> (res: Vec<Instruction>)
    requires
        cond_supported(left@),
        cond_supported(right@),
        counters_fit(tr_cond(right@, tr_cond(left@, next_label(old(env)@), false_label@).1, false_label@).1),
    ensures
        ({
            let (li, c1) = tr_cond(left@, next_label(old(env)@), false_label@);
            let (ri, c2) = tr_cond(right@, c1, false_label@);
            &&& instrs_view(res@) == li.push(SpecInstruction::Label(label_name(old(env)@.labels + 1))) + ri
            &&& final(env)@ == c2
        }),
    decreases expr_size(left@) + expr_size(right@),
{
    let ghost c = env@;
    let ghost fl = false_label@;
    proof {
        lemma_cond_counters(right@, tr_cond(left@, next_label(c), fl).1, fl);
        lemma_cond_counters(left@, next_label(c), fl);
    }
    let label_right = env.new_label();
    let mut instructions = translate_conditional(left, env, false_label.clone());
    instructions.push(Instruction::Label(label_right));
    let mut r_instructions = translate_conditional(right, env, false_label);
    instructions.append(&mut r_instructions);
    proof {
        let (li, c1) = tr_cond(left@, next_label(c), fl);
        let (ri, c2) = tr_cond(right@, c1, fl);
        assert(instrs_view(instructions@) =~= li.push(SpecInstruction::Label(label_name(c.labels + 1))) + ri);
    }
    instructions
}

fn translate_cond_or(left: &CheckedExpr, right: &CheckedExpr, env: &mut Environment, false_label: String) -> (res: Vec<Instruction>)
    requires
        expr_supported(left@),
        cond_supported(right@),
        counters_fit(tr_cond(right@, tr_expr(left@, next_label(old(env)@)).2, false_label@).1),
    ensures
        ({
            let ls = label_name(old(env)@.labels + 1);
            let (la, li, c1) = tr_expr(left@, next_label(old(env)@));
            let (ri, c2) = tr_cond(right@, c1, false_label@);
            &&& instrs_view(res@) == (li.push(SpecInstruction::ConditionalJMP(la, ls)) + ri).push(SpecInstruction::Label(ls))
            &&& final(env)@ == c2
        }),
    decreases expr_size(left@) + expr_size(right@),
{
    let ghost c = env@;
    let ghost fl = false_label@;
    proof {
        lemma_cond_counters(right@, tr_expr(left@, next_label(c)).2, fl);
        lemma_expr_counters(left@, next_label(c));
    }
    let label_skip = env.new_label();
    let (l_addr, l_instructions) = translate_expression(left, env);
    let mut instructions = l_instructions;
    instructions.push(Instruction::ConditionalJMP(l_addr, label_skip.clone()));
    let mut r_instructions = translate_conditional(right, env, false_label);
    instructions.append(&mut r_instructions);
    instructions.push(Instruction::Label(label_skip));
    proof {
        let ls = label_name(c.labels + 1);
        let (la, li, c1) = tr_expr(left@, next_label(c));
        let (ri, c2) = tr_cond(right@, c1, fl);
        assert(instrs_view(instructions@) =~= (li.push(SpecInstruction::ConditionalJMP(la, ls)) + ri).push(SpecInstruction::Label(ls)));
    }
    instructions
}

/// The code of `expression` followed by a jump to `false_label`: taken when
/// the value is true if `on_true`, when it is false otherwise.
fn jump_unless(expression: &CheckedExpr, env: &mut Environment, false_label: String, on_true: bool) -> (res: Vec<Instruction>)
    requires
        expr_supported(expression@),
        counters_fit(tr_expr(expression@, old(env)@).2),
    ensures
        ({
            let (a, xi, c1) = tr_expr(expression@, old(env)@);
            &&& instrs_view(res@) == xi.push(if on_true {
                SpecInstruction::ConditionalJMP(a, false_label@)
            } else {
                SpecInstruction::ConditionalJMPFalse(a, false_label@)
            })
            &&& final(env)@ == c1
        }),
{
    let (addr, mut instructions) = translate_expression(expression, env);
    let ghost before = instructions@;
    if on_true {
        instructions.push(Instruction::ConditionalJMP(addr, false_label));
    } else {
        instructions.push(Instruction::ConditionalJMPFalse(addr, false_label));
    }
    proof {
        assert(instructions@ == before.push(instructions@.last()));
        lemma_instrs_view_push(before, instructions@.last());
    }
    instructions
}

#[verifier::spinoff_prover]
fn translate_conditional(expression: &CheckedExpr, env: &mut Environment, false_label: String) -> (res: Vec<Instruction>)
    requires
        cond_supported(expression@),
        counters_fit(tr_cond(expression@, old(env)@, false_label@).1),
    ensures
        instrs_view(res@) == tr_cond(expression@, old(env)@, false_label@).0,
        final(env)@ == tr_cond(expression@, old(env)@, false_label@).1,
    decreases expr_size(expression@),
{
    let ghost c = env@;
    let ghost fl = false_label@;
    match &expression.exp {
        Expr::Literal(Literal::Bool(true)) => Vec::new(),
        Expr::Literal(Literal::Bool(false)) => {
            let mut instructions = Vec::new();
            instructions.push(Instruction::JMP(false_label));
            assert(instrs_view(instructions@) =~= tr_cond(expression@, c, fl).0);
            instructions
        },
        Expr::Ident(name) => {
            let addr = Address::Variable(name.clone(), copy_type(&expression.ty));
            let mut instructions = Vec::new();
            instructions.push(Instruction::ConditionalJMPFalse(addr, false_label));
            assert(instrs_view(instructions@) =~= tr_cond(expression@, c, fl).0);
            instructions
        },
        Expr::And(left, right) => translate_cond_and(left, right, env, false_label),
        Expr::Or(left, right) => translate_cond_or(left, right, env, false_label),
        Expr::Not(exp) => jump_unless(exp, env, false_label, true),
        Expr::Lt(left, right) => translate_relational(left, right, Operator::LT, false_label, env),
        Expr::Le(left, right) => translate_relational(left, right, Operator::LTE, false_label, env),
        Expr::Gt(left, right) => translate_relational(left, right, Operator::GT, false_label, env),
        Expr::Ge(left, right) => translate_relational(left, right, Operator::GTE, false_label, env),
        Expr::Eq(left, right) => translate_relational(left, right, Operator::EQ, false_label, env),
        Expr::Ne(left, right) => translate_relational(left, right, Operator::NE, false_label, env),
        _ => jump_unless(expression, env, false_label, false),
    }
}

proof fn lemma_instrs_view_empty(v: Seq<Instruction>)
    requires
        v.len() == 0,
    ensures
        instrs_view(v) == Seq::<SpecInstruction>::empty(),
{
    assert(instrs_view(v) =~= Seq::<SpecInstruction>::empty());
}

fn push_instruction(code: &mut Vec<Instruction>, i: Instruction)
    ensures
        instrs_view(final(code)@) == instrs_view(old(code)@).push(i@),
{
    code.push(i);
    proof {
        lemma_instrs_view_push(old(code)@, i);
    }
}

fn append_code(code: &mut Vec<Instruction>, more: Vec<Instruction>)
    ensures
        instrs_view(final(code)@) == instrs_view(old(code)@) + instrs_view(more@),
{
    let mut more = more;
    code.append(&mut more);
    proof {
        lemma_instrs_view_concat(old(code)@, more@);
    }
}

pub open spec fn addresses_view(v: Seq<Address>) -> Seq<SpecAddress> {
    v.map_values(|a: Address| a@)
}

/// The code of a call statement: the arguments computed in order, passed by
/// `param`, then the call.
fn translate_call(name: &String, args: &Vec<CheckedExpr>, env: &mut Environment) -> (res: Vec<Instruction>)
    requires
        exprs_supported(exprs_view(args@)),
        counters_fit(tr_args(exprs_view(args@), old(env)@).2),
    ensures
        ({
            let (addrs, code, c1) = tr_args(exprs_view(args@), old(env)@);
            &&& instrs_view(res@) == (code + params_code(addrs)).push(SpecInstruction::Call(None, name@, exprs_view(args@).len() as usize))
            &&& final(env)@ == c1
        }),
{
    let ghost c = env@;
    let ghost vs = exprs_view(args@);
    proof {
        lemma_exprs_view(args@);
        assert(vs.take(0) =~= Seq::<SpecExprD<Type>>::empty());
    }
    let mut instructions: Vec<Instruction> = Vec::new();
    let mut addresses: Vec<Address> = Vec::new();
    let mut i: usize = 0;
    while i < args.len()
        invariant
            i <= args.len(),
            vs == exprs_view(args@),
            vs.len() == args@.len(),
            forall|j: int| 0 <= j < args@.len() ==> #[trigger] vs[j] == args@[j]@,
            exprs_supported(vs),
            counters_fit(tr_args(vs, c).2),
            addresses@.len() == i,
            addresses_view(addresses@) == tr_args(vs.take(i as int), c).0,
            instrs_view(instructions@) == tr_args(vs.take(i as int), c).1,
            env@ == tr_args(vs.take(i as int), c).2,
        decreases args.len() - i,
    {
        proof {
            assert(vs.take(i + 1).drop_last() =~= vs.take(i as int));
            lemma_args_prefix(vs, i + 1, c);
            assert(vs.take(i + 1).last() == vs[i as int]);
        }
        let (addr, code) = translate_expression(&args[i], env);
        append_code(&mut instructions, code);
        let ghost before = addresses@;
        addresses.push(addr);
        proof {
            assert(addresses_view(addresses@) =~= addresses_view(before).push(addresses@[i as int]@));
        }
        i = i + 1;
    }
    proof {
        assert(vs.take(args@.len() as int) =~= vs);
    }
    let ghost addrs = tr_args(vs, c).0;
    let ghost code = tr_args(vs, c).1;
    let mut k: usize = 0;
    while k < addresses.len()
        invariant
            k <= addresses.len(),
            addresses_view(addresses@) == addrs,
            instrs_view(instructions@) == code + params_code(addrs.take(k as int)),
        decreases addresses.len() - k,
    {
        proof {
            assert(params_code(addrs.take(k + 1)) =~= params_code(addrs.take(k as int)).push(SpecInstruction::Param(addrs[k as int])));
            assert(addrs[k as int] == addresses@[k as int]@);
        }
        push_instruction(&mut instructions, Instruction::Param(copy_address(&addresses[k])));
        k = k + 1;
    }
    proof {
        assert(addrs.take(addresses@.len() as int) =~= addrs);
    }
    push_instruction(&mut instructions, Instruction::Call(None, name.clone(), args.len()));
    instructions
}

/// The code of a list of statements, in order.
fn translate_block(seq: &Vec<CheckedStmt>, env: &mut Environment) -> (res: Vec<Instruction>)
    requires
        stmts_supported(stmts_view(seq@)),
        counters_fit(tr_stmts(stmts_view(seq@), old(env)@).1),
    ensures
        instrs_view(res@) == tr_stmts(stmts_view(seq@), old(env)@).0,
        final(env)@ == tr_stmts(stmts_view(seq@), old(env)@).1,
    decreases seq, 0nat,
{
    let ghost c = env@;
    let ghost vs = stmts_view(seq@);
    proof {
        lemma_stmts_view(seq@);
        assert(vs.take(0) =~= Seq::<SpecStatementD<Type>>::empty());
    }
    let mut instructions: Vec<Instruction> = Vec::new();
    let mut i: usize = 0;
    #[verifier::loop_isolation(false)]
    while i < seq.len()
        invariant
            i <= seq.len(),
            instrs_view(instructions@) == tr_stmts(vs.take(i as int), c).0,
            env@ == tr_stmts(vs.take(i as int), c).1,
        decreases seq.len() - i,
    {
        proof {
            assert(vs.take(i + 1).drop_last() =~= vs.take(i as int));
            lemma_stmts_prefix(vs, i + 1, c);
            assert(vs.take(i + 1).last() == vs[i as int]);
        }
        let code = translate_stmt(&seq[i], env);
        append_code(&mut instructions, code);
        i = i + 1;
    }
    proof {
        assert(vs.take(seq@.len() as int) =~= vs);
    }
    instructions
}

/// The code of an `if` with an `else`.
fn translate_if_else(statement: &CheckedStmt, env: &mut Environment) -> (res: Vec<Instruction>)
    requires
        statement@.stmt matches SpecStatement::If { else_branch: Some(_), .. },
        stmt_supported(statement@),
        counters_fit(tr_stmt(statement@, old(env)@).1),
    ensures
        instrs_view(res@) == tr_stmt(statement@, old(env)@).0,
        final(env)@ == tr_stmt(statement@, old(env)@).1,
    decreases statement, 0nat,
{
    let ghost c = env@;
    match &statement.stmt {
        Statement::If { cond, then_branch, else_branch: Some(else_body) } => {
            let ghost le = label_name(c.labels + 1);
            let ghost c0 = next_label(next_label(c));
            proof {
                lemma_cond_counters(cond@, c0, le);
                let c1 = tr_cond(cond@, c0, le).1;
                lemma_stmt_counters(then_branch@, c1);
                lemma_stmt_counters(else_body@, tr_stmt(then_branch@, c1).1);
            }
            let label_else = env.new_label();
            let label_end = env.new_label();
            let mut instructions = translate_conditional(cond, env, label_else.clone());
            append_code(&mut instructions, translate_stmt(then_branch, env));
            push_instruction(&mut instructions, Instruction::JMP(label_end.clone()));
            push_instruction(&mut instructions, Instruction::Label(label_else));
            append_code(&mut instructions, translate_stmt(else_body, env));
            push_instruction(&mut instructions, Instruction::Label(label_end));
            instructions
        },
        _ => vstd::pervasive::unreached(),
    }
}

/// The code of an `if` without `else`.
fn translate_if(statement: &CheckedStmt, env: &mut Environment) -> (res: Vec<Instruction>)
    requires
        statement@.stmt matches SpecStatement::If { else_branch: None, .. },
        stmt_supported(statement@),
        counters_fit(tr_stmt(statement@, old(env)@).1),
    ensures
        instrs_view(res@) == tr_stmt(statement@, old(env)@).0,
        final(env)@ == tr_stmt(statement@, old(env)@).1,
    decreases statement, 0nat,
{
    let ghost c = env@;
    match &statement.stmt {
        Statement::If { cond, then_branch, else_branch: None } => {
            let ghost lend = label_name(c.labels + 1);
            proof {
                lemma_cond_counters(cond@, next_label(c), lend);
                lemma_stmt_counters(then_branch@, tr_cond(cond@, next_label(c), lend).1);
            }
            let label_end = env.new_label();
            let mut instructions = translate_conditional(cond, env, label_end.clone());
            append_code(&mut instructions, translate_stmt(then_branch, env));
            push_instruction(&mut instructions, Instruction::Label(label_end));
            instructions
        },
        _ => vstd::pervasive::unreached(),
    }
}

/// The code of a `while` loop.
fn translate_while(statement: &CheckedStmt, env: &mut Environment) -> (res: Vec<Instruction>)
    requires
        statement@.stmt is While,
        stmt_supported(statement@),
        counters_fit(tr_stmt(statement@, old(env)@).1),
    ensures
        instrs_view(res@) == tr_stmt(statement@, old(env)@).0,
        final(env)@ == tr_stmt(statement@, old(env)@).1,
    decreases statement, 0nat,
{
    let ghost c = env@;
    match &statement.stmt {
        Statement::While { cond, body } => {
            let ghost le = label_name(c.labels + 2);
            let ghost c0 = next_label(next_label(c));
            proof {
                lemma_cond_counters(cond@, c0, le);
                lemma_stmt_counters(body@, tr_cond(cond@, c0, le).1);
            }
            let label_test = env.new_label();
            let label_end = env.new_label();
            let mut instructions: Vec<Instruction> = Vec::new();
            proof {
                lemma_instrs_view_empty(instructions@);
            }
            push_instruction(&mut instructions, Instruction::Label(label_test.clone()));
            append_code(&mut instructions, translate_conditional(cond, env, label_end.clone()));
            append_code(&mut instructions, translate_stmt(body, env));
            push_instruction(&mut instructions, Instruction::JMP(label_test));
            push_instruction(&mut instructions, Instruction::Label(label_end));
            instructions
        },
        _ => vstd::pervasive::unreached(),
    }
}

/// The code of a `for` loop.
fn translate_for(statement: &CheckedStmt, env: &mut Environment) -> (res: Vec<Instruction>)
    requires
        statement@.stmt is For,
        stmt_supported(statement@),
        counters_fit(tr_stmt(statement@, old(env)@).1),
    ensures
        instrs_view(res@) == tr_stmt(statement@, old(env)@).0,
        final(env)@ == tr_stmt(statement@, old(env)@).1,
    decreases statement, 0nat,
{
    let ghost c = env@;
    match &statement.stmt {
        Statement::For { init, cond, update, body } => {
            let ghost lt = label_name(c.labels + 1);
            let ghost le = label_name(c.labels + 2);
            let ghost c0 = next_label(next_label(c));
            let ghost (ii, c1) = tr_opt_stmt(opt_stmt_view(*init), c0);
            let ghost head = ii.push(SpecInstruction::Label(lt));
            let ghost (hc, c2) = match opt_expr_view(*cond) {
                Some(x) => (head + tr_cond(*x, c1, le).0, tr_cond(*x, c1, le).1),
                None => (head, c1),
            };
            let ghost (bi, c3) = tr_stmt(body@, c2);
            let ghost (ui, c4) = tr_opt_stmt(opt_stmt_view(*update), c3);
            proof {
                assert(tr_stmt(statement@, c) == ((hc + bi + ui).push(SpecInstruction::JMP(lt)).push(SpecInstruction::Label(le)), c4));
                lemma_opt_stmt_counters(opt_stmt_view(*init), c0);
                match opt_expr_view(*cond) {
                    Some(x) => lemma_cond_counters(*x, c1, le),
                    None => {},
                }
                lemma_stmt_counters(body@, c2);
                lemma_opt_stmt_counters(opt_stmt_view(*update), c3);
            }
            let label_test = env.new_label();
            let label_end = env.new_label();
            let mut instructions = match init {
                Some(init_stmt) => translate_stmt(init_stmt, env),
                None => {
                    let v: Vec<Instruction> = Vec::new();
                    proof {
                        lemma_instrs_view_empty(v@);
                    }
                    v
                },
            };
            assert(instrs_view(instructions@) == ii && env@ == c1);
            push_instruction(&mut instructions, Instruction::Label(label_test.clone()));
            if let Some(x) = cond {
                append_code(&mut instructions, translate_conditional(x, env, label_end.clone()));
            }
            assert(instrs_view(instructions@) == hc && env@ == c2);
            append_code(&mut instructions, translate_stmt(body, env));
            if let Some(update_stmt) = update {
                append_code(&mut instructions, translate_stmt(update_stmt, env));
            } else {
                proof {
                    assert(instrs_view(instructions@) + Seq::<SpecInstruction>::empty() =~= instrs_view(instructions@));
                }
            }
            assert(instrs_view(instructions@) == hc + bi + ui && env@ == c4);
            push_instruction(&mut instructions, Instruction::JMP(label_test));
            push_instruction(&mut instructions, Instruction::Label(label_end));
            instructions
        },
        _ => vstd::pervasive::unreached(),
    }
}

#[verifier::spinoff_prover]
fn translate_stmt(statement: &CheckedStmt, env: &mut Environment) -> (res: Vec<Instruction>)
    requires
        stmt_supported(statement@),
        counters_fit(tr_stmt(statement@, old(env)@).1),
    ensures
        instrs_view(res@) == tr_stmt(statement@, old(env)@).0,
        final(env)@ == tr_stmt(statement@, old(env)@).1,
    decreases statement, 1nat,
{
    match &statement.stmt {
        Statement::Block { seq } => translate_block(seq, env),
        Statement::Decl { name, ty, init } => {
            let var_address = Address::Variable(name.clone(), copy_type(ty));
            let (expression_address, instructions) = translate_expression(init, env);
            let mut res = instructions;
            push_instruction(&mut res, Instruction::CopyAssignment(var_address, expression_address));
            res
        },
        Statement::Assign { target, value } => {
            if let Expr::Ident(name) = &target.exp {
                let var_address = Address::Variable(name.clone(), copy_type(&target.ty));
                let (expression_address, instructions) = translate_expression(value, env);
                let mut res = instructions;
                push_instruction(&mut res, Instruction::CopyAssignment(var_address, expression_address));
                res
            } else {
                vstd::pervasive::unreached()
            }
        },
        Statement::Call { name, args } => translate_call(name, args, env),
        Statement::If { else_branch: Some(_), .. } => translate_if_else(statement, env),
        Statement::If { else_branch: None, .. } => translate_if(statement, env),
        Statement::While { .. } => translate_while(statement, env),
        Statement::For { .. } => translate_for(statement, env),
        Statement::Return(expr) => match expr {
            None => {
                let mut instructions: Vec<Instruction> = Vec::new();
                proof {
                    lemma_instrs_view_empty(instructions@);
                }
                push_instruction(&mut instructions, Instruction::Return(None));
                assert(instrs_view(instructions@) =~= seq![SpecInstruction::Return(None)]);
                instructions
            },
            Some(e) => {
                let (addr, instructions) = translate_expression(e, env);
                let mut instructions = instructions;
                push_instruction(&mut instructions, Instruction::Return(Some(addr)));
                instructions
            },
        },
    }
}

/// Translates a statement, numbering the labels and temporaries it makes
/// after those already counted in `env`.
pub fn translate_statement(statement: CheckedStmt, env: &mut Environment) -> (res: Vec<Instruction>)
    requires
        stmt_supported(statement@),
        counters_fit(tr_stmt(statement@, old(env)@).1),
    ensures
        instrs_view(res@) == tr_stmt(statement@, old(env)@).0,
        final(env)@ == tr_stmt(statement@, old(env)@).1,
{
    translate_stmt(&statement, env)
}

/// The body of the first function named `main`.
pub open spec fn main_body(p: SpecProgram<Type>) -> SpecStatementD<Type> {
    p.functions[first_main(p.functions).unwrap()].body
}

/// A function translated: its name as a label, then its body.
pub open spec fn tr_function(f: SpecFunDecl<Type>, c: Counters) -> (Seq<SpecInstruction>, Counters) {
    (seq![SpecInstruction::Label(f.name)] + tr_stmt(f.body, c).0, tr_stmt(f.body, c).1)
}

fn translate_function(function: &CheckedFunDecl, env: &mut Environment) -> (res: TACProgram)
    requires
        stmt_supported(function@.body),
        counters_fit(tr_stmt(function@.body, old(env)@).1),
    ensures
        instrs_view(res@) == tr_function(function@, old(env)@).0,
        final(env)@ == tr_function(function@, old(env)@).1,
{
    let mut instructions = if let Statement::Block { seq: stmts } = &function.body.stmt {
        translate_block(stmts, env)
    } else {
        translate_stmt(&function.body, env)
    };
    let ghost body_code = instructions@;
    instructions.insert(0, Instruction::Label(function.name.clone()));
    proof {
        assert(instrs_view(instructions@) =~= seq![SpecInstruction::Label(function@.name)] + instrs_view(body_code));
    }
    instructions
}

/// Translates the `main` function of a checked program.
pub fn translate_program(program: CheckedProgram) -> (res: TACProgram)
    requires
        first_main(program@.functions) is Some,
        stmt_supported(main_body(program@)),
        counters_fit(tr_stmt(main_body(program@), Counters { labels: 0, temps: 0 }).1),
    ensures
        instrs_view(res@) == seq![SpecInstruction::Label("main"@)] + tr_stmt(main_body(program@), Counters { labels: 0, temps: 0 }).0,
{
    let mut env = Environment::new();
    let main_fn = program.main_function();
    match main_fn {
        None => vstd::pervasive::unreached(),
        Some(f) => {
            proof {
                lemma_first_main(program@.functions);
            }
            translate_function(f, &mut env)
        },
    }
}


// ---------------------------------------------------------------------------
// Which programs the generator translates
// ---------------------------------------------------------------------------

/// Whether the generator translates the expression `e` as a value.
pub fn expression_supported(e: &CheckedExpr) -> (r: bool)
    ensures
        r == expr_supported(e@),
    decreases e,
{
    match &e.exp {
        Expr::Literal(_) => true,
        Expr::Ident(_) => true,
        Expr::Neg(a) => expression_supported(a),
        Expr::Not(a) => expression_supported(a),
        Expr::Add(a, b) => expression_supported(a) && expression_supported(b),
        Expr::Sub(a, b) => expression_supported(a) && expression_supported(b),
        Expr::Mul(a, b) => expression_supported(a) && expression_supported(b),
        Expr::Div(a, b) => expression_supported(a) && expression_supported(b),
        Expr::And(a, b) => expression_supported(a) && expression_supported(b),
        Expr::Or(a, b) => expression_supported(a) && expression_supported(b),
        _ => false,
    }
}

/// Whether the generator translates the expression `e` as a condition.
pub fn condition_supported(e: &CheckedExpr) -> (r: bool)
    ensures
        r == cond_supported(e@),
    decreases e,
{
    match &e.exp {
        Expr::Literal(_) => true,
        Expr::Ident(_) => true,
        Expr::And(a, b) => condition_supported(a) && condition_supported(b),
        Expr::Or(a, b) => expression_supported(a) && condition_supported(b),
        Expr::Not(a) => expression_supported(a),
        Expr::Lt(a, b) => expression_supported(a) && expression_supported(b),
        Expr::Le(a, b) => expression_supported(a) && expression_supported(b),
        Expr::Gt(a, b) => expression_supported(a) && expression_supported(b),
        Expr::Ge(a, b) => expression_supported(a) && expression_supported(b),
        Expr::Eq(a, b) => expression_supported(a) && expression_supported(b),
        Expr::Ne(a, b) => expression_supported(a) && expression_supported(b),
        _ => expression_supported(e),
    }
}

fn expressions_supported(es: &Vec<CheckedExpr>) -> (r: bool)
    ensures
        r == exprs_supported(exprs_view(es@)),
{
    let ghost vs = exprs_view(es@);
    proof {
        lemma_exprs_view(es@);
        assert(vs.take(0) =~= Seq::<SpecExprD<Type>>::empty());
    }
    let mut ok = true;
    let mut i: usize = 0;
    while i < es.len()
        invariant
            i <= es.len(),
            vs == exprs_view(es@),
            vs.len() == es.len(),
            forall|k: int| 0 <= k < es.len() ==> #[trigger] vs[k] == es@[k]@,
            ok == exprs_supported(vs.take(i as int)),
        decreases es.len() - i,
    {
        proof {
            assert(vs.take(i + 1).drop_last() =~= vs.take(i as int));
            assert(vs.take(i + 1).last() == vs[i as int]);
        }
        let b = expression_supported(&es[i]);
        ok = ok && b;
        i = i + 1;
    }
    proof {
        assert(vs.take(es@.len() as int) =~= vs);
    }
    ok
}

fn statements_supported(seq: &Vec<CheckedStmt>) -> (r: bool)
    ensures
        r == stmts_supported(stmts_view(seq@)),
    decreases seq, 0nat,
{
    let ghost vs = stmts_view(seq@);
    proof {
        lemma_stmts_view(seq@);
        assert(vs.take(0) =~= Seq::<SpecStatementD<Type>>::empty());
    }
    let mut ok = true;
    let mut i: usize = 0;
    #[verifier::loop_isolation(false)]
    while i < seq.len()
        invariant
            i <= seq.len(),
            ok == stmts_supported(vs.take(i as int)),
        decreases seq.len() - i,
    {
        proof {
            assert(vs.take(i + 1).drop_last() =~= vs.take(i as int));
            assert(vs.take(i + 1).last() == vs[i as int]);
        }
        let b = statement_supported(&seq[i]);
        ok = ok && b;
        i = i + 1;
    }
    proof {
        assert(vs.take(seq@.len() as int) =~= vs);
    }
    ok
}

/// Whether the generator translates the statement `s`: the condition under
/// which `translate_statement` may be called on it.
pub fn statement_supported(s: &CheckedStmt) -> (r: bool)
    ensures
        r == stmt_supported(s@),
    decreases s, 1nat,
{
    match &s.stmt {
        Statement::Decl { init, .. } => expression_supported(init),
        Statement::Assign { target, value } => {
            let ident = match &target.exp {
                Expr::Ident(_) => true,
                _ => false,
            };
            ident && expression_supported(value)
        },
        Statement::Block { seq } => statements_supported(seq),
        Statement::Call { args, .. } => expressions_supported(args),
        Statement::If { cond, then_branch, else_branch } => {
            let e = match else_branch {
                Some(x) => statement_supported(x),
                None => true,
            };
            condition_supported(cond) && statement_supported(then_branch) && e
        },
        Statement::While { cond, body } => condition_supported(cond) && statement_supported(body),
        Statement::For { init, cond, update, body } => {
            let i = match init {
                Some(x) => statement_supported(x),
                None => true,
            };
            let c = match cond {
                Some(x) => condition_supported(x),
                None => true,
            };
            let u = match update {
                Some(x) => statement_supported(x),
                None => true,
            };
            i && c && u && statement_supported(body)
        },
        Statement::Return(e) => match e {
            Some(x) => expression_supported(x),
            None => true,
        },
    }
}

/// Whether `translate_program` accepts `program` as far as its shape goes:
/// it has a function named `main`, and the generator translates the body of
/// the first one.
pub fn program_supported(program: &CheckedProgram) -> (r: bool)
    ensures
        r == (first_main(program@.functions) is Some && stmt_supported(main_body(program@))),
{
    match program.main_function() {
        None => false,
        Some(f) => statement_supported(&f.body),
    }
}

} // verus!
