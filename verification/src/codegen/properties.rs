//! What holds of all code the generator emits.

use vstd::prelude::*;
use crate::codegen::tac_code_gen::{
    bool_constant, negated, temp_name, cond_supported, expr_supported, exprs_supported, label_name, next_label, params_code,
    stmt_supported, stmts_supported, tr_args, tr_cond, tr_expr, tr_opt_stmt, tr_stmt, tr_stmts,
    Counters,
};
use crate::ir::ast::{SpecExpr, SpecExprD, SpecLiteral, SpecStatement, SpecStatementD, Type};
use crate::ir::tac::{Operator, SpecAddress, SpecInstruction};

verus! {

/// The label an instruction jumps to, if it jumps.
pub open spec fn jump_target(i: SpecInstruction) -> Option<Seq<char>> {
    match i {
        SpecInstruction::JMP(l) => Some(l),
        SpecInstruction::ConditionalJMP(_, l) => Some(l),
        SpecInstruction::ConditionalJMPFalse(_, l) => Some(l),
        SpecInstruction::ConditionalJMPRelational(_, _, _, l) => Some(l),
        _ => None,
    }
}

/// The label an instruction defines, if it is a label.
pub open spec fn label_of(i: SpecInstruction) -> Option<Seq<char>> {
    match i {
        SpecInstruction::Label(l) => Some(l),
        _ => None,
    }
}

/// The labels that `code` defines.
pub open spec fn defined_labels(code: Seq<SpecInstruction>) -> Set<Seq<char>> {
    Set::new(|l: Seq<char>| exists|k: int| 0 <= k < code.len() && #[trigger] label_of(code[k]) == Some(l))
}

/// The labels that `code` jumps to.
pub open spec fn jump_targets(code: Seq<SpecInstruction>) -> Set<Seq<char>> {
    Set::new(|l: Seq<char>| exists|k: int| 0 <= k < code.len() && #[trigger] jump_target(code[k]) == Some(l))
}

proof fn lemma_concat(a: Seq<SpecInstruction>, b: Seq<SpecInstruction>)
    ensures
        defined_labels(a + b) == defined_labels(a).union(defined_labels(b)),
        jump_targets(a + b) == jump_targets(a).union(jump_targets(b)),
{
    let ab = a + b;
    assert forall|l: Seq<char>| #[trigger] defined_labels(ab).contains(l) <==> (defined_labels(a).contains(l) || defined_labels(b).contains(l)) by {
        if defined_labels(ab).contains(l) {
            let k = choose|k: int| 0 <= k < ab.len() && #[trigger] label_of(ab[k]) == Some(l);
            if k < a.len() {
                assert(ab[k] == a[k]);
            } else {
                assert(ab[k] == b[k - a.len()]);
            }
        }
        if defined_labels(a).contains(l) {
            let k = choose|k: int| 0 <= k < a.len() && #[trigger] label_of(a[k]) == Some(l);
            assert(ab[k] == a[k]);
        }
        if defined_labels(b).contains(l) {
            let k = choose|k: int| 0 <= k < b.len() && #[trigger] label_of(b[k]) == Some(l);
            assert(ab[k + a.len()] == b[k]);
        }
    }
    assert forall|l: Seq<char>| #[trigger] jump_targets(ab).contains(l) <==> (jump_targets(a).contains(l) || jump_targets(b).contains(l)) by {
        if jump_targets(ab).contains(l) {
            let k = choose|k: int| 0 <= k < ab.len() && #[trigger] jump_target(ab[k]) == Some(l);
            if k < a.len() {
                assert(ab[k] == a[k]);
            } else {
                assert(ab[k] == b[k - a.len()]);
            }
        }
        if jump_targets(a).contains(l) {
            let k = choose|k: int| 0 <= k < a.len() && #[trigger] jump_target(a[k]) == Some(l);
            assert(ab[k] == a[k]);
        }
        if jump_targets(b).contains(l) {
            let k = choose|k: int| 0 <= k < b.len() && #[trigger] jump_target(b[k]) == Some(l);
            assert(ab[k + a.len()] == b[k]);
        }
    }
    assert(defined_labels(ab) =~= defined_labels(a).union(defined_labels(b)));
    assert(jump_targets(ab) =~= jump_targets(a).union(jump_targets(b)));
}

/// The set holding `o`'s label, if any.
pub open spec fn opt_set(o: Option<Seq<char>>) -> Set<Seq<char>> {
    match o {
        Some(l) => Set::empty().insert(l),
        None => Set::empty(),
    }
}

pub broadcast proof fn lemma_labels_concat(a: Seq<SpecInstruction>, b: Seq<SpecInstruction>)
    ensures
        #[trigger] defined_labels(a + b) == defined_labels(a).union(defined_labels(b)),
{
    lemma_concat(a, b);
}

pub broadcast proof fn lemma_targets_concat(a: Seq<SpecInstruction>, b: Seq<SpecInstruction>)
    ensures
        #[trigger] jump_targets(a + b) == jump_targets(a).union(jump_targets(b)),
{
    lemma_concat(a, b);
}

proof fn lemma_push(a: Seq<SpecInstruction>, x: SpecInstruction)
    ensures
        defined_labels(a.push(x)) == defined_labels(a).union(opt_set(label_of(x))),
        jump_targets(a.push(x)) == jump_targets(a).union(opt_set(jump_target(x))),
{
    let ax = a.push(x);
    assert forall|l: Seq<char>| #[trigger] defined_labels(ax).contains(l) <==> (defined_labels(a).contains(l) || opt_set(label_of(x)).contains(l)) by {
        if defined_labels(ax).contains(l) {
            let k = choose|k: int| 0 <= k < ax.len() && #[trigger] label_of(ax[k]) == Some(l);
            if k < a.len() {
                assert(ax[k] == a[k]);
            }
        }
        if defined_labels(a).contains(l) {
            let k = choose|k: int| 0 <= k < a.len() && #[trigger] label_of(a[k]) == Some(l);
            assert(ax[k] == a[k]);
        }
        if opt_set(label_of(x)).contains(l) {
            assert(label_of(ax[a.len() as int]) == Some(l));
        }
    }
    assert forall|l: Seq<char>| #[trigger] jump_targets(ax).contains(l) <==> (jump_targets(a).contains(l) || opt_set(jump_target(x)).contains(l)) by {
        if jump_targets(ax).contains(l) {
            let k = choose|k: int| 0 <= k < ax.len() && #[trigger] jump_target(ax[k]) == Some(l);
            if k < a.len() {
                assert(ax[k] == a[k]);
            }
        }
        if jump_targets(a).contains(l) {
            let k = choose|k: int| 0 <= k < a.len() && #[trigger] jump_target(a[k]) == Some(l);
            assert(ax[k] == a[k]);
        }
        if opt_set(jump_target(x)).contains(l) {
            assert(jump_target(ax[a.len() as int]) == Some(l));
        }
    }
    assert(defined_labels(ax) =~= defined_labels(a).union(opt_set(label_of(x))));
    assert(jump_targets(ax) =~= jump_targets(a).union(opt_set(jump_target(x))));
}

pub broadcast proof fn lemma_labels_push(a: Seq<SpecInstruction>, x: SpecInstruction)
    ensures
        #[trigger] defined_labels(a.push(x)) == defined_labels(a).union(opt_set(label_of(x))),
{
    lemma_push(a, x);
}

pub broadcast proof fn lemma_targets_push(a: Seq<SpecInstruction>, x: SpecInstruction)
    ensures
        #[trigger] jump_targets(a.push(x)) == jump_targets(a).union(opt_set(jump_target(x))),
{
    lemma_push(a, x);
}

pub broadcast proof fn lemma_labels_empty()
    ensures
        #[trigger] defined_labels(Seq::<SpecInstruction>::empty()) == Set::<Seq<char>>::empty(),
{
    assert(defined_labels(Seq::<SpecInstruction>::empty()) =~= Set::<Seq<char>>::empty());
}

pub broadcast proof fn lemma_targets_empty()
    ensures
        #[trigger] jump_targets(Seq::<SpecInstruction>::empty()) == Set::<Seq<char>>::empty(),
{
    assert(jump_targets(Seq::<SpecInstruction>::empty()) =~= Set::<Seq<char>>::empty());
}

pub broadcast group group_code_sets {
    lemma_labels_concat,
    lemma_targets_concat,
    lemma_labels_push,
    lemma_targets_push,
    lemma_labels_empty,
    lemma_targets_empty,
}

// ---------------------------------------------------------------------------
// Every jump lands on a label of the same code
// ---------------------------------------------------------------------------

/// `code` jumps only to labels it defines, or to one of `outside`.
pub open spec fn jumps_within(code: Seq<SpecInstruction>, outside: Set<Seq<char>>) -> bool {
    jump_targets(code).subset_of(defined_labels(code).union(outside))
}

proof fn lemma_not_shape(xi: Seq<SpecInstruction>, a: SpecAddress, t: SpecAddress, lf: Seq<char>, lx: Seq<char>, f: SpecAddress, tr: SpecAddress)
    requires
        jumps_within(xi, Set::empty()),
    ensures
        jumps_within(xi.push(SpecInstruction::ConditionalJMPFalse(a, lf)).push(SpecInstruction::CopyAssignment(t, f)).push(SpecInstruction::JMP(lx)).push(SpecInstruction::Label(lf)).push(SpecInstruction::CopyAssignment(t, tr)).push(SpecInstruction::Label(lx)), Set::empty()),
{
    broadcast use group_code_sets;
    let code = xi.push(SpecInstruction::ConditionalJMPFalse(a, lf)).push(SpecInstruction::CopyAssignment(t, f)).push(SpecInstruction::JMP(lx)).push(SpecInstruction::Label(lf)).push(SpecInstruction::CopyAssignment(t, tr)).push(SpecInstruction::Label(lx));
    assert(jump_targets(code).subset_of(defined_labels(code).union(Set::empty())));
}

proof fn lemma_or_shape(li: Seq<SpecInstruction>, ri: Seq<SpecInstruction>, la: SpecAddress, ra: SpecAddress, t: SpecAddress, lt: Seq<char>, lf: Seq<char>, lx: Seq<char>, f: SpecAddress, tr: SpecAddress)
    requires
        jumps_within(li, Set::empty()),
        jumps_within(ri, Set::empty()),
    ensures
        jumps_within((li.push(SpecInstruction::ConditionalJMPFalse(la, lf)).push(SpecInstruction::JMP(lt)).push(SpecInstruction::Label(lf)) + ri).push(SpecInstruction::ConditionalJMP(ra, lt)).push(SpecInstruction::CopyAssignment(t, f)).push(SpecInstruction::JMP(lx)).push(SpecInstruction::Label(lt)).push(SpecInstruction::CopyAssignment(t, tr)).push(SpecInstruction::Label(lx)), Set::empty()),
{
    broadcast use group_code_sets;
}

proof fn lemma_and_shape(li: Seq<SpecInstruction>, ri: Seq<SpecInstruction>, la: SpecAddress, ra: SpecAddress, t: SpecAddress, lf: Seq<char>, lx: Seq<char>, f: SpecAddress, tr: SpecAddress)
    requires
        jumps_within(li, Set::empty()),
        jumps_within(ri, Set::empty()),
    ensures
        jumps_within((li.push(SpecInstruction::ConditionalJMPFalse(la, lf)) + ri).push(SpecInstruction::ConditionalJMPFalse(ra, lf)).push(SpecInstruction::CopyAssignment(t, tr)).push(SpecInstruction::JMP(lx)).push(SpecInstruction::Label(lf)).push(SpecInstruction::CopyAssignment(t, f)).push(SpecInstruction::Label(lx)), Set::empty()),
{
    broadcast use group_code_sets;
}

/// Code followed by an instruction that neither jumps nor defines a label.
proof fn lemma_plain_shape(a: Seq<SpecInstruction>, b: Seq<SpecInstruction>, x: SpecInstruction, outside: Set<Seq<char>>)
    requires
        jumps_within(a, outside),
        jumps_within(b, outside),
        jump_target(x) is None,
    ensures
        jumps_within((a + b).push(x), outside),
        jumps_within(a.push(x), outside),
{
    broadcast use group_code_sets;
}

proof fn lemma_expr_jumps(e: SpecExprD<Type>, c: Counters)
    requires
        expr_supported(e),
    ensures
        jumps_within(tr_expr(e, c).1, Set::empty()),
    decreases e,
{
    broadcast use lemma_labels_empty, lemma_targets_empty;
    match e.exp {
        SpecExpr::Not(x) => {
            lemma_expr_jumps(*x, c);
            let (a, xi, c1) = tr_expr(*x, c);
            lemma_not_shape(xi, a, SpecAddress::Temporary(temp_name(c1.temps + 1), Type::Bool), label_name(c1.labels + 1), label_name(c1.labels + 2), bool_constant(false), bool_constant(true));
        },
        SpecExpr::Neg(x) => {
            lemma_expr_jumps(*x, c);
            let (a, xi, c1) = tr_expr(*x, c);
            lemma_plain_shape(xi, Seq::empty(), SpecInstruction::UnaryAssignment(Operator::Neg, SpecAddress::Temporary(temp_name(c1.temps + 1), e.ty), a), Set::empty());
        },
        SpecExpr::Or(l, r) => {
            lemma_expr_jumps(*l, c);
            let (la, li, c1) = tr_expr(*l, c);
            lemma_expr_jumps(*r, c1);
            let (ra, ri, c2) = tr_expr(*r, c1);
            lemma_or_shape(li, ri, la, ra, SpecAddress::Temporary(temp_name(c2.temps + 1), Type::Bool), label_name(c2.labels + 1), label_name(c2.labels + 2), label_name(c2.labels + 3), bool_constant(false), bool_constant(true));
        },
        SpecExpr::And(l, r) => {
            lemma_expr_jumps(*l, c);
            let (la, li, c1) = tr_expr(*l, c);
            lemma_expr_jumps(*r, c1);
            let (ra, ri, c2) = tr_expr(*r, c1);
            lemma_and_shape(li, ri, la, ra, SpecAddress::Temporary(temp_name(c2.temps + 1), Type::Bool), label_name(c2.labels + 1), label_name(c2.labels + 2), bool_constant(false), bool_constant(true));
        },
        SpecExpr::Add(l, r) | SpecExpr::Sub(l, r) | SpecExpr::Mul(l, r) | SpecExpr::Div(l, r) => {
            lemma_expr_jumps(*l, c);
            let (la, li, c1) = tr_expr(*l, c);
            lemma_expr_jumps(*r, c1);
            let (ra, ri, c2) = tr_expr(*r, c1);
            let op = match e.exp {
                SpecExpr::Add(..) => Operator::Add,
                SpecExpr::Sub(..) => Operator::Sub,
                SpecExpr::Mul(..) => Operator::Mul,
                _ => Operator::Div,
            };
            lemma_plain_shape(li, ri, SpecInstruction::BinaryAssignment(op, SpecAddress::Temporary(temp_name(c2.temps + 1), e.ty), la, ra), Set::empty());
        },
        _ => {},
    }
}

proof fn lemma_jump_out_shape(a: Seq<SpecInstruction>, b: Seq<SpecInstruction>, x: SpecInstruction, fl: Seq<char>)
    requires
        jumps_within(a, Set::empty()),
        jumps_within(b, Set::empty()),
        jump_target(x) == Some(fl),
    ensures
        jumps_within((a + b).push(x), Set::empty().insert(fl)),
        jumps_within(a.push(x), Set::empty().insert(fl)),
{
    broadcast use group_code_sets;
}

proof fn lemma_cond_and_shape(li: Seq<SpecInstruction>, ri: Seq<SpecInstruction>, lr: Seq<char>, fl: Seq<char>)
    requires
        jumps_within(li, Set::empty().insert(fl)),
        jumps_within(ri, Set::empty().insert(fl)),
    ensures
        jumps_within(li.push(SpecInstruction::Label(lr)) + ri, Set::empty().insert(fl)),
{
    broadcast use group_code_sets;
}

proof fn lemma_cond_or_shape(li: Seq<SpecInstruction>, ri: Seq<SpecInstruction>, la: SpecAddress, ls: Seq<char>, fl: Seq<char>)
    requires
        jumps_within(li, Set::empty()),
        jumps_within(ri, Set::empty().insert(fl)),
    ensures
        jumps_within((li.push(SpecInstruction::ConditionalJMP(la, ls)) + ri).push(SpecInstruction::Label(ls)), Set::empty().insert(fl)),
{
    broadcast use group_code_sets;
}

proof fn lemma_single_jump(x: SpecInstruction, fl: Seq<char>)
    requires
        jump_target(x) == Some(fl),
    ensures
        jumps_within(seq![x], Set::empty().insert(fl)),
{
    broadcast use group_code_sets;
}

proof fn lemma_cond_jumps(e: SpecExprD<Type>, c: Counters, fl: Seq<char>)
    requires
        cond_supported(e),
    ensures
        jumps_within(tr_cond(e, c, fl).0, Set::empty().insert(fl)),
    decreases e,
{
    broadcast use lemma_labels_empty, lemma_targets_empty;
    match e.exp {
        SpecExpr::Literal(l) => {
            if l == SpecLiteral::Bool(false) {
                lemma_single_jump(SpecInstruction::JMP(fl), fl);
            }
        },
        SpecExpr::Ident(n) => {
            lemma_single_jump(SpecInstruction::ConditionalJMPFalse(SpecAddress::Variable(n, e.ty), fl), fl);
        },
        SpecExpr::And(l, r) => {
            lemma_cond_jumps(*l, next_label(c), fl);
            let (li, c1) = tr_cond(*l, next_label(c), fl);
            lemma_cond_jumps(*r, c1, fl);
            let (ri, c2) = tr_cond(*r, c1, fl);
            lemma_cond_and_shape(li, ri, label_name(c.labels + 1), fl);
        },
        SpecExpr::Or(l, r) => {
            lemma_expr_jumps(*l, next_label(c));
            let (la, li, c1) = tr_expr(*l, next_label(c));
            lemma_cond_jumps(*r, c1, fl);
            let (ri, c2) = tr_cond(*r, c1, fl);
            lemma_cond_or_shape(li, ri, la, label_name(c.labels + 1), fl);
        },
        SpecExpr::Not(x) => {
            lemma_expr_jumps(*x, c);
            let (a, xi, c1) = tr_expr(*x, c);
            lemma_jump_out_shape(xi, Seq::empty(), SpecInstruction::ConditionalJMP(a, fl), fl);
        },
        SpecExpr::Lt(l, r) | SpecExpr::Le(l, r) | SpecExpr::Gt(l, r) | SpecExpr::Ge(l, r)
        | SpecExpr::Eq(l, r) | SpecExpr::Ne(l, r) => {
            lemma_expr_jumps(*l, c);
            let (la, li, c1) = tr_expr(*l, c);
            lemma_expr_jumps(*r, c1);
            let (ra, ri, c2) = tr_expr(*r, c1);
            let op = match e.exp {
                SpecExpr::Lt(..) => Operator::LT,
                SpecExpr::Le(..) => Operator::LTE,
                SpecExpr::Gt(..) => Operator::GT,
                SpecExpr::Ge(..) => Operator::GTE,
                SpecExpr::Eq(..) => Operator::EQ,
                _ => Operator::NE,
            };
            lemma_jump_out_shape(li, ri, SpecInstruction::ConditionalJMPRelational(negated(op), la, ra, fl), fl);
        },
        _ => {
            lemma_expr_jumps(e, c);
            let (a, xi, c1) = tr_expr(e, c);
            lemma_jump_out_shape(xi, Seq::empty(), SpecInstruction::ConditionalJMPFalse(a, fl), fl);
        },
    }
}

proof fn lemma_concat_shape(a: Seq<SpecInstruction>, b: Seq<SpecInstruction>)
    requires
        jumps_within(a, Set::empty()),
        jumps_within(b, Set::empty()),
    ensures
        jumps_within(a + b, Set::empty()),
{
    broadcast use group_code_sets;
}

proof fn lemma_if_else_shape(ci: Seq<SpecInstruction>, ti: Seq<SpecInstruction>, ei: Seq<SpecInstruction>, le: Seq<char>, lend: Seq<char>)
    requires
        jumps_within(ci, Set::empty().insert(le)),
        jumps_within(ti, Set::empty()),
        jumps_within(ei, Set::empty()),
    ensures
        jumps_within(((ci + ti).push(SpecInstruction::JMP(lend)).push(SpecInstruction::Label(le)) + ei).push(SpecInstruction::Label(lend)), Set::empty()),
{
    broadcast use group_code_sets;
}

proof fn lemma_if_shape(ci: Seq<SpecInstruction>, ti: Seq<SpecInstruction>, lend: Seq<char>)
    requires
        jumps_within(ci, Set::empty().insert(lend)),
        jumps_within(ti, Set::empty()),
    ensures
        jumps_within((ci + ti).push(SpecInstruction::Label(lend)), Set::empty()),
{
    broadcast use group_code_sets;
}

proof fn lemma_while_shape(ci: Seq<SpecInstruction>, bi: Seq<SpecInstruction>, lt: Seq<char>, le: Seq<char>)
    requires
        jumps_within(ci, Set::empty().insert(le)),
        jumps_within(bi, Set::empty()),
    ensures
        jumps_within((seq![SpecInstruction::Label(lt)] + ci + bi).push(SpecInstruction::JMP(lt)).push(SpecInstruction::Label(le)), Set::empty()),
{
    broadcast use group_code_sets;
}

proof fn lemma_for_head_shape(ii: Seq<SpecInstruction>, ci: Seq<SpecInstruction>, lt: Seq<char>, le: Seq<char>)
    requires
        jumps_within(ii, Set::empty()),
        jumps_within(ci, Set::empty().insert(le)),
    ensures
        jumps_within(ii.push(SpecInstruction::Label(lt)), Set::empty().insert(le)),
        defined_labels(ii.push(SpecInstruction::Label(lt))).contains(lt),
        jumps_within(ii.push(SpecInstruction::Label(lt)) + ci, Set::empty().insert(le)),
        defined_labels(ii.push(SpecInstruction::Label(lt)) + ci).contains(lt),
{
    broadcast use group_code_sets;
}

proof fn lemma_for_shape(hc: Seq<SpecInstruction>, bi: Seq<SpecInstruction>, ui: Seq<SpecInstruction>, lt: Seq<char>, le: Seq<char>)
    requires
        jumps_within(hc, Set::empty().insert(le)),
        defined_labels(hc).contains(lt),
        jumps_within(bi, Set::empty()),
        jumps_within(ui, Set::empty()),
    ensures
        jumps_within((hc + bi + ui).push(SpecInstruction::JMP(lt)).push(SpecInstruction::Label(le)), Set::empty()),
{
    broadcast use group_code_sets;
}

proof fn lemma_params_shape(code: Seq<SpecInstruction>, addrs: Seq<SpecAddress>, x: SpecInstruction)
    requires
        jumps_within(code, Set::empty()),
        jump_target(x) is None,
    ensures
        jumps_within((code + params_code(addrs)).push(x), Set::empty()),
{
    broadcast use group_code_sets;
    let p = params_code(addrs);
    assert forall|l: Seq<char>| !#[trigger] jump_targets(p).contains(l) by {
        if jump_targets(p).contains(l) {
            let k = choose|k: int| 0 <= k < p.len() && #[trigger] jump_target(p[k]) == Some(l);
            assert(p[k] == SpecInstruction::Param(addrs[k]));
        }
    }
}

proof fn lemma_args_jumps(args: Seq<SpecExprD<Type>>, c: Counters)
    requires
        exprs_supported(args),
    ensures
        jumps_within(tr_args(args, c).1, Set::empty()),
    decreases args.len(),
{
    broadcast use lemma_labels_empty, lemma_targets_empty;
    if args.len() > 0 {
        lemma_args_jumps(args.drop_last(), c);
        let (addrs, code, c1) = tr_args(args.drop_last(), c);
        lemma_expr_jumps(args.last(), c1);
        lemma_concat_shape(code, tr_expr(args.last(), c1).1);
    }
}

proof fn lemma_opt_stmt_jumps(s: Option<Box<SpecStatementD<Type>>>, c: Counters)
    requires
        s matches Some(x) ==> stmt_supported(*x),
    ensures
        jumps_within(tr_opt_stmt(s, c).0, Set::empty()),
    decreases s, 2nat,
{
    broadcast use lemma_labels_empty, lemma_targets_empty;
    match s {
        Some(x) => lemma_stmt_jumps(*x, c),
        None => {},
    }
}

proof fn lemma_if_jumps(s: SpecStatementD<Type>, c: Counters)
    requires
        s.stmt is If,
        stmt_supported(s),
    ensures
        jumps_within(tr_stmt(s, c).0, Set::empty()),
    decreases s, 0nat,
{
    match s.stmt {
        SpecStatement::If { cond, then_branch, else_branch } => match else_branch {
            Some(e) => {
                let le = label_name(c.labels + 1);
                let lend = label_name(c.labels + 2);
                lemma_cond_jumps(*cond, next_label(next_label(c)), le);
                let (ci, c1) = tr_cond(*cond, next_label(next_label(c)), le);
                lemma_stmt_jumps(*then_branch, c1);
                let (ti, c2) = tr_stmt(*then_branch, c1);
                lemma_stmt_jumps(*e, c2);
                lemma_if_else_shape(ci, ti, tr_stmt(*e, c2).0, le, lend);
            },
            None => {
                let lend = label_name(c.labels + 1);
                lemma_cond_jumps(*cond, next_label(c), lend);
                let (ci, c1) = tr_cond(*cond, next_label(c), lend);
                lemma_stmt_jumps(*then_branch, c1);
                lemma_if_shape(ci, tr_stmt(*then_branch, c1).0, lend);
            },
        },
        _ => {},
    }
}

proof fn lemma_loop_jumps(s: SpecStatementD<Type>, c: Counters)
    requires
        s.stmt is While || s.stmt is For,
        stmt_supported(s),
    ensures
        jumps_within(tr_stmt(s, c).0, Set::empty()),
    decreases s, 0nat,
{
    let lt = label_name(c.labels + 1);
    let le = label_name(c.labels + 2);
    let c0 = next_label(next_label(c));
    match s.stmt {
        SpecStatement::While { cond, body } => {
            lemma_cond_jumps(*cond, c0, le);
            let (ci, c1) = tr_cond(*cond, c0, le);
            lemma_stmt_jumps(*body, c1);
            lemma_while_shape(ci, tr_stmt(*body, c1).0, lt, le);
        },
        SpecStatement::For { init, cond, update, body } => {
            lemma_opt_stmt_jumps(init, c0);
            let (ii, c1) = tr_opt_stmt(init, c0);
            let c2 = match cond {
                Some(x) => {
                    lemma_cond_jumps(*x, c1, le);
                    lemma_for_head_shape(ii, tr_cond(*x, c1, le).0, lt, le);
                    tr_cond(*x, c1, le).1
                },
                None => {
                    lemma_for_head_shape(ii, Seq::empty(), lt, le);
                    c1
                },
            };
            lemma_stmt_jumps(*body, c2);
            let c3 = tr_stmt(*body, c2).1;
            lemma_opt_stmt_jumps(update, c3);
            let head = ii.push(SpecInstruction::Label(lt));
            let hc = match cond {
                Some(x) => head + tr_cond(*x, c1, le).0,
                None => head,
            };
            lemma_for_shape(hc, tr_stmt(*body, c2).0, tr_opt_stmt(update, c3).0, lt, le);
        },
        _ => {},
    }
}

proof fn lemma_stmt_jumps(s: SpecStatementD<Type>, c: Counters)
    requires
        stmt_supported(s),
    ensures
        jumps_within(tr_stmt(s, c).0, Set::empty()),
    decreases s, 1nat,
{
    broadcast use lemma_labels_empty, lemma_targets_empty, lemma_labels_push, lemma_targets_push;
    match s.stmt {
        SpecStatement::Block { seq } => lemma_stmts_jumps(seq, c),
        SpecStatement::Decl { name, ty, init } => {
            lemma_expr_jumps(*init, c);
            let (a, ii, c1) = tr_expr(*init, c);
            lemma_plain_shape(ii, Seq::empty(), SpecInstruction::CopyAssignment(SpecAddress::Variable(name, ty), a), Set::empty());
        },
        SpecStatement::Assign { target, value } => match target.exp {
            SpecExpr::Ident(n) => {
                lemma_expr_jumps(*value, c);
                let (a, vi, c1) = tr_expr(*value, c);
                lemma_plain_shape(vi, Seq::empty(), SpecInstruction::CopyAssignment(SpecAddress::Variable(n, target.ty), a), Set::empty());
            },
            _ => {},
        },
        SpecStatement::Call { name, args } => {
            lemma_args_jumps(args, c);
            let (addrs, code, c1) = tr_args(args, c);
            lemma_params_shape(code, addrs, SpecInstruction::Call(None, name, args.len() as usize));
        },
        SpecStatement::If { .. } => lemma_if_jumps(s, c),
        SpecStatement::While { .. } | SpecStatement::For { .. } => lemma_loop_jumps(s, c),
        SpecStatement::Return(e) => match e {
            Some(x) => {
                lemma_expr_jumps(*x, c);
                let (a, xi, c1) = tr_expr(*x, c);
                lemma_plain_shape(xi, Seq::empty(), SpecInstruction::Return(Some(a)), Set::empty());
            },
            None => {},
        },
    }
}

proof fn lemma_stmts_jumps(ss: Seq<SpecStatementD<Type>>, c: Counters)
    requires
        stmts_supported(ss),
    ensures
        jumps_within(tr_stmts(ss, c).0, Set::empty()),
    decreases ss, 0nat,
{
    broadcast use lemma_labels_empty, lemma_targets_empty;
    if ss.len() > 0 {
        lemma_stmts_jumps(ss.drop_last(), c);
        let (pi, c1) = tr_stmts(ss.drop_last(), c);
        lemma_stmt_jumps(ss.last(), c1);
        lemma_concat_shape(pi, tr_stmt(ss.last(), c1).0);
    }
}

/// Every jump in the code of a statement lands on a label that the same code
/// defines: the code of a statement can be placed anywhere.
pub proof fn law_statement_code_is_jump_closed(s: SpecStatementD<Type>, c: Counters)
    requires
        stmt_supported(s),
    ensures
        jump_targets(tr_stmt(s, c).0).subset_of(defined_labels(tr_stmt(s, c).0)),
{
    lemma_stmt_jumps(s, c);
    assert(defined_labels(tr_stmt(s, c).0).union(Set::empty()) =~= defined_labels(tr_stmt(s, c).0));
}

} // verus!
