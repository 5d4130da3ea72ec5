//! What the code of an expression computes.
//!
//! A store gives values to variables and to temporaries. Running code
//! executes one instruction at a time from a position: an assignment writes
//! its destination and goes on, a label goes on, a jump goes to the position
//! of the label it names, a conditional jump tests a `Bool`. The meaning of
//! the arithmetic operators is left as a parameter: the law holds for every
//! meaning, as long as the expression and its code use the same one.

use vstd::prelude::*;
use crate::codegen::freshness::{
    labels_distinct, labels_fresh, lemma_cond_fresh, lemma_expr_fresh, lemma_expr_temps,
    lemma_temp_name_injective, temp_within,
};
use crate::codegen::tac_code_gen::{
    cond_supported, expr_supported, label_name, lemma_cond_counters, lemma_expr_counters, negated,
    next_label, temp_name, tr_cond, tr_expr, Counters,
};
use crate::ir::ast::{SpecExpr, SpecExprD, SpecLiteral, Type};
use crate::ir::tac::{Operator, SpecAddress, SpecInstruction};

verus! {

/// The values of variables and of temporaries.
pub struct Store {
    pub vars: Map<Seq<char>, SpecLiteral>,
    pub temps: Map<Seq<char>, SpecLiteral>,
}

/// A meaning of the operators: `binary` for addition, subtraction,
/// multiplication, division and the comparisons, `neg` for unary minus;
/// `None` where the operation fails.
pub struct Arith {
    pub binary: spec_fn(Operator, SpecLiteral, SpecLiteral) -> Option<SpecLiteral>,
    pub neg: spec_fn(SpecLiteral) -> Option<SpecLiteral>,
}

/// The value of a checked expression with the variables `vars`, or `None`
/// where evaluation fails. `and` and `or` look at their right operand only
/// when the left one does not decide.
pub open spec fn eval(e: SpecExprD<Type>, vars: Map<Seq<char>, SpecLiteral>, ar: Arith) -> Option<SpecLiteral>
    decreases e,
{
    match e.exp {
        SpecExpr::Literal(l) => Some(l),
        SpecExpr::Ident(n) => if vars.contains_key(n) { Some(vars[n]) } else { None },
        SpecExpr::Neg(a) => match eval(*a, vars, ar) {
            Some(v) => (ar.neg)(v),
            None => None,
        },
        SpecExpr::Add(a, b) => eval_binary(Operator::Add, eval(*a, vars, ar), eval(*b, vars, ar), ar),
        SpecExpr::Sub(a, b) => eval_binary(Operator::Sub, eval(*a, vars, ar), eval(*b, vars, ar), ar),
        SpecExpr::Mul(a, b) => eval_binary(Operator::Mul, eval(*a, vars, ar), eval(*b, vars, ar), ar),
        SpecExpr::Div(a, b) => eval_binary(Operator::Div, eval(*a, vars, ar), eval(*b, vars, ar), ar),
        SpecExpr::Lt(a, b) => eval_binary(Operator::LT, eval(*a, vars, ar), eval(*b, vars, ar), ar),
        SpecExpr::Le(a, b) => eval_binary(Operator::LTE, eval(*a, vars, ar), eval(*b, vars, ar), ar),
        SpecExpr::Gt(a, b) => eval_binary(Operator::GT, eval(*a, vars, ar), eval(*b, vars, ar), ar),
        SpecExpr::Ge(a, b) => eval_binary(Operator::GTE, eval(*a, vars, ar), eval(*b, vars, ar), ar),
        SpecExpr::Eq(a, b) => eval_binary(Operator::EQ, eval(*a, vars, ar), eval(*b, vars, ar), ar),
        SpecExpr::Ne(a, b) => eval_binary(Operator::NE, eval(*a, vars, ar), eval(*b, vars, ar), ar),
        SpecExpr::Not(a) => match eval(*a, vars, ar) {
            Some(SpecLiteral::Bool(x)) => Some(SpecLiteral::Bool(!x)),
            _ => None,
        },
        SpecExpr::And(a, b) => match eval(*a, vars, ar) {
            Some(SpecLiteral::Bool(false)) => Some(SpecLiteral::Bool(false)),
            Some(SpecLiteral::Bool(true)) => match eval(*b, vars, ar) {
                Some(SpecLiteral::Bool(y)) => Some(SpecLiteral::Bool(y)),
                _ => None,
            },
            _ => None,
        },
        SpecExpr::Or(a, b) => match eval(*a, vars, ar) {
            Some(SpecLiteral::Bool(true)) => Some(SpecLiteral::Bool(true)),
            Some(SpecLiteral::Bool(false)) => match eval(*b, vars, ar) {
                Some(SpecLiteral::Bool(y)) => Some(SpecLiteral::Bool(y)),
                _ => None,
            },
            _ => None,
        },
        _ => None,
    }
}

pub open spec fn eval_binary(op: Operator, a: Option<SpecLiteral>, b: Option<SpecLiteral>, ar: Arith) -> Option<SpecLiteral> {
    match (a, b) {
        (Some(x), Some(y)) => (ar.binary)(op, x, y),
        _ => None,
    }
}

/// The value an address holds in a store.
pub open spec fn value(a: SpecAddress, st: Store) -> Option<SpecLiteral> {
    match a {
        SpecAddress::Variable(n, _) => if st.vars.contains_key(n) { Some(st.vars[n]) } else { None },
        SpecAddress::Temporary(n, _) => if st.temps.contains_key(n) { Some(st.temps[n]) } else { None },
        SpecAddress::Constant(l, _) => Some(l),
    }
}

/// The store after writing `v` to the address `d` (a constant cannot be written).
pub open spec fn write(d: SpecAddress, v: SpecLiteral, st: Store) -> Option<Store> {
    match d {
        SpecAddress::Variable(n, _) => Some(Store { vars: st.vars.insert(n, v), temps: st.temps }),
        SpecAddress::Temporary(n, _) => Some(Store { vars: st.vars, temps: st.temps.insert(n, v) }),
        SpecAddress::Constant(..) => None,
    }
}

/// The position of the label `l` in `code`, if it has one.
pub open spec fn jump(code: Seq<SpecInstruction>, l: Seq<char>) -> Option<int> {
    if exists|k: int| 0 <= k < code.len() && code[k] == SpecInstruction::Label(l) {
        Some(choose|k: int| 0 <= k < code.len() && code[k] == SpecInstruction::Label(l))
    } else {
        None
    }
}

/// Where a jump to `l` leads, with the store unchanged.
pub open spec fn goto(code: Seq<SpecInstruction>, l: Seq<char>, st: Store) -> Option<(int, Store)> {
    match jump(code, l) {
        Some(k) => Some((k, st)),
        None => None,
    }
}

/// One instruction of `code` executed at position `pc`: the next position
/// and store, or `None` where execution cannot go on.
pub open spec fn step(code: Seq<SpecInstruction>, pc: int, st: Store, ar: Arith) -> Option<(int, Store)> {
    if !(0 <= pc < code.len()) {
        None
    } else {
        match code[pc] {
            SpecInstruction::Label(_) => Some((pc + 1, st)),
            SpecInstruction::CopyAssignment(d, s) => match value(s, st) {
                Some(v) => match write(d, v, st) {
                    Some(st2) => Some((pc + 1, st2)),
                    None => None,
                },
                None => None,
            },
            SpecInstruction::UnaryAssignment(op, d, s) => match value(s, st) {
                Some(v) => match (if op is Neg { (ar.neg)(v) } else { None }) {
                    Some(r) => match write(d, r, st) {
                        Some(st2) => Some((pc + 1, st2)),
                        None => None,
                    },
                    None => None,
                },
                None => None,
            },
            SpecInstruction::BinaryAssignment(op, d, l, r) => match eval_binary(op, value(l, st), value(r, st), ar) {
                Some(v) => match write(d, v, st) {
                    Some(st2) => Some((pc + 1, st2)),
                    None => None,
                },
                None => None,
            },
            SpecInstruction::JMP(l) => goto(code, l, st),
            SpecInstruction::ConditionalJMP(a, l) => match value(a, st) {
                Some(SpecLiteral::Bool(true)) => goto(code, l, st),
                Some(SpecLiteral::Bool(false)) => Some((pc + 1, st)),
                _ => None,
            },
            SpecInstruction::ConditionalJMPFalse(a, l) => match value(a, st) {
                Some(SpecLiteral::Bool(false)) => goto(code, l, st),
                Some(SpecLiteral::Bool(true)) => Some((pc + 1, st)),
                _ => None,
            },
            SpecInstruction::ConditionalJMPRelational(op, a, b, l) => match eval_binary(op, value(a, st), value(b, st), ar) {
                Some(SpecLiteral::Bool(true)) => goto(code, l, st),
                Some(SpecLiteral::Bool(false)) => Some((pc + 1, st)),
                _ => None,
            },
            _ => None,
        }
    }
}

/// `n` instructions executed from position `pc`.
pub open spec fn steps(code: Seq<SpecInstruction>, pc: int, st: Store, ar: Arith, n: nat) -> Option<(int, Store)>
    decreases n,
{
    if n == 0 {
        Some((pc, st))
    } else {
        match step(code, pc, st, ar) {
            Some((pc2, st2)) => steps(code, pc2, st2, ar, (n - 1) as nat),
            None => None,
        }
    }
}

/// Whether `name` is none of the temporaries numbered above `lo`, up to `hi`.
pub open spec fn fresh_name(name: Seq<char>, lo: nat, hi: nat) -> bool {
    forall|n: nat| lo < n <= hi ==> name != #[trigger] temp_name(n)
}

/// Whether `t2` holds what `t1` holds for every temporary outside those
/// numbered above `lo`, up to `hi`.
pub open spec fn kept(t1: Map<Seq<char>, SpecLiteral>, t2: Map<Seq<char>, SpecLiteral>, lo: nat, hi: nat) -> bool {
    forall|name: Seq<char>| #[trigger] fresh_name(name, lo, hi) ==>
        t2.contains_key(name) == t1.contains_key(name) && (t1.contains_key(name) ==> t2[name] == t1[name])
}

proof fn lemma_then(w: Seq<SpecInstruction>, pc: int, st: Store, ar: Arith, n1: nat, pc1: int, st1: Store, n2: nat, pc2: int, st2: Store)
    requires
        steps(w, pc, st, ar, n1) == Some((pc1, st1)),
        steps(w, pc1, st1, ar, n2) == Some((pc2, st2)),
    ensures
        steps(w, pc, st, ar, n1 + n2) == Some((pc2, st2)),
    decreases n1,
{
    if n1 > 0 {
        let (q, s) = step(w, pc, st, ar)->Some_0;
        lemma_then(w, q, s, ar, (n1 - 1) as nat, pc1, st1, n2, pc2, st2);
        assert((n1 + n2 - 1) as nat == (n1 - 1) as nat + n2);
    }
}

proof fn lemma_one(w: Seq<SpecInstruction>, pc: int, st: Store, ar: Arith)
    requires
        step(w, pc, st, ar) is Some,
    ensures
        steps(w, pc, st, ar, 1) == step(w, pc, st, ar),
{
    reveal_with_fuel(steps, 2);
}

/// A step, then more steps.
proof fn lemma_step_then(w: Seq<SpecInstruction>, pc: int, st: Store, ar: Arith, pc1: int, st1: Store, n2: nat, pc2: int, st2: Store)
    requires
        step(w, pc, st, ar) == Some((pc1, st1)),
        steps(w, pc1, st1, ar, n2) == Some((pc2, st2)),
    ensures
        steps(w, pc, st, ar, n2 + 1) == Some((pc2, st2)),
{
    reveal_with_fuel(steps, 2);
    assert((n2 + 1 - 1) as nat == n2);
}

/// A label defined once is where a jump to it leads.
proof fn lemma_jump(w: Seq<SpecInstruction>, k: int, l: Seq<char>)
    requires
        labels_distinct(w),
        0 <= k < w.len(),
        w[k] == SpecInstruction::Label(l),
    ensures
        jump(w, l) == Some(k),
{
    let k2 = choose|j: int| 0 <= j < w.len() && w[j] == SpecInstruction::Label(l);
    if k2 < k {
        assert(w[k2] != w[k]);
    } else if k < k2 {
        assert(w[k] != w[k2]);
    }
}

/// A piece of code placed inside code placed inside `w`.
proof fn lemma_part(w: Seq<SpecInstruction>, p: int, code: Seq<SpecInstruction>, off: int, part: Seq<SpecInstruction>)
    requires
        0 <= p,
        p + code.len() <= w.len(),
        w.subrange(p, p + code.len()) == code,
        0 <= off,
        off + part.len() <= code.len(),
        code.subrange(off, off + part.len()) == part,
    ensures
        w.subrange(p + off, p + off + part.len()) == part,
        forall|k: int| 0 <= k < part.len() ==> #[trigger] w[p + off + k] == part[k],
{
    assert forall|k: int| 0 <= k < part.len() implies #[trigger] w[p + off + k] == part[k] by {
        assert(w.subrange(p, p + code.len())[off + k] == w[p + off + k]);
        assert(code.subrange(off, off + part.len())[k] == code[off + k]);
    }
    assert(w.subrange(p + off, p + off + part.len()) =~= part);
}

proof fn lemma_at(w: Seq<SpecInstruction>, p: int, code: Seq<SpecInstruction>, k: int)
    requires
        0 <= p,
        p + code.len() <= w.len(),
        w.subrange(p, p + code.len()) == code,
        0 <= k < code.len(),
    ensures
        w[p + k] == code[k],
{
    assert(w.subrange(p, p + code.len())[k] == w[p + k]);
}

proof fn lemma_fresh_below(m: nat, lo: nat, hi: nat)
    requires
        m <= lo,
    ensures
        fresh_name(temp_name(m), lo, hi),
{
    assert forall|n: nat| lo < n <= hi implies temp_name(m) != #[trigger] temp_name(n) by {
        lemma_temp_name_injective(m, n);
    }
}

/// The value of an address made before code that keeps what is outside its
/// own temporaries.
proof fn lemma_value_kept(a: SpecAddress, s1: Store, s2: Store, lo: nat, mid: nat, hi: nat)
    requires
        temp_within(a, lo, mid),
        s2.vars == s1.vars,
        kept(s1.temps, s2.temps, mid, hi),
    ensures
        value(a, s2) == value(a, s1),
{
    match a {
        SpecAddress::Temporary(name, _) => {
            let m = choose|n: nat| lo < n <= mid && name == #[trigger] temp_name(n);
            lemma_fresh_below(m, mid, hi);
            assert(fresh_name(name, mid, hi));
        },
        _ => {},
    }
}

proof fn lemma_kept_trans(t0: Map<Seq<char>, SpecLiteral>, t1: Map<Seq<char>, SpecLiteral>, t2: Map<Seq<char>, SpecLiteral>, lo: nat, mid: nat, hi: nat)
    requires
        kept(t0, t1, lo, mid),
        kept(t1, t2, mid, hi),
        lo <= mid <= hi,
    ensures
        kept(t0, t2, lo, hi),
{
    assert forall|name: Seq<char>| #[trigger] fresh_name(name, lo, hi) implies
        t2.contains_key(name) == t0.contains_key(name) && (t0.contains_key(name) ==> t2[name] == t0[name]) by {
        assert(fresh_name(name, lo, mid));
        assert(fresh_name(name, mid, hi));
    }
}

proof fn lemma_kept_weaken(t0: Map<Seq<char>, SpecLiteral>, t1: Map<Seq<char>, SpecLiteral>, lo: nat, hi: nat, lo2: nat, hi2: nat)
    requires
        kept(t0, t1, lo, hi),
        lo2 <= lo,
        hi <= hi2,
    ensures
        kept(t0, t1, lo2, hi2),
{
    assert forall|name: Seq<char>| #[trigger] fresh_name(name, lo2, hi2) implies
        t1.contains_key(name) == t0.contains_key(name) && (t0.contains_key(name) ==> t1[name] == t0[name]) by {
        assert(fresh_name(name, lo, hi));
    }
}

proof fn lemma_kept_insert(t: Map<Seq<char>, SpecLiteral>, k: nat, v: SpecLiteral, lo: nat, hi: nat)
    requires
        lo < k <= hi,
    ensures
        kept(t, t.insert(temp_name(k), v), lo, hi),
{
    assert forall|name: Seq<char>| #[trigger] fresh_name(name, lo, hi) implies
        t.insert(temp_name(k), v).contains_key(name) == t.contains_key(name)
        && (t.contains_key(name) ==> t.insert(temp_name(k), v)[name] == t[name]) by {
        assert(name != temp_name(k));
    }
}


/// The code of an expression, placed at position `p` of `w`, runs from its
/// first instruction to its end: it leaves the variables as they were, puts
/// the expression's value in its result address, and changes no temporary
/// but those it makes.
proof fn lemma_expr_runs(e: SpecExprD<Type>, c: Counters, w: Seq<SpecInstruction>, p: int, st: Store, ar: Arith) -> (res: (nat, Store))
    requires
        expr_supported(e),
        eval(e, st.vars, ar) is Some,
        0 <= p,
        p + tr_expr(e, c).1.len() <= w.len(),
        w.subrange(p, p + tr_expr(e, c).1.len()) == tr_expr(e, c).1,
        labels_distinct(w),
    ensures
        steps(w, p, st, ar, res.0) == Some((p + tr_expr(e, c).1.len(), res.1)),
        res.1.vars == st.vars,
        value(tr_expr(e, c).0, res.1) == eval(e, st.vars, ar),
        kept(st.temps, res.1.temps, c.temps, tr_expr(e, c).2.temps),
    decreases e, 1nat,
{
    match e.exp {
        SpecExpr::Literal(_) | SpecExpr::Ident(_) => (0, st),
        SpecExpr::Not(_) => lemma_not_runs(e, c, w, p, st, ar),
        SpecExpr::And(_, _) => lemma_and_runs(e, c, w, p, st, ar),
        SpecExpr::Or(_, _) => lemma_or_runs(e, c, w, p, st, ar),
        SpecExpr::Neg(_) => lemma_neg_runs(e, c, w, p, st, ar),
        _ => lemma_binary_runs(e, c, w, p, st, ar),
    }
}

#[verifier::spinoff_prover]
proof fn lemma_neg_runs(e: SpecExprD<Type>, c: Counters, w: Seq<SpecInstruction>, p: int, st: Store, ar: Arith) -> (res: (nat, Store))
    requires
        e.exp is Neg,
        expr_supported(e),
        eval(e, st.vars, ar) is Some,
        0 <= p,
        p + tr_expr(e, c).1.len() <= w.len(),
        w.subrange(p, p + tr_expr(e, c).1.len()) == tr_expr(e, c).1,
        labels_distinct(w),
    ensures
        steps(w, p, st, ar, res.0) == Some((p + tr_expr(e, c).1.len(), res.1)),
        res.1.vars == st.vars,
        value(tr_expr(e, c).0, res.1) == eval(e, st.vars, ar),
        kept(st.temps, res.1.temps, c.temps, tr_expr(e, c).2.temps),
    decreases e, 0nat,
{
    let code = tr_expr(e, c).1;
    let v = eval(e, st.vars, ar)->Some_0;
    match e.exp {
        SpecExpr::Neg(x) => {
            let (a, xi, c1) = tr_expr(*x, c);
            lemma_expr_counters(*x, c);
            assert(code.subrange(0, xi.len() as int) =~= xi);
            lemma_part(w, p, code, 0, xi);
            let (n1, s1) = lemma_expr_runs(*x, c, w, p, st, ar);
            let tn = temp_name(c1.temps + 1);
            lemma_at(w, p, code, xi.len() as int);
            let s2 = Store { vars: s1.vars, temps: s1.temps.insert(tn, v) };
            assert(step(w, p + xi.len(), s1, ar) == Some((p + xi.len() + 1, s2)));
            lemma_one(w, p + xi.len(), s1, ar);
            lemma_then(w, p, st, ar, n1, p + xi.len(), s1, 1, p + xi.len() + 1, s2);
            lemma_kept_insert(s1.temps, c1.temps + 1, v, c1.temps, c1.temps + 1);
            lemma_kept_trans(st.temps, s1.temps, s2.temps, c.temps, c1.temps, c1.temps + 1);
            (n1 + 1, s2)
        },
        _ => (0, st),
    }
}

#[verifier::spinoff_prover]
#[verifier::rlimit(40)]
proof fn lemma_binary_runs(e: SpecExprD<Type>, c: Counters, w: Seq<SpecInstruction>, p: int, st: Store, ar: Arith) -> (res: (nat, Store))
    requires
        e.exp is Add || e.exp is Sub || e.exp is Mul || e.exp is Div,
        expr_supported(e),
        eval(e, st.vars, ar) is Some,
        0 <= p,
        p + tr_expr(e, c).1.len() <= w.len(),
        w.subrange(p, p + tr_expr(e, c).1.len()) == tr_expr(e, c).1,
        labels_distinct(w),
    ensures
        steps(w, p, st, ar, res.0) == Some((p + tr_expr(e, c).1.len(), res.1)),
        res.1.vars == st.vars,
        value(tr_expr(e, c).0, res.1) == eval(e, st.vars, ar),
        kept(st.temps, res.1.temps, c.temps, tr_expr(e, c).2.temps),
    decreases e, 0nat,
{
    let code = tr_expr(e, c).1;
    let v = eval(e, st.vars, ar)->Some_0;
    match e.exp {
        SpecExpr::Add(l, r) | SpecExpr::Sub(l, r) | SpecExpr::Mul(l, r) | SpecExpr::Div(l, r) => {
            let (la, li, c1) = tr_expr(*l, c);
            let (ra, ri, c2) = tr_expr(*r, c1);
            lemma_expr_counters(*l, c);
            lemma_expr_counters(*r, c1);
            lemma_expr_temps(*l, c);
            let ll = li.len() as int;
            let rl = ri.len() as int;
            assert(code.subrange(0, ll) =~= li);
            lemma_part(w, p, code, 0, li);
            let (n1, s1) = lemma_expr_runs(*l, c, w, p, st, ar);
            assert(code.subrange(ll, ll + rl) =~= ri);
            lemma_part(w, p, code, ll, ri);
            let (n2, s2) = lemma_expr_runs(*r, c1, w, p + ll, s1, ar);
            lemma_value_kept(la, s1, s2, c.temps, c1.temps, c2.temps);
            lemma_at(w, p, code, ll + rl);
            let tn = temp_name(c2.temps + 1);
            let s3 = Store { vars: s2.vars, temps: s2.temps.insert(tn, v) };
            assert(step(w, p + ll + rl, s2, ar) == Some((p + ll + rl + 1, s3)));
            lemma_one(w, p + ll + rl, s2, ar);
            lemma_then(w, p, st, ar, n1, p + ll, s1, n2, p + ll + rl, s2);
            lemma_then(w, p, st, ar, n1 + n2, p + ll + rl, s2, 1, p + ll + rl + 1, s3);
            lemma_kept_trans(st.temps, s1.temps, s2.temps, c.temps, c1.temps, c2.temps);
            lemma_kept_insert(s2.temps, c2.temps + 1, v, c2.temps, c2.temps + 1);
            lemma_kept_trans(st.temps, s2.temps, s3.temps, c.temps, c2.temps, c2.temps + 1);
            (n1 + n2 + 1, s3)
        },
        _ => (0, st),
    }
}

#[verifier::spinoff_prover]
proof fn lemma_not_runs(e: SpecExprD<Type>, c: Counters, w: Seq<SpecInstruction>, p: int, st: Store, ar: Arith) -> (res: (nat, Store))
    requires
        e.exp is Not,
        expr_supported(e),
        eval(e, st.vars, ar) is Some,
        0 <= p,
        p + tr_expr(e, c).1.len() <= w.len(),
        w.subrange(p, p + tr_expr(e, c).1.len()) == tr_expr(e, c).1,
        labels_distinct(w),
    ensures
        steps(w, p, st, ar, res.0) == Some((p + tr_expr(e, c).1.len(), res.1)),
        res.1.vars == st.vars,
        value(tr_expr(e, c).0, res.1) == eval(e, st.vars, ar),
        kept(st.temps, res.1.temps, c.temps, tr_expr(e, c).2.temps),
    decreases e, 0nat,
{
    let code = tr_expr(e, c).1;
    let v = eval(e, st.vars, ar)->Some_0;
    match e.exp {
        SpecExpr::Not(x) => {
            let (a, xi, c1) = tr_expr(*x, c);
            lemma_expr_counters(*x, c);
            let q = p + xi.len();
            assert(code.subrange(0, xi.len() as int) =~= xi);
            lemma_part(w, p, code, 0, xi);
            let (n1, s1) = lemma_expr_runs(*x, c, w, p, st, ar);
            let lf = label_name(c1.labels + 1);
            let lx = label_name(c1.labels + 2);
            let tn = temp_name(c1.temps + 1);
            lemma_at(w, p, code, xi.len() as int + 0);
            lemma_at(w, p, code, xi.len() as int + 1);
            lemma_at(w, p, code, xi.len() as int + 2);
            lemma_at(w, p, code, xi.len() as int + 3);
            lemma_at(w, p, code, xi.len() as int + 4);
            lemma_at(w, p, code, xi.len() as int + 5);
            lemma_jump(w, q + 3, lf);
            lemma_jump(w, q + 5, lx);
            let s2 = Store { vars: s1.vars, temps: s1.temps.insert(tn, v) };
            let end = q + 6;
            if value(a, s1) == Some(SpecLiteral::Bool(true)) {
                lemma_step_then(w, q + 5, s2, ar, end, s2, 0, end, s2);
                lemma_step_then(w, q + 2, s2, ar, q + 5, s2, 1, end, s2);
                lemma_step_then(w, q + 1, s1, ar, q + 2, s2, 2, end, s2);
                lemma_step_then(w, q, s1, ar, q + 1, s1, 3, end, s2);
            } else {
                lemma_step_then(w, q + 5, s2, ar, end, s2, 0, end, s2);
                lemma_step_then(w, q + 4, s1, ar, q + 5, s2, 1, end, s2);
                lemma_step_then(w, q + 3, s1, ar, q + 4, s1, 2, end, s2);
                lemma_step_then(w, q, s1, ar, q + 3, s1, 3, end, s2);
            }
            lemma_then(w, p, st, ar, n1, q, s1, 4, end, s2);
            lemma_kept_insert(s1.temps, c1.temps + 1, v, c1.temps, c1.temps + 1);
            lemma_kept_trans(st.temps, s1.temps, s2.temps, c.temps, c1.temps, c1.temps + 1);
            (n1 + 4, s2)
        },
        _ => (0, st),
    }
}


#[verifier::spinoff_prover]
proof fn lemma_and_runs(e: SpecExprD<Type>, c: Counters, w: Seq<SpecInstruction>, p: int, st: Store, ar: Arith) -> (res: (nat, Store))
    requires
        e.exp is And,
        expr_supported(e),
        eval(e, st.vars, ar) is Some,
        0 <= p,
        p + tr_expr(e, c).1.len() <= w.len(),
        w.subrange(p, p + tr_expr(e, c).1.len()) == tr_expr(e, c).1,
        labels_distinct(w),
    ensures
        steps(w, p, st, ar, res.0) == Some((p + tr_expr(e, c).1.len(), res.1)),
        res.1.vars == st.vars,
        value(tr_expr(e, c).0, res.1) == eval(e, st.vars, ar),
        kept(st.temps, res.1.temps, c.temps, tr_expr(e, c).2.temps),
    decreases e, 0nat,
{
    let code = tr_expr(e, c).1;
    let v = eval(e, st.vars, ar)->Some_0;
    match e.exp {
        SpecExpr::And(l, r) => {
            let (la, li, c1) = tr_expr(*l, c);
            let (ra, ri, c2) = tr_expr(*r, c1);
            lemma_expr_counters(*l, c);
            lemma_expr_counters(*r, c1);
            lemma_expr_temps(*l, c);
            let ll = li.len() as int;
            let rl = ri.len() as int;
            let lf = label_name(c2.labels + 1);
            let lx = label_name(c2.labels + 2);
            let tn = temp_name(c2.temps + 1);
            assert(code.subrange(0, ll) =~= li);
            lemma_part(w, p, code, 0, li);
            let (n1, s1) = lemma_expr_runs(*l, c, w, p, st, ar);
            let b = p + ll + 1 + rl;
            lemma_at(w, p, code, ll);
            lemma_at(w, p, code, ll + 1 + rl);
            lemma_at(w, p, code, ll + 1 + rl + 1);
            lemma_at(w, p, code, ll + 1 + rl + 2);
            lemma_at(w, p, code, ll + 1 + rl + 3);
            lemma_at(w, p, code, ll + 1 + rl + 4);
            lemma_at(w, p, code, ll + 1 + rl + 5);
            lemma_jump(w, b + 3, lf);
            lemma_jump(w, b + 5, lx);
            let end = b + 6;
            lemma_kept_weaken(st.temps, s1.temps, c.temps, c1.temps, c.temps, c2.temps);
            if value(la, s1) == Some(SpecLiteral::Bool(false)) {
                let s3 = Store { vars: s1.vars, temps: s1.temps.insert(tn, v) };
                lemma_step_then(w, b + 5, s3, ar, end, s3, 0, end, s3);
                lemma_step_then(w, b + 4, s1, ar, b + 5, s3, 1, end, s3);
                lemma_step_then(w, b + 3, s1, ar, b + 4, s1, 2, end, s3);
                lemma_step_then(w, p + ll, s1, ar, b + 3, s1, 3, end, s3);
                lemma_then(w, p, st, ar, n1, p + ll, s1, 4, end, s3);
                lemma_kept_insert(s1.temps, c2.temps + 1, v, c2.temps, c2.temps + 1);
                lemma_kept_trans(st.temps, s1.temps, s3.temps, c.temps, c2.temps, c2.temps + 1);
                (n1 + 4, s3)
            } else {
                assert(code.subrange(ll + 1, ll + 1 + rl) =~= ri);
                lemma_part(w, p, code, ll + 1, ri);
                let (n2, s2) = lemma_expr_runs(*r, c1, w, p + ll + 1, s1, ar);
                let s3 = Store { vars: s2.vars, temps: s2.temps.insert(tn, v) };
                lemma_step_then(w, b + 5, s3, ar, end, s3, 0, end, s3);
                if value(ra, s2) == Some(SpecLiteral::Bool(true)) {
                    lemma_step_then(w, b + 2, s3, ar, b + 5, s3, 1, end, s3);
                    lemma_step_then(w, b + 1, s2, ar, b + 2, s3, 2, end, s3);
                    lemma_step_then(w, b, s2, ar, b + 1, s2, 3, end, s3);
                } else {
                    lemma_step_then(w, b + 4, s2, ar, b + 5, s3, 1, end, s3);
                    lemma_step_then(w, b + 3, s2, ar, b + 4, s2, 2, end, s3);
                    lemma_step_then(w, b, s2, ar, b + 3, s2, 3, end, s3);
                }
                lemma_then(w, p + ll + 1, s1, ar, n2, b, s2, 4, end, s3);
                lemma_step_then(w, p + ll, s1, ar, p + ll + 1, s1, n2 + 4, end, s3);
                lemma_then(w, p, st, ar, n1, p + ll, s1, n2 + 4 + 1, end, s3);
                lemma_kept_trans(st.temps, s1.temps, s2.temps, c.temps, c1.temps, c2.temps);
                lemma_kept_insert(s2.temps, c2.temps + 1, v, c2.temps, c2.temps + 1);
                lemma_kept_trans(st.temps, s2.temps, s3.temps, c.temps, c2.temps, c2.temps + 1);
                (n1 + n2 + 5, s3)
            }
        },
        _ => (0, st),
    }
}

#[verifier::spinoff_prover]
proof fn lemma_or_runs(e: SpecExprD<Type>, c: Counters, w: Seq<SpecInstruction>, p: int, st: Store, ar: Arith) -> (res: (nat, Store))
    requires
        e.exp is Or,
        expr_supported(e),
        eval(e, st.vars, ar) is Some,
        0 <= p,
        p + tr_expr(e, c).1.len() <= w.len(),
        w.subrange(p, p + tr_expr(e, c).1.len()) == tr_expr(e, c).1,
        labels_distinct(w),
    ensures
        steps(w, p, st, ar, res.0) == Some((p + tr_expr(e, c).1.len(), res.1)),
        res.1.vars == st.vars,
        value(tr_expr(e, c).0, res.1) == eval(e, st.vars, ar),
        kept(st.temps, res.1.temps, c.temps, tr_expr(e, c).2.temps),
    decreases e, 0nat,
{
    let code = tr_expr(e, c).1;
    let v = eval(e, st.vars, ar)->Some_0;
    match e.exp {
        SpecExpr::Or(l, r) => {
            let (la, li, c1) = tr_expr(*l, c);
            let (ra, ri, c2) = tr_expr(*r, c1);
            lemma_expr_counters(*l, c);
            lemma_expr_counters(*r, c1);
            lemma_expr_temps(*l, c);
            let ll = li.len() as int;
            let rl = ri.len() as int;
            let lt = label_name(c2.labels + 1);
            let lf = label_name(c2.labels + 2);
            let lx = label_name(c2.labels + 3);
            let tn = temp_name(c2.temps + 1);
            assert(code.subrange(0, ll) =~= li);
            lemma_part(w, p, code, 0, li);
            let (n1, s1) = lemma_expr_runs(*l, c, w, p, st, ar);
            let b = p + ll + 3 + rl;
            lemma_at(w, p, code, ll);
            lemma_at(w, p, code, ll + 1);
            lemma_at(w, p, code, ll + 2);
            lemma_at(w, p, code, ll + 3 + rl);
            lemma_at(w, p, code, ll + 3 + rl + 1);
            lemma_at(w, p, code, ll + 3 + rl + 2);
            lemma_at(w, p, code, ll + 3 + rl + 3);
            lemma_at(w, p, code, ll + 3 + rl + 4);
            lemma_at(w, p, code, ll + 3 + rl + 5);
            lemma_jump(w, p + ll + 2, lf);
            lemma_jump(w, b + 3, lt);
            lemma_jump(w, b + 5, lx);
            let end = b + 6;
            lemma_kept_weaken(st.temps, s1.temps, c.temps, c1.temps, c.temps, c2.temps);
            if value(la, s1) == Some(SpecLiteral::Bool(true)) {
                let s3 = Store { vars: s1.vars, temps: s1.temps.insert(tn, v) };
                lemma_step_then(w, b + 5, s3, ar, end, s3, 0, end, s3);
                lemma_step_then(w, b + 4, s1, ar, b + 5, s3, 1, end, s3);
                lemma_step_then(w, b + 3, s1, ar, b + 4, s1, 2, end, s3);
                lemma_step_then(w, p + ll + 1, s1, ar, b + 3, s1, 3, end, s3);
                lemma_step_then(w, p + ll, s1, ar, p + ll + 1, s1, 4, end, s3);
                lemma_then(w, p, st, ar, n1, p + ll, s1, 5, end, s3);
                lemma_kept_insert(s1.temps, c2.temps + 1, v, c2.temps, c2.temps + 1);
                lemma_kept_trans(st.temps, s1.temps, s3.temps, c.temps, c2.temps, c2.temps + 1);
                (n1 + 5, s3)
            } else {
                assert(code.subrange(ll + 3, ll + 3 + rl) =~= ri);
                lemma_part(w, p, code, ll + 3, ri);
                let (n2, s2) = lemma_expr_runs(*r, c1, w, p + ll + 3, s1, ar);
                let s3 = Store { vars: s2.vars, temps: s2.temps.insert(tn, v) };
                lemma_step_then(w, b + 5, s3, ar, end, s3, 0, end, s3);
                if value(ra, s2) == Some(SpecLiteral::Bool(true)) {
                    lemma_step_then(w, b + 4, s2, ar, b + 5, s3, 1, end, s3);
                    lemma_step_then(w, b + 3, s2, ar, b + 4, s2, 2, end, s3);
                    lemma_step_then(w, b, s2, ar, b + 3, s2, 3, end, s3);
                } else {
                    lemma_step_then(w, b + 2, s3, ar, b + 5, s3, 1, end, s3);
                    lemma_step_then(w, b + 1, s2, ar, b + 2, s3, 2, end, s3);
                    lemma_step_then(w, b, s2, ar, b + 1, s2, 3, end, s3);
                }
                lemma_then(w, p + ll + 3, s1, ar, n2, b, s2, 4, end, s3);
                lemma_step_then(w, p + ll + 2, s1, ar, p + ll + 3, s1, n2 + 4, end, s3);
                lemma_step_then(w, p + ll, s1, ar, p + ll + 2, s1, n2 + 4 + 1, end, s3);
                lemma_then(w, p, st, ar, n1, p + ll, s1, n2 + 4 + 1 + 1, end, s3);
                lemma_kept_trans(st.temps, s1.temps, s2.temps, c.temps, c1.temps, c2.temps);
                lemma_kept_insert(s2.temps, c2.temps + 1, v, c2.temps, c2.temps + 1);
                lemma_kept_trans(st.temps, s2.temps, s3.temps, c.temps, c2.temps, c2.temps + 1);
                (n1 + n2 + 6, s3)
            }
        },
        _ => (0, st),
    }
}


/// Whether, in the meaning `ar`, each comparison gives the opposite answer
/// of its negation.
pub open spec fn comparisons_negate(ar: Arith) -> bool {
    forall|op: Operator, x: SpecLiteral, y: SpecLiteral|
        (op is LT || op is LTE || op is GT || op is GTE || op is EQ || op is NE) ==>
        ((#[trigger] (ar.binary)(op, x, y)) matches Some(SpecLiteral::Bool(b))
            ==> (ar.binary)(negated(op), x, y) == Some(SpecLiteral::Bool(!b)))
}

/// Where a condition's code, at position `p` of `w`, goes: past its end when
/// the condition holds, to the label `fl` (at `k`) when it does not.
pub open spec fn cond_exit(e: SpecExprD<Type>, c: Counters, fl: Seq<char>, p: int, k: int, vars: Map<Seq<char>, SpecLiteral>, ar: Arith) -> int {
    if eval(e, vars, ar) == Some(SpecLiteral::Bool(true)) {
        p + tr_cond(e, c, fl).0.len()
    } else {
        k
    }
}

proof fn lemma_cond_runs(e: SpecExprD<Type>, c: Counters, fl: Seq<char>, w: Seq<SpecInstruction>, p: int, k: int, st: Store, ar: Arith) -> (res: (nat, Store))
    requires
        cond_supported(e),
        eval(e, st.vars, ar) matches Some(SpecLiteral::Bool(_)),
        comparisons_negate(ar),
        0 <= p,
        p + tr_cond(e, c, fl).0.len() <= w.len(),
        w.subrange(p, p + tr_cond(e, c, fl).0.len()) == tr_cond(e, c, fl).0,
        labels_distinct(w),
        0 <= k < w.len(),
        w[k] == SpecInstruction::Label(fl),
    ensures
        steps(w, p, st, ar, res.0) == Some((cond_exit(e, c, fl, p, k, st.vars, ar), res.1)),
        res.1.vars == st.vars,
        kept(st.temps, res.1.temps, c.temps, tr_cond(e, c, fl).1.temps),
    decreases e, 1nat,
{
    lemma_jump(w, k, fl);
    let code = tr_cond(e, c, fl).0;
    match e.exp {
        SpecExpr::Literal(SpecLiteral::Bool(true)) => (0, st),
        SpecExpr::Literal(SpecLiteral::Bool(false)) => {
            lemma_at(w, p, code, 0);
            lemma_one(w, p, st, ar);
            (1, st)
        },
        SpecExpr::Ident(_) => {
            lemma_at(w, p, code, 0);
            lemma_one(w, p, st, ar);
            (1, st)
        },
        SpecExpr::And(_, _) => lemma_cond_and_runs(e, c, fl, w, p, k, st, ar),
        SpecExpr::Or(_, _) => lemma_cond_or_runs(e, c, fl, w, p, k, st, ar),
        _ => lemma_cond_test_runs(e, c, fl, w, p, k, st, ar),
    }
}

#[verifier::spinoff_prover]
proof fn lemma_cond_and_runs(e: SpecExprD<Type>, c: Counters, fl: Seq<char>, w: Seq<SpecInstruction>, p: int, k: int, st: Store, ar: Arith) -> (res: (nat, Store))
    requires
        e.exp is And,
        cond_supported(e),
        eval(e, st.vars, ar) matches Some(SpecLiteral::Bool(_)),
        comparisons_negate(ar),
        0 <= p,
        p + tr_cond(e, c, fl).0.len() <= w.len(),
        w.subrange(p, p + tr_cond(e, c, fl).0.len()) == tr_cond(e, c, fl).0,
        labels_distinct(w),
        0 <= k < w.len(),
        w[k] == SpecInstruction::Label(fl),
    ensures
        steps(w, p, st, ar, res.0) == Some((cond_exit(e, c, fl, p, k, st.vars, ar), res.1)),
        res.1.vars == st.vars,
        kept(st.temps, res.1.temps, c.temps, tr_cond(e, c, fl).1.temps),
    decreases e, 0nat,
{
    let code = tr_cond(e, c, fl).0;
    match e.exp {
        SpecExpr::And(l, r) => {
            let c0 = next_label(c);
            let (li, c1) = tr_cond(*l, c0, fl);
            let (ri, c2) = tr_cond(*r, c1, fl);
            lemma_cond_counters(*l, c0, fl);
            lemma_cond_counters(*r, c1, fl);
            let ll = li.len() as int;
            let rl = ri.len() as int;
            assert(code.subrange(0, ll) =~= li);
            lemma_part(w, p, code, 0, li);
            let (n1, s1) = lemma_cond_runs(*l, c0, fl, w, p, k, st, ar);
            if eval(*l, st.vars, ar) == Some(SpecLiteral::Bool(true)) {
                lemma_at(w, p, code, ll);
                assert(code.subrange(ll + 1, ll + 1 + rl) =~= ri);
                lemma_part(w, p, code, ll + 1, ri);
                let (n2, s2) = lemma_cond_runs(*r, c1, fl, w, p + ll + 1, k, s1, ar);
                lemma_step_then(w, p + ll, s1, ar, p + ll + 1, s1, n2, cond_exit(*r, c1, fl, p + ll + 1, k, st.vars, ar), s2);
                lemma_then(w, p, st, ar, n1, p + ll, s1, n2 + 1, cond_exit(*r, c1, fl, p + ll + 1, k, st.vars, ar), s2);
                lemma_kept_trans(st.temps, s1.temps, s2.temps, c.temps, c1.temps, c2.temps);
                (n1 + n2 + 1, s2)
            } else {
                lemma_kept_weaken(st.temps, s1.temps, c0.temps, c1.temps, c.temps, c2.temps);
                (n1, s1)
            }
        },
        _ => (0, st),
    }
}

#[verifier::spinoff_prover]
proof fn lemma_cond_or_runs(e: SpecExprD<Type>, c: Counters, fl: Seq<char>, w: Seq<SpecInstruction>, p: int, k: int, st: Store, ar: Arith) -> (res: (nat, Store))
    requires
        e.exp is Or,
        cond_supported(e),
        eval(e, st.vars, ar) matches Some(SpecLiteral::Bool(_)),
        comparisons_negate(ar),
        0 <= p,
        p + tr_cond(e, c, fl).0.len() <= w.len(),
        w.subrange(p, p + tr_cond(e, c, fl).0.len()) == tr_cond(e, c, fl).0,
        labels_distinct(w),
        0 <= k < w.len(),
        w[k] == SpecInstruction::Label(fl),
    ensures
        steps(w, p, st, ar, res.0) == Some((cond_exit(e, c, fl, p, k, st.vars, ar), res.1)),
        res.1.vars == st.vars,
        kept(st.temps, res.1.temps, c.temps, tr_cond(e, c, fl).1.temps),
    decreases e, 0nat,
{
    let code = tr_cond(e, c, fl).0;
    match e.exp {
        SpecExpr::Or(l, r) => {
            let c0 = next_label(c);
            let (la, li, c1) = tr_expr(*l, c0);
            let (ri, c2) = tr_cond(*r, c1, fl);
            lemma_expr_counters(*l, c0);
            lemma_cond_counters(*r, c1, fl);
            let ls = label_name(c.labels + 1);
            let ll = li.len() as int;
            let rl = ri.len() as int;
            let end = p + ll + 1 + rl + 1;
            assert(code.subrange(0, ll) =~= li);
            lemma_part(w, p, code, 0, li);
            let (n1, s1) = lemma_expr_runs(*l, c0, w, p, st, ar);
            lemma_at(w, p, code, ll);
            lemma_at(w, p, code, ll + 1 + rl);
            lemma_jump(w, end - 1, ls);
            lemma_kept_weaken(st.temps, s1.temps, c0.temps, c1.temps, c.temps, c2.temps);
            if value(la, s1) == Some(SpecLiteral::Bool(true)) {
                lemma_step_then(w, end - 1, s1, ar, end, s1, 0, end, s1);
                lemma_step_then(w, p + ll, s1, ar, end - 1, s1, 1, end, s1);
                lemma_then(w, p, st, ar, n1, p + ll, s1, 2, end, s1);
                (n1 + 2, s1)
            } else {
                assert(code.subrange(ll + 1, ll + 1 + rl) =~= ri);
                lemma_part(w, p, code, ll + 1, ri);
                let (n2, s2) = lemma_cond_runs(*r, c1, fl, w, p + ll + 1, k, s1, ar);
                lemma_kept_trans(st.temps, s1.temps, s2.temps, c.temps, c1.temps, c2.temps);
                if eval(*r, st.vars, ar) == Some(SpecLiteral::Bool(true)) {
                    lemma_step_then(w, end - 1, s2, ar, end, s2, 0, end, s2);
                    lemma_then(w, p + ll + 1, s1, ar, n2, end - 1, s2, 1, end, s2);
                    lemma_step_then(w, p + ll, s1, ar, p + ll + 1, s1, n2 + 1, end, s2);
                    lemma_then(w, p, st, ar, n1, p + ll, s1, n2 + 1 + 1, end, s2);
                    (n1 + n2 + 2, s2)
                } else {
                    lemma_step_then(w, p + ll, s1, ar, p + ll + 1, s1, n2, k, s2);
                    lemma_then(w, p, st, ar, n1, p + ll, s1, n2 + 1, k, s2);
                    (n1 + n2 + 1, s2)
                }
            }
        },
        _ => (0, st),
    }
}

/// Conditions whose code computes values, then makes one test.
#[verifier::spinoff_prover]
proof fn lemma_cond_test_runs(e: SpecExprD<Type>, c: Counters, fl: Seq<char>, w: Seq<SpecInstruction>, p: int, k: int, st: Store, ar: Arith) -> (res: (nat, Store))
    requires
        !(e.exp is And || e.exp is Or || e.exp is Ident || e.exp is Literal),
        cond_supported(e),
        eval(e, st.vars, ar) matches Some(SpecLiteral::Bool(_)),
        comparisons_negate(ar),
        0 <= p,
        p + tr_cond(e, c, fl).0.len() <= w.len(),
        w.subrange(p, p + tr_cond(e, c, fl).0.len()) == tr_cond(e, c, fl).0,
        labels_distinct(w),
        0 <= k < w.len(),
        w[k] == SpecInstruction::Label(fl),
    ensures
        steps(w, p, st, ar, res.0) == Some((cond_exit(e, c, fl, p, k, st.vars, ar), res.1)),
        res.1.vars == st.vars,
        kept(st.temps, res.1.temps, c.temps, tr_cond(e, c, fl).1.temps),
    decreases e, 0nat,
{
    lemma_jump(w, k, fl);
    let code = tr_cond(e, c, fl).0;
    match e.exp {
        SpecExpr::Not(x) => {
            let (a, xi, c1) = tr_expr(*x, c);
            assert(code.subrange(0, xi.len() as int) =~= xi);
            lemma_part(w, p, code, 0, xi);
            let (n1, s1) = lemma_expr_runs(*x, c, w, p, st, ar);
            lemma_at(w, p, code, xi.len() as int);
            lemma_one(w, p + xi.len(), s1, ar);
            let q = cond_exit(e, c, fl, p, k, st.vars, ar);
            lemma_then(w, p, st, ar, n1, p + xi.len(), s1, 1, q, s1);
            (n1 + 1, s1)
        },
        SpecExpr::Lt(l, r) | SpecExpr::Le(l, r) | SpecExpr::Gt(l, r) | SpecExpr::Ge(l, r)
        | SpecExpr::Eq(l, r) | SpecExpr::Ne(l, r) => {
            let (la, li, c1) = tr_expr(*l, c);
            let (ra, ri, c2) = tr_expr(*r, c1);
            lemma_expr_counters(*l, c);
            lemma_expr_counters(*r, c1);
            lemma_expr_temps(*l, c);
            let ll = li.len() as int;
            let rl = ri.len() as int;
            assert(code.subrange(0, ll) =~= li);
            lemma_part(w, p, code, 0, li);
            let (n1, s1) = lemma_expr_runs(*l, c, w, p, st, ar);
            assert(code.subrange(ll, ll + rl) =~= ri);
            lemma_part(w, p, code, ll, ri);
            let (n2, s2) = lemma_expr_runs(*r, c1, w, p + ll, s1, ar);
            lemma_value_kept(la, s1, s2, c.temps, c1.temps, c2.temps);
            lemma_at(w, p, code, ll + rl);
            let op = match e.exp {
                SpecExpr::Lt(..) => Operator::LT,
                SpecExpr::Le(..) => Operator::LTE,
                SpecExpr::Gt(..) => Operator::GT,
                SpecExpr::Ge(..) => Operator::GTE,
                SpecExpr::Eq(..) => Operator::EQ,
                _ => Operator::NE,
            };
            let b = eval(e, st.vars, ar)->Some_0->Bool_0;
            assert((ar.binary)(op, value(la, s2)->Some_0, value(ra, s2)->Some_0) == Some(SpecLiteral::Bool(b)));
            let q = cond_exit(e, c, fl, p, k, st.vars, ar);
            lemma_one(w, p + ll + rl, s2, ar);
            lemma_then(w, p, st, ar, n1, p + ll, s1, n2, p + ll + rl, s2);
            lemma_then(w, p, st, ar, n1 + n2, p + ll + rl, s2, 1, q, s2);
            lemma_kept_trans(st.temps, s1.temps, s2.temps, c.temps, c1.temps, c2.temps);
            (n1 + n2 + 1, s2)
        },
        _ => {
            let (a, xi, c1) = tr_expr(e, c);
            assert(code.subrange(0, xi.len() as int) =~= xi);
            lemma_part(w, p, code, 0, xi);
            let (n1, s1) = lemma_expr_runs(e, c, w, p, st, ar);
            lemma_at(w, p, code, xi.len() as int);
            lemma_one(w, p + xi.len(), s1, ar);
            let q = cond_exit(e, c, fl, p, k, st.vars, ar);
            lemma_then(w, p, st, ar, n1, p + xi.len(), s1, 1, q, s1);
            (n1 + 1, s1)
        },
    }
}


/// The code of an expression computes its value. Run alone from its first
/// instruction, with any values in the temporaries, it falls off its end; it
/// leaves every variable as it was (it writes temporaries only), changes no
/// temporary but those it makes, and its result address then holds the
/// expression's value. `and` and `or` run the code of their right operand
/// only when the left one does not decide. This holds for every meaning of
/// the operators, shared by the expression and its code.
pub proof fn law_expression_code_computes_its_value(e: SpecExprD<Type>, c: Counters, st: Store, ar: Arith)
    requires
        expr_supported(e),
        eval(e, st.vars, ar) is Some,
    ensures
        exists|n: nat|
            (#[trigger] steps(tr_expr(e, c).1, 0, st, ar, n)) matches Some((pc, st2))
            && pc == tr_expr(e, c).1.len()
            && st2.vars == st.vars
            && value(tr_expr(e, c).0, st2) == eval(e, st.vars, ar)
            && kept(st.temps, st2.temps, c.temps, tr_expr(e, c).2.temps),
{
    let code = tr_expr(e, c).1;
    lemma_expr_fresh(e, c);
    reveal(labels_fresh);
    assert(code.subrange(0, code.len() as int) =~= code);
    let (n, st2) = lemma_expr_runs(e, c, code, 0, st, ar);
    assert(steps(code, 0, st, ar, n) == Some((code.len() as int, st2)));
}

/// The code of a condition tests it. Placed at position `p` of code `w`
/// whose labels are each defined once, one of them the label `fl` (at `k`),
/// and run from its first instruction, it goes on past its end when the
/// condition holds and jumps to `fl` when it does not, leaving every
/// variable as it was and changing no temporary but those it makes. The
/// comparisons are tested through their negations, so the meaning of the
/// operators must give each comparison the opposite answer of its negation.
pub proof fn law_condition_code_tests_it(e: SpecExprD<Type>, c: Counters, fl: Seq<char>, w: Seq<SpecInstruction>, p: int, k: int, st: Store, ar: Arith)
    requires
        cond_supported(e),
        eval(e, st.vars, ar) matches Some(SpecLiteral::Bool(_)),
        comparisons_negate(ar),
        0 <= p,
        p + tr_cond(e, c, fl).0.len() <= w.len(),
        w.subrange(p, p + tr_cond(e, c, fl).0.len()) == tr_cond(e, c, fl).0,
        labels_distinct(w),
        0 <= k < w.len(),
        w[k] == SpecInstruction::Label(fl),
    ensures
        exists|n: nat|
            (#[trigger] steps(w, p, st, ar, n)) matches Some((pc, st2))
            && pc == (if eval(e, st.vars, ar) == Some(SpecLiteral::Bool(true)) { p + tr_cond(e, c, fl).0.len() } else { k })
            && st2.vars == st.vars
            && kept(st.temps, st2.temps, c.temps, tr_cond(e, c, fl).1.temps),
{
    let (n, st2) = lemma_cond_runs(e, c, fl, w, p, k, st, ar);
    assert(steps(w, p, st, ar, n) == Some((cond_exit(e, c, fl, p, k, st.vars, ar), st2)));
}

} // verus!
