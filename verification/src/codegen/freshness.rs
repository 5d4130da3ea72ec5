//! Every label and temporary that the generator emits is new: the code of a
//! statement defines each of its labels once, and names its labels and
//! temporaries after numbers drawn from the counters.

use vstd::prelude::*;
use crate::codegen::tac_code_gen::{
    bool_constant, label_name, lemma_args_counters, lemma_cond_counters, lemma_expr_counters,
    lemma_opt_stmt_counters, lemma_stmt_counters, lemma_stmts_counters, negated, next_label,
    next_temp, params_code, temp_name, tr_args, tr_cond, tr_expr, tr_opt_stmt, tr_stmt, tr_stmts,
    Counters,
};
use crate::ir::ast::{SpecExpr, SpecExprD, SpecLiteral, SpecStatement, SpecStatementD, Type};
use crate::ir::tac::{instruction_addresses, Operator, SpecAddress, SpecInstruction};
use crate::text::{decimal, digit_char};

verus! {

proof fn lemma_decimal_nonempty(n: nat)
    ensures
        decimal(n).len() >= 1,
        n >= 10 ==> decimal(n).len() >= 2,
    decreases n,
{
    if n >= 10 {
        lemma_decimal_nonempty(n / 10);
    }
}

proof fn lemma_decimal_injective(a: nat, b: nat)
    ensures
        decimal(a) == decimal(b) ==> a == b,
    decreases a,
{
    lemma_decimal_nonempty(a);
    lemma_decimal_nonempty(b);
    if decimal(a) == decimal(b) && a < 10 && b < 10 {
        assert(decimal(a)[0] == digit_char(a));
        assert(decimal(b)[0] == digit_char(b));
    }
    if decimal(a) == decimal(b) && a >= 10 && b >= 10 {
        assert(decimal(a / 10) =~= decimal(a).drop_last());
        assert(decimal(b / 10) =~= decimal(b).drop_last());
        lemma_decimal_injective(a / 10, b / 10);
        assert(decimal(a).last() == digit_char(a % 10));
        assert(decimal(b).last() == digit_char(b % 10));
        assert(a % 10 == b % 10);
        assert(a == 10 * (a / 10) + a % 10);
        assert(b == 10 * (b / 10) + b % 10);
    }
}

/// Distinct numbers give distinct label names.
pub proof fn lemma_label_name_injective(a: nat, b: nat)
    ensures
        label_name(a) == label_name(b) ==> a == b,
{
    reveal_strlit("Label");
    reveal_strlit(":");
    if label_name(a) == label_name(b) {
        let x = label_name(a);
        assert(decimal(a) =~= x.subrange(5, x.len() - 1));
        assert(decimal(b) =~= x.subrange(5, x.len() - 1));
        lemma_decimal_injective(a, b);
    }
}


/// The label numbers above `lo`, up to `hi`.
pub open spec fn span(lo: nat, hi: nat) -> Set<nat> {
    Set::new(|n: nat| lo < n <= hi)
}

/// No label is defined twice in `code`.
pub open spec fn labels_distinct(code: Seq<SpecInstruction>) -> bool {
    forall|i: int, j: int| 0 <= i < j < code.len() && (#[trigger] code[i]) is Label ==> code[i] != #[trigger] code[j]
}

/// Each label of `code` is named after a number of `ns`.
pub open spec fn labels_among(code: Seq<SpecInstruction>, ns: Set<nat>) -> bool {
    forall|k: int| 0 <= k < code.len() && (#[trigger] code[k]) is Label ==>
        exists|n: nat| ns.contains(n) && code[k] == SpecInstruction::Label(#[trigger] label_name(n))
}

/// Every number of `ns` names a label that `code` defines.
pub open spec fn labels_cover(code: Seq<SpecInstruction>, ns: Set<nat>) -> bool {
    forall|n: nat| #[trigger] ns.contains(n) ==>
        exists|k: int| 0 <= k < code.len() && #[trigger] code[k] == SpecInstruction::Label(label_name(n))
}

/// The labels of `code` are named after the numbers of `ns`, each defined
/// exactly once.
#[verifier::opaque]
pub open spec fn labels_fresh(code: Seq<SpecInstruction>, ns: Set<nat>) -> bool {
    labels_among(code, ns) && labels_distinct(code) && labels_cover(code, ns)
}

proof fn lemma_fresh_concat(a: Seq<SpecInstruction>, b: Seq<SpecInstruction>, s1: Set<nat>, s2: Set<nat>)
    requires
        labels_fresh(a, s1),
        labels_fresh(b, s2),
        s1.disjoint(s2),
    ensures
        labels_fresh(a + b, s1.union(s2)),
{
    reveal(labels_fresh);
    let ab = a + b;
    let s = s1.union(s2);
    assert forall|k: int| 0 <= k < ab.len() && (#[trigger] ab[k]) is Label implies
        exists|n: nat| s.contains(n) && ab[k] == SpecInstruction::Label(#[trigger] label_name(n)) by {
        if k < a.len() {
            assert(ab[k] == a[k]);
            let n = choose|n: nat| s1.contains(n) && a[k] == SpecInstruction::Label(#[trigger] label_name(n));
            assert(s.contains(n));
        } else {
            assert(ab[k] == b[k - a.len()]);
            let n = choose|n: nat| s2.contains(n) && b[k - a.len()] == SpecInstruction::Label(#[trigger] label_name(n));
            assert(s.contains(n));
        }
    }
    assert forall|i: int, j: int| 0 <= i < j < ab.len() && (#[trigger] ab[i]) is Label implies ab[i] != #[trigger] ab[j] by {
        if j < a.len() {
            assert(ab[i] == a[i] && ab[j] == a[j]);
        } else if i >= a.len() {
            assert(ab[i] == b[i - a.len()]);
            assert(ab[j] == b[j - a.len()]);
        } else {
            assert(ab[i] == a[i]);
            assert(ab[j] == b[j - a.len()]);
            if ab[i] == ab[j] {
                let n1 = choose|n: nat| s1.contains(n) && a[i] == SpecInstruction::Label(#[trigger] label_name(n));
                let n2 = choose|n: nat| s2.contains(n) && b[j - a.len()] == SpecInstruction::Label(#[trigger] label_name(n));
                lemma_label_name_injective(n1, n2);
            }
        }
    }
    assert forall|n: nat| #[trigger] s.contains(n) implies
        exists|k: int| 0 <= k < ab.len() && #[trigger] ab[k] == SpecInstruction::Label(label_name(n)) by {
        if s1.contains(n) {
            let k = choose|k: int| 0 <= k < a.len() && #[trigger] a[k] == SpecInstruction::Label(label_name(n));
            assert(ab[k] == a[k]);
        } else {
            let k = choose|k: int| 0 <= k < b.len() && #[trigger] b[k] == SpecInstruction::Label(label_name(n));
            assert(ab[k + a.len()] == b[k]);
        }
    }
}

proof fn lemma_fresh_weaken(a: Seq<SpecInstruction>, s: Set<nat>, t: Set<nat>)
    requires
        labels_fresh(a, s),
        s.subset_of(t),
        t.subset_of(s),
    ensures
        labels_fresh(a, t),
{
    reveal(labels_fresh);
    assert forall|n: nat| #[trigger] t.contains(n) implies
        exists|k: int| 0 <= k < a.len() && #[trigger] a[k] == SpecInstruction::Label(label_name(n)) by {
        assert(s.contains(n));
        let k = choose|k: int| 0 <= k < a.len() && #[trigger] a[k] == SpecInstruction::Label(label_name(n));
        assert(a[k] == SpecInstruction::Label(label_name(n)));
    }
    assert forall|k: int| 0 <= k < a.len() && (#[trigger] a[k]) is Label implies
        exists|n: nat| t.contains(n) && a[k] == SpecInstruction::Label(#[trigger] label_name(n)) by {
        let n = choose|n: nat| s.contains(n) && a[k] == SpecInstruction::Label(#[trigger] label_name(n));
        assert(t.contains(n));
    }
}

proof fn lemma_fresh_empty(s: Set<nat>)
    requires
        forall|n: nat| !s.contains(n),
    ensures
        labels_fresh(Seq::<SpecInstruction>::empty(), s),
{
    reveal(labels_fresh);
}

/// Code followed by an instruction that is no label.
proof fn lemma_fresh_plain(a: Seq<SpecInstruction>, s: Set<nat>, x: SpecInstruction)
    requires
        labels_fresh(a, s),
        !(x is Label),
    ensures
        labels_fresh(a.push(x), s),
{
    reveal(labels_fresh);
    let ax = a.push(x);
    assert forall|k: int| 0 <= k < ax.len() && (#[trigger] ax[k]) is Label implies
        exists|n: nat| s.contains(n) && ax[k] == SpecInstruction::Label(#[trigger] label_name(n)) by {
        assert(ax[k] == a[k]);
    }
    assert forall|i: int, j: int| 0 <= i < j < ax.len() && (#[trigger] ax[i]) is Label implies ax[i] != #[trigger] ax[j] by {
        assert(ax[i] == a[i]);
        if j < a.len() {
            assert(ax[j] == a[j]);
        }
    }
    assert forall|n: nat| #[trigger] s.contains(n) implies
        exists|k: int| 0 <= k < ax.len() && #[trigger] ax[k] == SpecInstruction::Label(label_name(n)) by {
        let k = choose|k: int| 0 <= k < a.len() && #[trigger] a[k] == SpecInstruction::Label(label_name(n));
        assert(ax[k] == a[k]);
    }
}

/// Code followed by the label of a number it does not use yet.
proof fn lemma_fresh_label(a: Seq<SpecInstruction>, s: Set<nat>, n: nat)
    requires
        labels_fresh(a, s),
        !s.contains(n),
    ensures
        labels_fresh(a.push(SpecInstruction::Label(label_name(n))), s.insert(n)),
{
    reveal(labels_fresh);
    let x = SpecInstruction::Label(label_name(n));
    let ax = a.push(x);
    let t = s.insert(n);
    assert forall|k: int| 0 <= k < ax.len() && (#[trigger] ax[k]) is Label implies
        exists|m: nat| t.contains(m) && ax[k] == SpecInstruction::Label(#[trigger] label_name(m)) by {
        if k < a.len() {
            assert(ax[k] == a[k]);
            let m = choose|m: nat| s.contains(m) && a[k] == SpecInstruction::Label(#[trigger] label_name(m));
            assert(t.contains(m));
        } else {
            assert(t.contains(n));
        }
    }
    assert forall|i: int, j: int| 0 <= i < j < ax.len() && (#[trigger] ax[i]) is Label implies ax[i] != #[trigger] ax[j] by {
        assert(ax[i] == a[i]);
        if j < a.len() {
            assert(ax[j] == a[j]);
        } else if ax[i] == ax[j] {
            let m = choose|m: nat| s.contains(m) && a[i] == SpecInstruction::Label(#[trigger] label_name(m));
            lemma_label_name_injective(m, n);
        }
    }
    assert forall|m: nat| #[trigger] t.contains(m) implies
        exists|k: int| 0 <= k < ax.len() && #[trigger] ax[k] == SpecInstruction::Label(label_name(m)) by {
        if m == n {
            assert(ax[a.len() as int] == x);
        } else {
            let k = choose|k: int| 0 <= k < a.len() && #[trigger] a[k] == SpecInstruction::Label(label_name(m));
            assert(ax[k] == a[k]);
        }
    }
}

/// Two pieces of code with adjacent number ranges, one after the other.
proof fn lemma_fresh_join(a: Seq<SpecInstruction>, b: Seq<SpecInstruction>, lo: nat, mid: nat, hi: nat)
    requires
        labels_fresh(a, span(lo, mid)),
        labels_fresh(b, span(mid, hi)),
        lo <= mid <= hi,
    ensures
        labels_fresh(a + b, span(lo, hi)),
{
    lemma_fresh_concat(a, b, span(lo, mid), span(mid, hi));
    lemma_fresh_weaken(a + b, span(lo, mid).union(span(mid, hi)), span(lo, hi));
}


/// One instruction that is no label.
proof fn lemma_fresh_single(x: SpecInstruction, s: Set<nat>)
    requires
        !(x is Label),
        forall|n: nat| !s.contains(n),
    ensures
        labels_fresh(seq![x], s),
{
    lemma_fresh_empty(s);
    lemma_fresh_plain(Seq::empty(), s, x);
    assert(seq![x] =~= Seq::<SpecInstruction>::empty().push(x));
}

/// The code of a binary operation: both operands, then one more instruction.
proof fn lemma_fresh_binary(li: Seq<SpecInstruction>, ri: Seq<SpecInstruction>, x: SpecInstruction, lo: nat, mid: nat, hi: nat)
    requires
        labels_fresh(li, span(lo, mid)),
        labels_fresh(ri, span(mid, hi)),
        lo <= mid <= hi,
        !(x is Label),
    ensures
        labels_fresh((li + ri).push(x), span(lo, hi)),
{
    lemma_fresh_join(li, ri, lo, mid, hi);
    lemma_fresh_plain(li + ri, span(lo, hi), x);
}

proof fn lemma_not_fresh(xi: Seq<SpecInstruction>, a: SpecAddress, t: SpecAddress, lo: nat, m: nat)
    requires
        labels_fresh(xi, span(lo, m)),
        lo <= m,
    ensures
        labels_fresh(xi.push(SpecInstruction::ConditionalJMPFalse(a, label_name(m + 1))).push(SpecInstruction::CopyAssignment(t, bool_constant(false))).push(SpecInstruction::JMP(label_name(m + 2))).push(SpecInstruction::Label(label_name(m + 1))).push(SpecInstruction::CopyAssignment(t, bool_constant(true))).push(SpecInstruction::Label(label_name(m + 2))), span(lo, m + 2)),
{
    let s0 = span(lo, m);
    let k1 = xi.push(SpecInstruction::ConditionalJMPFalse(a, label_name(m + 1)));
    lemma_fresh_plain(xi, s0, SpecInstruction::ConditionalJMPFalse(a, label_name(m + 1)));
    let k2 = k1.push(SpecInstruction::CopyAssignment(t, bool_constant(false)));
    lemma_fresh_plain(k1, s0, SpecInstruction::CopyAssignment(t, bool_constant(false)));
    let k3 = k2.push(SpecInstruction::JMP(label_name(m + 2)));
    lemma_fresh_plain(k2, s0, SpecInstruction::JMP(label_name(m + 2)));
    let k4 = k3.push(SpecInstruction::Label(label_name(m + 1)));
    lemma_fresh_label(k3, s0, m + 1);
    let s1 = s0.insert(m + 1);
    let k5 = k4.push(SpecInstruction::CopyAssignment(t, bool_constant(true)));
    lemma_fresh_plain(k4, s1, SpecInstruction::CopyAssignment(t, bool_constant(true)));
    lemma_fresh_label(k5, s1, m + 2);
    lemma_fresh_weaken(k5.push(SpecInstruction::Label(label_name(m + 2))), s1.insert(m + 2), span(lo, m + 2));
}

proof fn lemma_or_fresh(li: Seq<SpecInstruction>, ri: Seq<SpecInstruction>, la: SpecAddress, ra: SpecAddress, t: SpecAddress, lo: nat, mid: nat, m: nat)
    requires
        labels_fresh(li, span(lo, mid)),
        labels_fresh(ri, span(mid, m)),
        lo <= mid <= m,
    ensures
        labels_fresh((li.push(SpecInstruction::ConditionalJMPFalse(la, label_name(m + 2))).push(SpecInstruction::JMP(label_name(m + 1))).push(SpecInstruction::Label(label_name(m + 2))) + ri).push(SpecInstruction::ConditionalJMP(ra, label_name(m + 1))).push(SpecInstruction::CopyAssignment(t, bool_constant(false))).push(SpecInstruction::JMP(label_name(m + 3))).push(SpecInstruction::Label(label_name(m + 1))).push(SpecInstruction::CopyAssignment(t, bool_constant(true))).push(SpecInstruction::Label(label_name(m + 3))), span(lo, m + 3)),
{
    let s0 = span(lo, mid);
    let k1 = li.push(SpecInstruction::ConditionalJMPFalse(la, label_name(m + 2)));
    lemma_fresh_plain(li, s0, SpecInstruction::ConditionalJMPFalse(la, label_name(m + 2)));
    let k2 = k1.push(SpecInstruction::JMP(label_name(m + 1)));
    lemma_fresh_plain(k1, s0, SpecInstruction::JMP(label_name(m + 1)));
    let k3 = k2.push(SpecInstruction::Label(label_name(m + 2)));
    lemma_fresh_label(k2, s0, m + 2);
    let s1 = s0.insert(m + 2);
    lemma_fresh_concat(k3, ri, s1, span(mid, m));
    let s2 = s1.union(span(mid, m));
    let k4 = k3 + ri;
    let k5 = k4.push(SpecInstruction::ConditionalJMP(ra, label_name(m + 1)));
    lemma_fresh_plain(k4, s2, SpecInstruction::ConditionalJMP(ra, label_name(m + 1)));
    let k6 = k5.push(SpecInstruction::CopyAssignment(t, bool_constant(false)));
    lemma_fresh_plain(k5, s2, SpecInstruction::CopyAssignment(t, bool_constant(false)));
    let k7 = k6.push(SpecInstruction::JMP(label_name(m + 3)));
    lemma_fresh_plain(k6, s2, SpecInstruction::JMP(label_name(m + 3)));
    let k8 = k7.push(SpecInstruction::Label(label_name(m + 1)));
    lemma_fresh_label(k7, s2, m + 1);
    let s3 = s2.insert(m + 1);
    let k9 = k8.push(SpecInstruction::CopyAssignment(t, bool_constant(true)));
    lemma_fresh_plain(k8, s3, SpecInstruction::CopyAssignment(t, bool_constant(true)));
    lemma_fresh_label(k9, s3, m + 3);
    lemma_fresh_weaken(k9.push(SpecInstruction::Label(label_name(m + 3))), s3.insert(m + 3), span(lo, m + 3));
}

proof fn lemma_and_fresh(li: Seq<SpecInstruction>, ri: Seq<SpecInstruction>, la: SpecAddress, ra: SpecAddress, t: SpecAddress, lo: nat, mid: nat, m: nat)
    requires
        labels_fresh(li, span(lo, mid)),
        labels_fresh(ri, span(mid, m)),
        lo <= mid <= m,
    ensures
        labels_fresh((li.push(SpecInstruction::ConditionalJMPFalse(la, label_name(m + 1))) + ri).push(SpecInstruction::ConditionalJMPFalse(ra, label_name(m + 1))).push(SpecInstruction::CopyAssignment(t, bool_constant(true))).push(SpecInstruction::JMP(label_name(m + 2))).push(SpecInstruction::Label(label_name(m + 1))).push(SpecInstruction::CopyAssignment(t, bool_constant(false))).push(SpecInstruction::Label(label_name(m + 2))), span(lo, m + 2)),
{
    let k1 = li.push(SpecInstruction::ConditionalJMPFalse(la, label_name(m + 1)));
    lemma_fresh_plain(li, span(lo, mid), SpecInstruction::ConditionalJMPFalse(la, label_name(m + 1)));
    lemma_fresh_join(k1, ri, lo, mid, m);
    let s0 = span(lo, m);
    let k2 = k1 + ri;
    let k3 = k2.push(SpecInstruction::ConditionalJMPFalse(ra, label_name(m + 1)));
    lemma_fresh_plain(k2, s0, SpecInstruction::ConditionalJMPFalse(ra, label_name(m + 1)));
    let k4 = k3.push(SpecInstruction::CopyAssignment(t, bool_constant(true)));
    lemma_fresh_plain(k3, s0, SpecInstruction::CopyAssignment(t, bool_constant(true)));
    let k5 = k4.push(SpecInstruction::JMP(label_name(m + 2)));
    lemma_fresh_plain(k4, s0, SpecInstruction::JMP(label_name(m + 2)));
    let k6 = k5.push(SpecInstruction::Label(label_name(m + 1)));
    lemma_fresh_label(k5, s0, m + 1);
    let s1 = s0.insert(m + 1);
    let k7 = k6.push(SpecInstruction::CopyAssignment(t, bool_constant(false)));
    lemma_fresh_plain(k6, s1, SpecInstruction::CopyAssignment(t, bool_constant(false)));
    lemma_fresh_label(k7, s1, m + 2);
    lemma_fresh_weaken(k7.push(SpecInstruction::Label(label_name(m + 2))), s1.insert(m + 2), span(lo, m + 2));
}

/// The code of an expression uses label numbers above the counter it starts
/// from, up to the one it leaves, each once.
#[verifier::spinoff_prover]
pub proof fn lemma_expr_fresh(e: SpecExprD<Type>, c: Counters)
    ensures
        labels_fresh(tr_expr(e, c).1, span(c.labels, tr_expr(e, c).2.labels)),
    decreases e,
{
    match e.exp {
        SpecExpr::Not(x) => {
            lemma_expr_fresh(*x, c);
            lemma_expr_counters(*x, c);
            let (a, xi, c1) = tr_expr(*x, c);
            let t = SpecAddress::Temporary(temp_name(c1.temps + 1), Type::Bool);
            lemma_not_fresh(xi, a, t, c.labels, c1.labels);
        },
        SpecExpr::Or(l, r) => {
            lemma_expr_fresh(*l, c);
            lemma_expr_counters(*l, c);
            let (la, li, c1) = tr_expr(*l, c);
            lemma_expr_fresh(*r, c1);
            lemma_expr_counters(*r, c1);
            let (ra, ri, c2) = tr_expr(*r, c1);
            let t = SpecAddress::Temporary(temp_name(c2.temps + 1), Type::Bool);
            lemma_or_fresh(li, ri, la, ra, t, c.labels, c1.labels, c2.labels);
        },
        SpecExpr::And(l, r) => {
            lemma_expr_fresh(*l, c);
            lemma_expr_counters(*l, c);
            let (la, li, c1) = tr_expr(*l, c);
            lemma_expr_fresh(*r, c1);
            lemma_expr_counters(*r, c1);
            let (ra, ri, c2) = tr_expr(*r, c1);
            let t = SpecAddress::Temporary(temp_name(c2.temps + 1), Type::Bool);
            lemma_and_fresh(li, ri, la, ra, t, c.labels, c1.labels, c2.labels);
        },
        SpecExpr::Add(l, r) | SpecExpr::Sub(l, r) | SpecExpr::Mul(l, r) | SpecExpr::Div(l, r) => {
            lemma_expr_fresh(*l, c);
            lemma_expr_counters(*l, c);
            let (la, li, c1) = tr_expr(*l, c);
            lemma_expr_fresh(*r, c1);
            lemma_expr_counters(*r, c1);
            let (ra, ri, c2) = tr_expr(*r, c1);
            let t = SpecAddress::Temporary(temp_name(c2.temps + 1), e.ty);
            let op = match e.exp {
                SpecExpr::Add(..) => Operator::Add,
                SpecExpr::Sub(..) => Operator::Sub,
                SpecExpr::Mul(..) => Operator::Mul,
                _ => Operator::Div,
            };
            lemma_fresh_binary(li, ri, SpecInstruction::BinaryAssignment(op, t, la, ra), c.labels, c1.labels, c2.labels);
        },
        SpecExpr::Neg(x) => {
            lemma_expr_fresh(*x, c);
            let (a, xi, c1) = tr_expr(*x, c);
            let t = SpecAddress::Temporary(temp_name(c1.temps + 1), e.ty);
            lemma_fresh_plain(xi, span(c.labels, c1.labels), SpecInstruction::UnaryAssignment(Operator::Neg, t, a));
        },
        _ => lemma_fresh_empty(span(c.labels, c.labels)),
    }
}


/// The code of a condition uses label numbers above the counter it starts
/// from, up to the one it leaves, each once.
#[verifier::spinoff_prover]
#[verifier::rlimit(80)]
pub proof fn lemma_cond_fresh(e: SpecExprD<Type>, c: Counters, fl: Seq<char>)
    ensures
        labels_fresh(tr_cond(e, c, fl).0, span(c.labels, tr_cond(e, c, fl).1.labels)),
    decreases e,
{
    let s0 = span(c.labels, c.labels);
    match e.exp {
        SpecExpr::Literal(SpecLiteral::Bool(true)) => lemma_fresh_empty(s0),
        SpecExpr::Literal(SpecLiteral::Bool(false)) => lemma_fresh_single(SpecInstruction::JMP(fl), s0),
        SpecExpr::Ident(n) => lemma_fresh_single(SpecInstruction::ConditionalJMPFalse(SpecAddress::Variable(n, e.ty), fl), s0),
        SpecExpr::And(l, r) => {
            let c0 = next_label(c);
            lemma_cond_fresh(*l, c0, fl);
            lemma_cond_counters(*l, c0, fl);
            let (li, c1) = tr_cond(*l, c0, fl);
            lemma_cond_fresh(*r, c1, fl);
            lemma_cond_counters(*r, c1, fl);
            let (ri, c2) = tr_cond(*r, c1, fl);
            let n = c.labels + 1;
            lemma_fresh_label(li, span(n, c1.labels), n);
            let s1 = span(n, c1.labels).insert(n);
            lemma_fresh_concat(li.push(SpecInstruction::Label(label_name(n))), ri, s1, span(c1.labels, c2.labels));
            lemma_fresh_weaken(li.push(SpecInstruction::Label(label_name(n))) + ri, s1.union(span(c1.labels, c2.labels)), span(c.labels, c2.labels));
        },
        SpecExpr::Or(l, r) => {
            let c0 = next_label(c);
            lemma_expr_fresh(*l, c0);
            lemma_expr_counters(*l, c0);
            let (la, li, c1) = tr_expr(*l, c0);
            lemma_cond_fresh(*r, c1, fl);
            lemma_cond_counters(*r, c1, fl);
            let (ri, c2) = tr_cond(*r, c1, fl);
            let n = c.labels + 1;
            let j = SpecInstruction::ConditionalJMP(la, label_name(n));
            lemma_fresh_plain(li, span(n, c1.labels), j);
            lemma_fresh_join(li.push(j), ri, n, c1.labels, c2.labels);
            lemma_fresh_label(li.push(j) + ri, span(n, c2.labels), n);
            lemma_fresh_weaken((li.push(j) + ri).push(SpecInstruction::Label(label_name(n))), span(n, c2.labels).insert(n), span(c.labels, c2.labels));
        },
        SpecExpr::Not(x) => {
            lemma_expr_fresh(*x, c);
            let (a, xi, c1) = tr_expr(*x, c);
            lemma_fresh_plain(xi, span(c.labels, c1.labels), SpecInstruction::ConditionalJMP(a, fl));
        },
        SpecExpr::Lt(l, r) | SpecExpr::Le(l, r) | SpecExpr::Gt(l, r) | SpecExpr::Ge(l, r)
        | SpecExpr::Eq(l, r) | SpecExpr::Ne(l, r) => {
            lemma_expr_fresh(*l, c);
            lemma_expr_counters(*l, c);
            let (la, li, c1) = tr_expr(*l, c);
            lemma_expr_fresh(*r, c1);
            lemma_expr_counters(*r, c1);
            let (ra, ri, c2) = tr_expr(*r, c1);
            let op = match e.exp {
                SpecExpr::Lt(..) => Operator::LT,
                SpecExpr::Le(..) => Operator::LTE,
                SpecExpr::Gt(..) => Operator::GT,
                SpecExpr::Ge(..) => Operator::GTE,
                SpecExpr::Eq(..) => Operator::EQ,
                _ => Operator::NE,
            };
            lemma_fresh_binary(li, ri, SpecInstruction::ConditionalJMPRelational(negated(op), la, ra, fl), c.labels, c1.labels, c2.labels);
        },
        _ => {
            lemma_expr_fresh(e, c);
            let (a, xi, c1) = tr_expr(e, c);
            lemma_fresh_plain(xi, span(c.labels, c1.labels), SpecInstruction::ConditionalJMPFalse(a, fl));
        },
    }
}


proof fn lemma_args_fresh(args: Seq<SpecExprD<Type>>, c: Counters)
    ensures
        labels_fresh(tr_args(args, c).1, span(c.labels, tr_args(args, c).2.labels)),
    decreases args.len(),
{
    if args.len() == 0 {
        lemma_fresh_empty(span(c.labels, c.labels));
    } else {
        lemma_args_fresh(args.drop_last(), c);
        lemma_args_counters(args.drop_last(), c);
        let (addrs, code, c1) = tr_args(args.drop_last(), c);
        lemma_expr_fresh(args.last(), c1);
        lemma_expr_counters(args.last(), c1);
        lemma_fresh_join(code, tr_expr(args.last(), c1).1, c.labels, c1.labels, tr_expr(args.last(), c1).2.labels);
    }
}

proof fn lemma_params_fresh(addrs: Seq<SpecAddress>)
    ensures
        labels_fresh(params_code(addrs), Set::empty()),
{
    reveal(labels_fresh);
    let p = params_code(addrs);
    assert forall|k: int| 0 <= k < p.len() implies !(#[trigger] p[k] is Label) by {
        assert(p[k] == SpecInstruction::Param(addrs[k]));
    }
}

proof fn lemma_opt_stmt_fresh(s: Option<Box<SpecStatementD<Type>>>, c: Counters)
    ensures
        labels_fresh(tr_opt_stmt(s, c).0, span(c.labels, tr_opt_stmt(s, c).1.labels)),
    decreases s, 2nat,
{
    match s {
        Some(x) => lemma_stmt_fresh(*x, c),
        None => lemma_fresh_empty(span(c.labels, c.labels)),
    }
}

#[verifier::spinoff_prover]
#[verifier::rlimit(80)]
proof fn lemma_if_fresh(s: SpecStatementD<Type>, c: Counters)
    requires
        s.stmt is If,
    ensures
        labels_fresh(tr_stmt(s, c).0, span(c.labels, tr_stmt(s, c).1.labels)),
    decreases s, 0nat,
{
    match s.stmt {
        SpecStatement::If { cond, then_branch, else_branch } => match else_branch {
            Some(e) => {
                let n = c.labels;
                let le = label_name(n + 1);
                let lend = label_name(n + 2);
                let c0 = next_label(next_label(c));
                lemma_cond_fresh(*cond, c0, le);
                lemma_cond_counters(*cond, c0, le);
                let (ci, c1) = tr_cond(*cond, c0, le);
                lemma_stmt_fresh(*then_branch, c1);
                lemma_stmt_counters(*then_branch, c1);
                let (ti, c2) = tr_stmt(*then_branch, c1);
                lemma_stmt_fresh(*e, c2);
                lemma_stmt_counters(*e, c2);
                let (ei, c3) = tr_stmt(*e, c2);
                lemma_fresh_join(ci, ti, n + 2, c1.labels, c2.labels);
                let k1 = (ci + ti).push(SpecInstruction::JMP(lend));
                lemma_fresh_plain(ci + ti, span(n + 2, c2.labels), SpecInstruction::JMP(lend));
                lemma_fresh_label(k1, span(n + 2, c2.labels), n + 1);
                let s1 = span(n + 2, c2.labels).insert(n + 1);
                let k2 = k1.push(SpecInstruction::Label(le));
                lemma_fresh_concat(k2, ei, s1, span(c2.labels, c3.labels));
                let s2 = s1.union(span(c2.labels, c3.labels));
                lemma_fresh_label(k2 + ei, s2, n + 2);
                lemma_fresh_weaken((k2 + ei).push(SpecInstruction::Label(lend)), s2.insert(n + 2), span(n, c3.labels));
            },
            None => {
                let n = c.labels;
                let lend = label_name(n + 1);
                let c0 = next_label(c);
                lemma_cond_fresh(*cond, c0, lend);
                lemma_cond_counters(*cond, c0, lend);
                let (ci, c1) = tr_cond(*cond, c0, lend);
                lemma_stmt_fresh(*then_branch, c1);
                lemma_stmt_counters(*then_branch, c1);
                let (ti, c2) = tr_stmt(*then_branch, c1);
                lemma_fresh_join(ci, ti, n + 1, c1.labels, c2.labels);
                lemma_fresh_label(ci + ti, span(n + 1, c2.labels), n + 1);
                lemma_fresh_weaken((ci + ti).push(SpecInstruction::Label(lend)), span(n + 1, c2.labels).insert(n + 1), span(n, c2.labels));
            },
        },
        _ => {},
    }
}

#[verifier::spinoff_prover]
#[verifier::rlimit(80)]
proof fn lemma_while_fresh(s: SpecStatementD<Type>, c: Counters)
    requires
        s.stmt is While,
    ensures
        labels_fresh(tr_stmt(s, c).0, span(c.labels, tr_stmt(s, c).1.labels)),
    decreases s, 0nat,
{
    match s.stmt {
        SpecStatement::While { cond, body } => {
            let n = c.labels;
            let lt = label_name(n + 1);
            let le = label_name(n + 2);
            let c0 = next_label(next_label(c));
            lemma_cond_fresh(*cond, c0, le);
            lemma_cond_counters(*cond, c0, le);
            let (ci, c1) = tr_cond(*cond, c0, le);
            lemma_stmt_fresh(*body, c1);
            lemma_stmt_counters(*body, c1);
            let (bi, c2) = tr_stmt(*body, c1);
            lemma_fresh_empty(Set::empty());
            lemma_fresh_label(Seq::empty(), Set::empty(), n + 1);
            let first = seq![SpecInstruction::Label(lt)];
            assert(first =~= Seq::<SpecInstruction>::empty().push(SpecInstruction::Label(lt)));
            let u0 = Set::<nat>::empty().insert(n + 1);
            lemma_fresh_join(ci, bi, n + 2, c1.labels, c2.labels);
            lemma_fresh_concat(first, ci + bi, u0, span(n + 2, c2.labels));
            assert(first + ci + bi =~= first + (ci + bi));
            let u1 = u0.union(span(n + 2, c2.labels));
            lemma_fresh_plain(first + ci + bi, u1, SpecInstruction::JMP(lt));
            lemma_fresh_label((first + ci + bi).push(SpecInstruction::JMP(lt)), u1, n + 2);
            lemma_fresh_weaken((first + ci + bi).push(SpecInstruction::JMP(lt)).push(SpecInstruction::Label(le)), u1.insert(n + 2), span(n, c2.labels));
        },
        _ => {},
    }
}

#[verifier::spinoff_prover]
#[verifier::rlimit(80)]
proof fn lemma_for_fresh(s: SpecStatementD<Type>, c: Counters)
    requires
        s.stmt is For,
    ensures
        labels_fresh(tr_stmt(s, c).0, span(c.labels, tr_stmt(s, c).1.labels)),
    decreases s, 0nat,
{
    match s.stmt {
        SpecStatement::For { init, cond, update, body } => {
            let n = c.labels;
            let lt = label_name(n + 1);
            let le = label_name(n + 2);
            let c0 = next_label(next_label(c));
            lemma_opt_stmt_fresh(init, c0);
            lemma_opt_stmt_counters(init, c0);
            let (ii, c1) = tr_opt_stmt(init, c0);
            let head = ii.push(SpecInstruction::Label(lt));
            lemma_fresh_label(ii, span(n + 2, c1.labels), n + 1);
            let h = span(n + 2, c1.labels).insert(n + 1);
            let c2 = match cond {
                Some(x) => tr_cond(*x, c1, le).1,
                None => c1,
            };
            let hc = match cond {
                Some(x) => head + tr_cond(*x, c1, le).0,
                None => head,
            };
            match cond {
                Some(x) => {
                    lemma_cond_fresh(*x, c1, le);
                    lemma_cond_counters(*x, c1, le);
                    lemma_fresh_concat(head, tr_cond(*x, c1, le).0, h, span(c1.labels, c2.labels));
                    lemma_fresh_weaken(hc, h.union(span(c1.labels, c2.labels)), span(n + 2, c2.labels).insert(n + 1));
                },
                None => {
                    lemma_fresh_weaken(hc, h, span(n + 2, c2.labels).insert(n + 1));
                },
            }
            let k = span(n + 2, c2.labels).insert(n + 1);
            lemma_stmt_fresh(*body, c2);
            lemma_stmt_counters(*body, c2);
            let (bi, c3) = tr_stmt(*body, c2);
            lemma_fresh_concat(hc, bi, k, span(c2.labels, c3.labels));
            let k3 = span(n + 2, c3.labels).insert(n + 1);
            lemma_fresh_weaken(hc + bi, k.union(span(c2.labels, c3.labels)), k3);
            lemma_opt_stmt_fresh(update, c3);
            lemma_opt_stmt_counters(update, c3);
            let (ui, c4) = tr_opt_stmt(update, c3);
            lemma_fresh_concat(hc + bi, ui, k3, span(c3.labels, c4.labels));
            let k4 = span(n + 2, c4.labels).insert(n + 1);
            lemma_fresh_weaken(hc + bi + ui, k3.union(span(c3.labels, c4.labels)), k4);
            lemma_fresh_plain(hc + bi + ui, k4, SpecInstruction::JMP(lt));
            lemma_fresh_label((hc + bi + ui).push(SpecInstruction::JMP(lt)), k4, n + 2);
            lemma_fresh_weaken((hc + bi + ui).push(SpecInstruction::JMP(lt)).push(SpecInstruction::Label(le)), k4.insert(n + 2), span(n, c4.labels));
        },
        _ => {},
    }
}

/// The code of a statement uses label numbers above the counter it starts
/// from, up to the one it leaves, each once.
#[verifier::spinoff_prover]
pub proof fn lemma_stmt_fresh(s: SpecStatementD<Type>, c: Counters)
    ensures
        labels_fresh(tr_stmt(s, c).0, span(c.labels, tr_stmt(s, c).1.labels)),
    decreases s, 1nat,
{
    let s0 = span(c.labels, c.labels);
    match s.stmt {
        SpecStatement::Block { seq } => lemma_stmts_fresh(seq, c),
        SpecStatement::Decl { name, ty, init } => {
            lemma_expr_fresh(*init, c);
            let (a, ii, c1) = tr_expr(*init, c);
            lemma_fresh_plain(ii, span(c.labels, c1.labels), SpecInstruction::CopyAssignment(SpecAddress::Variable(name, ty), a));
        },
        SpecStatement::Assign { target, value } => match target.exp {
            SpecExpr::Ident(x) => {
                lemma_expr_fresh(*value, c);
                let (a, vi, c1) = tr_expr(*value, c);
                lemma_fresh_plain(vi, span(c.labels, c1.labels), SpecInstruction::CopyAssignment(SpecAddress::Variable(x, target.ty), a));
            },
            _ => lemma_fresh_empty(s0),
        },
        SpecStatement::Call { name, args } => {
            lemma_args_fresh(args, c);
            let (addrs, code, c1) = tr_args(args, c);
            lemma_params_fresh(addrs);
            lemma_fresh_concat(code, params_code(addrs), span(c.labels, c1.labels), Set::empty());
            lemma_fresh_weaken(code + params_code(addrs), span(c.labels, c1.labels).union(Set::empty()), span(c.labels, c1.labels));
            lemma_fresh_plain(code + params_code(addrs), span(c.labels, c1.labels), SpecInstruction::Call(None, name, args.len() as usize));
        },
        SpecStatement::If { .. } => lemma_if_fresh(s, c),
        SpecStatement::While { .. } => lemma_while_fresh(s, c),
        SpecStatement::For { .. } => lemma_for_fresh(s, c),
        SpecStatement::Return(e) => match e {
            None => lemma_fresh_single(SpecInstruction::Return(None), s0),
            Some(x) => {
                lemma_expr_fresh(*x, c);
                let (a, xi, c1) = tr_expr(*x, c);
                lemma_fresh_plain(xi, span(c.labels, c1.labels), SpecInstruction::Return(Some(a)));
            },
        },
    }
}

proof fn lemma_stmts_fresh(ss: Seq<SpecStatementD<Type>>, c: Counters)
    ensures
        labels_fresh(tr_stmts(ss, c).0, span(c.labels, tr_stmts(ss, c).1.labels)),
    decreases ss, 0nat,
{
    if ss.len() == 0 {
        lemma_fresh_empty(span(c.labels, c.labels));
    } else {
        lemma_stmts_fresh(ss.drop_last(), c);
        lemma_stmts_counters(ss.drop_last(), c);
        let (pi, c1) = tr_stmts(ss.drop_last(), c);
        lemma_stmt_fresh(ss.last(), c1);
        lemma_stmt_counters(ss.last(), c1);
        lemma_fresh_join(pi, tr_stmt(ss.last(), c1).0, c.labels, c1.labels, tr_stmt(ss.last(), c1).1.labels);
    }
}

/// The labels of the code of a statement are exactly those named after the
/// numbers above the label counter the translation starts from, up to the
/// counter it leaves, and each is defined once: every label made is emitted,
/// none twice, so from a new environment they are `Label1:` up to the last
/// one made. Code translated later with the same environment therefore never
/// reuses one of its labels.
pub proof fn law_statement_labels_are_fresh(s: SpecStatementD<Type>, c: Counters)
    ensures
        labels_distinct(tr_stmt(s, c).0),
        forall|k: int| 0 <= k < tr_stmt(s, c).0.len() && (#[trigger] tr_stmt(s, c).0[k]) is Label ==>
            exists|n: nat| c.labels < n <= tr_stmt(s, c).1.labels && tr_stmt(s, c).0[k] == SpecInstruction::Label(#[trigger] label_name(n)),
        forall|n: nat| c.labels < n <= tr_stmt(s, c).1.labels ==>
            exists|k: int| 0 <= k < tr_stmt(s, c).0.len() && tr_stmt(s, c).0[k] == SpecInstruction::Label(#[trigger] label_name(n)),
{
    lemma_stmt_fresh(s, c);
    reveal(labels_fresh);
    let code = tr_stmt(s, c).0;
    let hi = tr_stmt(s, c).1.labels;
    assert forall|k: int| 0 <= k < code.len() && (#[trigger] code[k]) is Label implies
        exists|n: nat| c.labels < n <= hi && code[k] == SpecInstruction::Label(#[trigger] label_name(n)) by {
        let n = choose|n: nat| span(c.labels, hi).contains(n) && code[k] == SpecInstruction::Label(#[trigger] label_name(n));
        assert(c.labels < n <= hi);
    }
    assert forall|n: nat| c.labels < n <= hi implies
        exists|k: int| 0 <= k < code.len() && code[k] == SpecInstruction::Label(#[trigger] label_name(n)) by {
        assert(span(c.labels, hi).contains(n));
        let k = choose|k: int| 0 <= k < code.len() && #[trigger] code[k] == SpecInstruction::Label(label_name(n));
        assert(code[k] == SpecInstruction::Label(label_name(n)));
    }
}

// ---------------------------------------------------------------------------
// Temporaries
// ---------------------------------------------------------------------------

/// Distinct numbers give distinct temporary names.
pub proof fn lemma_temp_name_injective(a: nat, b: nat)
    ensures
        temp_name(a) == temp_name(b) ==> a == b,
{
    reveal_strlit("temp");
    if temp_name(a) == temp_name(b) {
        let x = temp_name(a);
        assert(decimal(a) =~= x.subrange(4, x.len() as int));
        assert(decimal(b) =~= x.subrange(4, x.len() as int));
        lemma_decimal_injective(a, b);
    }
}

/// Whether `a`, if it is a temporary, is named after a number above `lo`, up to `hi`.
pub open spec fn temp_within(a: SpecAddress, lo: nat, hi: nat) -> bool {
    match a {
        SpecAddress::Temporary(name, _) => exists|n: nat| lo < n <= hi && name == #[trigger] temp_name(n),
        _ => true,
    }
}

/// Whether every temporary that the instruction `i` reads or writes is
/// named after a number above `lo`, up to `hi`.
pub open spec fn instr_temps_within(i: SpecInstruction, lo: nat, hi: nat) -> bool {
    forall|j: int| 0 <= j < instruction_addresses(i).len() ==> temp_within(#[trigger] instruction_addresses(i)[j], lo, hi)
}

/// Whether every temporary of `code` is named after a number above `lo`, up to `hi`.
pub open spec fn temps_within(code: Seq<SpecInstruction>, lo: nat, hi: nat) -> bool {
    forall|k: int| 0 <= k < code.len() ==> instr_temps_within(#[trigger] code[k], lo, hi)
}

proof fn lemma_temp_weaken(a: SpecAddress, lo: nat, hi: nat, lo2: nat, hi2: nat)
    requires
        temp_within(a, lo, hi),
        lo2 <= lo,
        hi <= hi2,
    ensures
        temp_within(a, lo2, hi2),
{
    match a {
        SpecAddress::Temporary(name, _) => {
            let n = choose|n: nat| lo < n <= hi && name == #[trigger] temp_name(n);
            assert(lo2 < n <= hi2 && name == temp_name(n));
        },
        _ => {},
    }
}

proof fn lemma_temps_weaken(code: Seq<SpecInstruction>, lo: nat, hi: nat, lo2: nat, hi2: nat)
    requires
        temps_within(code, lo, hi),
        lo2 <= lo,
        hi <= hi2,
    ensures
        temps_within(code, lo2, hi2),
{
    assert forall|k: int| 0 <= k < code.len() implies instr_temps_within(#[trigger] code[k], lo2, hi2) by {
        assert forall|j: int| 0 <= j < instruction_addresses(code[k]).len() implies
            temp_within(#[trigger] instruction_addresses(code[k])[j], lo2, hi2) by {
            lemma_temp_weaken(instruction_addresses(code[k])[j], lo, hi, lo2, hi2);
        }
    }
}

proof fn lemma_temps_concat(a: Seq<SpecInstruction>, b: Seq<SpecInstruction>, lo: nat, hi: nat)
    requires
        temps_within(a, lo, hi),
        temps_within(b, lo, hi),
    ensures
        temps_within(a + b, lo, hi),
{
    assert forall|k: int| 0 <= k < (a + b).len() implies instr_temps_within(#[trigger] (a + b)[k], lo, hi) by {
        if k < a.len() {
            assert((a + b)[k] == a[k]);
        } else {
            assert((a + b)[k] == b[k - a.len()]);
        }
    }
}

/// The addresses of an instruction, one by one.
proof fn lemma_instr_within(i: SpecInstruction, lo: nat, hi: nat)
    requires
        match i {
            SpecInstruction::CopyAssignment(d, s) => temp_within(d, lo, hi) && temp_within(s, lo, hi),
            SpecInstruction::UnaryAssignment(_, d, s) => temp_within(d, lo, hi) && temp_within(s, lo, hi),
            SpecInstruction::BinaryAssignment(_, d, l, r) => temp_within(d, lo, hi) && temp_within(l, lo, hi) && temp_within(r, lo, hi),
            SpecInstruction::ConditionalJMP(a, _) => temp_within(a, lo, hi),
            SpecInstruction::ConditionalJMPFalse(a, _) => temp_within(a, lo, hi),
            SpecInstruction::ConditionalJMPRelational(_, a, b, _) => temp_within(a, lo, hi) && temp_within(b, lo, hi),
            SpecInstruction::Param(a) => temp_within(a, lo, hi),
            SpecInstruction::Call(d, _, _) => d matches Some(x) ==> temp_within(x, lo, hi),
            SpecInstruction::Store(b, x, v) => temp_within(b, lo, hi) && temp_within(x, lo, hi) && temp_within(v, lo, hi),
            SpecInstruction::Load(d, b, x) => temp_within(d, lo, hi) && temp_within(b, lo, hi) && temp_within(x, lo, hi),
            SpecInstruction::Return(a) => a matches Some(x) ==> temp_within(x, lo, hi),
            _ => true,
        },
    ensures
        instr_temps_within(i, lo, hi),
{
    let s = instruction_addresses(i);
    assert forall|j: int| 0 <= j < s.len() implies temp_within(#[trigger] s[j], lo, hi) by {
        match i {
            SpecInstruction::CopyAssignment(d, x) => assert(s =~= seq![d, x]),
            SpecInstruction::UnaryAssignment(_, d, x) => assert(s =~= seq![d, x]),
            SpecInstruction::BinaryAssignment(_, d, l, r) => assert(s =~= seq![d, l, r]),
            SpecInstruction::ConditionalJMPRelational(_, a, b, _) => assert(s =~= seq![a, b]),
            SpecInstruction::Store(b, x, v) => assert(s =~= seq![b, x, v]),
            SpecInstruction::Load(d, b, x) => assert(s =~= seq![d, b, x]),
            _ => {},
        }
    }
}

proof fn lemma_temps_push(a: Seq<SpecInstruction>, x: SpecInstruction, lo: nat, hi: nat)
    requires
        temps_within(a, lo, hi),
        instr_temps_within(x, lo, hi),
    ensures
        temps_within(a.push(x), lo, hi),
{
    assert forall|k: int| 0 <= k < a.push(x).len() implies instr_temps_within(#[trigger] a.push(x)[k], lo, hi) by {
        if k < a.len() {
            assert(a.push(x)[k] == a[k]);
        }
    }
}

proof fn lemma_temp_new(n: nat, ty: Type, lo: nat, hi: nat)
    requires
        lo < n <= hi,
    ensures
        temp_within(SpecAddress::Temporary(temp_name(n), ty), lo, hi),
{
}

/// An expression's code and result name their temporaries after numbers
/// above the counter it starts from, up to the one it leaves.
pub proof fn lemma_expr_temps(e: SpecExprD<Type>, c: Counters)
    ensures
        temps_within(tr_expr(e, c).1, c.temps, tr_expr(e, c).2.temps),
        temp_within(tr_expr(e, c).0, c.temps, tr_expr(e, c).2.temps),
    decreases e,
{
    let (res, code, c9) = tr_expr(e, c);
    let lo = c.temps;
    let hi = c9.temps;
    match e.exp {
        SpecExpr::Not(x) | SpecExpr::Neg(x) => {
            lemma_expr_temps(*x, c);
            let (a, xi, c1) = tr_expr(*x, c);
            lemma_temps_weaken(xi, lo, c1.temps, lo, hi);
            lemma_temp_weaken(a, lo, c1.temps, lo, hi);
            let t = res;
            lemma_temp_new(c1.temps + 1, if e.exp is Not { Type::Bool } else { e.ty }, lo, hi);
            if e.exp is Not {
                let lf = label_name(c1.labels + 1);
                let lx = label_name(c1.labels + 2);
                let k1 = xi.push(SpecInstruction::ConditionalJMPFalse(a, lf));
                lemma_instr_within(SpecInstruction::ConditionalJMPFalse(a, lf), lo, hi);
                lemma_temps_push(xi, SpecInstruction::ConditionalJMPFalse(a, lf), lo, hi);
                let k2 = k1.push(SpecInstruction::CopyAssignment(t, bool_constant(false)));
                lemma_instr_within(SpecInstruction::CopyAssignment(t, bool_constant(false)), lo, hi);
                lemma_temps_push(k1, SpecInstruction::CopyAssignment(t, bool_constant(false)), lo, hi);
                let k3 = k2.push(SpecInstruction::JMP(lx));
                lemma_instr_within(SpecInstruction::JMP(lx), lo, hi);
                lemma_temps_push(k2, SpecInstruction::JMP(lx), lo, hi);
                let k4 = k3.push(SpecInstruction::Label(lf));
                lemma_instr_within(SpecInstruction::Label(lf), lo, hi);
                lemma_temps_push(k3, SpecInstruction::Label(lf), lo, hi);
                let k5 = k4.push(SpecInstruction::CopyAssignment(t, bool_constant(true)));
                lemma_instr_within(SpecInstruction::CopyAssignment(t, bool_constant(true)), lo, hi);
                lemma_temps_push(k4, SpecInstruction::CopyAssignment(t, bool_constant(true)), lo, hi);
                lemma_instr_within(SpecInstruction::Label(lx), lo, hi);
                lemma_temps_push(k5, SpecInstruction::Label(lx), lo, hi);
            } else {
                let x1 = SpecInstruction::UnaryAssignment(Operator::Neg, t, a);
                lemma_instr_within(x1, lo, hi);
                lemma_temps_push(xi, x1, lo, hi);
            }
        },
        SpecExpr::Or(l, r) | SpecExpr::And(l, r) | SpecExpr::Add(l, r) | SpecExpr::Sub(l, r)
        | SpecExpr::Mul(l, r) | SpecExpr::Div(l, r) => {
            lemma_expr_temps(*l, c);
            lemma_expr_counters(*l, c);
            let (la, li, c1) = tr_expr(*l, c);
            lemma_expr_temps(*r, c1);
            lemma_expr_counters(*r, c1);
            let (ra, ri, c2) = tr_expr(*r, c1);
            lemma_temps_weaken(li, lo, c1.temps, lo, hi);
            lemma_temp_weaken(la, lo, c1.temps, lo, hi);
            lemma_temps_weaken(ri, c1.temps, c2.temps, lo, hi);
            lemma_temp_weaken(ra, c1.temps, c2.temps, lo, hi);
            let t = res;
            lemma_temp_new(c2.temps + 1, t->Temporary_1, lo, hi);
            lemma_expr_temps_tail(e, li, ri, la, ra, t, c2, lo, hi);
        },
        _ => {},
    }
}

/// The instructions after the operands of a binary expression.
proof fn lemma_expr_temps_tail(e: SpecExprD<Type>, li: Seq<SpecInstruction>, ri: Seq<SpecInstruction>, la: SpecAddress, ra: SpecAddress, t: SpecAddress, c2: Counters, lo: nat, hi: nat)
    requires
        temps_within(li, lo, hi),
        temps_within(ri, lo, hi),
        temp_within(la, lo, hi),
        temp_within(ra, lo, hi),
        temp_within(t, lo, hi),
    ensures
        match e.exp {
            SpecExpr::Or(..) => {
                let lt = label_name(c2.labels + 1);
                let lf = label_name(c2.labels + 2);
                let lx = label_name(c2.labels + 3);
                temps_within((li.push(SpecInstruction::ConditionalJMPFalse(la, lf)).push(SpecInstruction::JMP(lt)).push(SpecInstruction::Label(lf)) + ri).push(SpecInstruction::ConditionalJMP(ra, lt)).push(SpecInstruction::CopyAssignment(t, bool_constant(false))).push(SpecInstruction::JMP(lx)).push(SpecInstruction::Label(lt)).push(SpecInstruction::CopyAssignment(t, bool_constant(true))).push(SpecInstruction::Label(lx)), lo, hi)
            },
            SpecExpr::And(..) => {
                let lf = label_name(c2.labels + 1);
                let lx = label_name(c2.labels + 2);
                temps_within((li.push(SpecInstruction::ConditionalJMPFalse(la, lf)) + ri).push(SpecInstruction::ConditionalJMPFalse(ra, lf)).push(SpecInstruction::CopyAssignment(t, bool_constant(true))).push(SpecInstruction::JMP(lx)).push(SpecInstruction::Label(lf)).push(SpecInstruction::CopyAssignment(t, bool_constant(false))).push(SpecInstruction::Label(lx)), lo, hi)
            },
            _ => forall|op: Operator| temps_within((li + ri).push(SpecInstruction::BinaryAssignment(op, t, la, ra)), lo, hi),
        },
{
    lemma_temps_concat(li, ri, lo, hi);
    match e.exp {
        SpecExpr::Or(..) => {
            let lt = label_name(c2.labels + 1);
            let lf = label_name(c2.labels + 2);
            let lx = label_name(c2.labels + 3);
            let xs = seq![
                SpecInstruction::ConditionalJMPFalse(la, lf), SpecInstruction::JMP(lt), SpecInstruction::Label(lf),
            ];
            let ys = seq![
                SpecInstruction::ConditionalJMP(ra, lt), SpecInstruction::CopyAssignment(t, bool_constant(false)),
                SpecInstruction::JMP(lx), SpecInstruction::Label(lt),
                SpecInstruction::CopyAssignment(t, bool_constant(true)), SpecInstruction::Label(lx),
            ];
            lemma_instrs_within(xs, lo, hi);
            lemma_instrs_within(ys, lo, hi);
            let k1 = li.push(xs[0]).push(xs[1]).push(xs[2]);
            assert(k1 =~= li + xs);
            lemma_temps_concat(li, xs, lo, hi);
            lemma_temps_concat(k1, ri, lo, hi);
            let code = (k1 + ri).push(ys[0]).push(ys[1]).push(ys[2]).push(ys[3]).push(ys[4]).push(ys[5]);
            assert(code =~= (k1 + ri) + ys);
            lemma_temps_concat(k1 + ri, ys, lo, hi);
        },
        SpecExpr::And(..) => {
            let lf = label_name(c2.labels + 1);
            let lx = label_name(c2.labels + 2);
            let x0 = SpecInstruction::ConditionalJMPFalse(la, lf);
            lemma_instr_within(x0, lo, hi);
            lemma_temps_push(li, x0, lo, hi);
            lemma_temps_concat(li.push(x0), ri, lo, hi);
            let ys = seq![
                SpecInstruction::ConditionalJMPFalse(ra, lf), SpecInstruction::CopyAssignment(t, bool_constant(true)),
                SpecInstruction::JMP(lx), SpecInstruction::Label(lf),
                SpecInstruction::CopyAssignment(t, bool_constant(false)), SpecInstruction::Label(lx),
            ];
            lemma_instrs_within(ys, lo, hi);
            let k = li.push(x0) + ri;
            let code = k.push(ys[0]).push(ys[1]).push(ys[2]).push(ys[3]).push(ys[4]).push(ys[5]);
            assert(code =~= k + ys);
            lemma_temps_concat(k, ys, lo, hi);
        },
        _ => {
            assert forall|op: Operator| temps_within((li + ri).push(SpecInstruction::BinaryAssignment(op, t, la, ra)), lo, hi) by {
                lemma_instr_within(SpecInstruction::BinaryAssignment(op, t, la, ra), lo, hi);
                lemma_temps_push(li + ri, SpecInstruction::BinaryAssignment(op, t, la, ra), lo, hi);
            }
        },
    }
}

/// A list of instructions whose addresses are all within the range.
proof fn lemma_instrs_within(xs: Seq<SpecInstruction>, lo: nat, hi: nat)
    requires
        forall|k: int| 0 <= k < xs.len() ==> (match #[trigger] xs[k] {
            SpecInstruction::CopyAssignment(d, s) => temp_within(d, lo, hi) && temp_within(s, lo, hi),
            SpecInstruction::ConditionalJMP(a, _) => temp_within(a, lo, hi),
            SpecInstruction::ConditionalJMPFalse(a, _) => temp_within(a, lo, hi),
            SpecInstruction::JMP(_) => true,
            SpecInstruction::Label(_) => true,
            _ => false,
        }),
    ensures
        temps_within(xs, lo, hi),
{
    assert forall|k: int| 0 <= k < xs.len() implies instr_temps_within(#[trigger] xs[k], lo, hi) by {
        lemma_instr_within(xs[k], lo, hi);
    }
}


proof fn lemma_temps_join(a: Seq<SpecInstruction>, b: Seq<SpecInstruction>, lo: nat, mid: nat, hi: nat)
    requires
        temps_within(a, lo, mid),
        temps_within(b, mid, hi),
        lo <= mid <= hi,
    ensures
        temps_within(a + b, lo, hi),
{
    lemma_temps_weaken(a, lo, mid, lo, hi);
    lemma_temps_weaken(b, mid, hi, lo, hi);
    lemma_temps_concat(a, b, lo, hi);
}

/// Code followed by an instruction that names no temporary outside the range.
proof fn lemma_temps_then(a: Seq<SpecInstruction>, x: SpecInstruction, lo: nat, hi: nat)
    requires
        temps_within(a, lo, hi),
        match x {
            SpecInstruction::CopyAssignment(d, s) => temp_within(d, lo, hi) && temp_within(s, lo, hi),
            SpecInstruction::ConditionalJMP(v, _) => temp_within(v, lo, hi),
            SpecInstruction::ConditionalJMPFalse(v, _) => temp_within(v, lo, hi),
            SpecInstruction::ConditionalJMPRelational(_, l, r, _) => temp_within(l, lo, hi) && temp_within(r, lo, hi),
            SpecInstruction::Call(d, _, _) => d is None,
            SpecInstruction::Return(v) => v matches Some(y) ==> temp_within(y, lo, hi),
            SpecInstruction::JMP(_) => true,
            SpecInstruction::Label(_) => true,
            _ => false,
        },
    ensures
        temps_within(a.push(x), lo, hi),
{
    lemma_instr_within(x, lo, hi);
    lemma_temps_push(a, x, lo, hi);
}

/// A condition's code names its temporaries after numbers above the counter
/// it starts from, up to the one it leaves.
pub proof fn lemma_cond_temps(e: SpecExprD<Type>, c: Counters, fl: Seq<char>)
    ensures
        temps_within(tr_cond(e, c, fl).0, c.temps, tr_cond(e, c, fl).1.temps),
    decreases e,
{
    let lo = c.temps;
    match e.exp {
        SpecExpr::Literal(SpecLiteral::Bool(true)) => {},
        SpecExpr::Literal(SpecLiteral::Bool(false)) => {
            lemma_temps_then(Seq::empty(), SpecInstruction::JMP(fl), lo, lo);
            assert(seq![SpecInstruction::JMP(fl)] =~= Seq::<SpecInstruction>::empty().push(SpecInstruction::JMP(fl)));
        },
        SpecExpr::Ident(n) => {
            let x = SpecInstruction::ConditionalJMPFalse(SpecAddress::Variable(n, e.ty), fl);
            lemma_temps_then(Seq::empty(), x, lo, lo);
            assert(seq![x] =~= Seq::<SpecInstruction>::empty().push(x));
        },
        SpecExpr::And(l, r) => {
            let c0 = next_label(c);
            lemma_cond_temps(*l, c0, fl);
            lemma_cond_counters(*l, c0, fl);
            let (li, c1) = tr_cond(*l, c0, fl);
            lemma_cond_temps(*r, c1, fl);
            lemma_cond_counters(*r, c1, fl);
            let (ri, c2) = tr_cond(*r, c1, fl);
            lemma_temps_then(li, SpecInstruction::Label(label_name(c.labels + 1)), lo, c1.temps);
            lemma_temps_join(li.push(SpecInstruction::Label(label_name(c.labels + 1))), ri, lo, c1.temps, c2.temps);
        },
        SpecExpr::Or(l, r) => {
            let c0 = next_label(c);
            lemma_expr_temps(*l, c0);
            lemma_expr_counters(*l, c0);
            let (la, li, c1) = tr_expr(*l, c0);
            lemma_cond_temps(*r, c1, fl);
            lemma_cond_counters(*r, c1, fl);
            let (ri, c2) = tr_cond(*r, c1, fl);
            let ls = label_name(c.labels + 1);
            lemma_temps_then(li, SpecInstruction::ConditionalJMP(la, ls), lo, c1.temps);
            lemma_temps_join(li.push(SpecInstruction::ConditionalJMP(la, ls)), ri, lo, c1.temps, c2.temps);
            lemma_temps_then(li.push(SpecInstruction::ConditionalJMP(la, ls)) + ri, SpecInstruction::Label(ls), lo, c2.temps);
        },
        SpecExpr::Not(x) => {
            lemma_expr_temps(*x, c);
            let (a, xi, c1) = tr_expr(*x, c);
            lemma_temps_then(xi, SpecInstruction::ConditionalJMP(a, fl), lo, c1.temps);
        },
        SpecExpr::Lt(l, r) | SpecExpr::Le(l, r) | SpecExpr::Gt(l, r) | SpecExpr::Ge(l, r)
        | SpecExpr::Eq(l, r) | SpecExpr::Ne(l, r) => {
            lemma_expr_temps(*l, c);
            lemma_expr_counters(*l, c);
            let (la, li, c1) = tr_expr(*l, c);
            lemma_expr_temps(*r, c1);
            lemma_expr_counters(*r, c1);
            let (ra, ri, c2) = tr_expr(*r, c1);
            lemma_temps_join(li, ri, lo, c1.temps, c2.temps);
            lemma_temp_weaken(la, lo, c1.temps, lo, c2.temps);
            let op = match e.exp {
                SpecExpr::Lt(..) => Operator::LT,
                SpecExpr::Le(..) => Operator::LTE,
                SpecExpr::Gt(..) => Operator::GT,
                SpecExpr::Ge(..) => Operator::GTE,
                SpecExpr::Eq(..) => Operator::EQ,
                _ => Operator::NE,
            };
            lemma_temps_then(li + ri, SpecInstruction::ConditionalJMPRelational(negated(op), la, ra, fl), lo, c2.temps);
        },
        _ => {
            lemma_expr_temps(e, c);
            let (a, xi, c1) = tr_expr(e, c);
            lemma_temps_then(xi, SpecInstruction::ConditionalJMPFalse(a, fl), lo, c1.temps);
        },
    }
}

proof fn lemma_args_temps(args: Seq<SpecExprD<Type>>, c: Counters)
    ensures
        temps_within(tr_args(args, c).1, c.temps, tr_args(args, c).2.temps),
        forall|i: int| 0 <= i < tr_args(args, c).0.len() ==> temp_within(#[trigger] tr_args(args, c).0[i], c.temps, tr_args(args, c).2.temps),
    decreases args.len(),
{
    if args.len() > 0 {
        lemma_args_temps(args.drop_last(), c);
        lemma_args_counters(args.drop_last(), c);
        let (addrs, code, c1) = tr_args(args.drop_last(), c);
        lemma_expr_temps(args.last(), c1);
        lemma_expr_counters(args.last(), c1);
        let (a, ai, c2) = tr_expr(args.last(), c1);
        lemma_temps_join(code, ai, c.temps, c1.temps, c2.temps);
        let xs = addrs.push(a);
        assert forall|i: int| 0 <= i < xs.len() implies temp_within(#[trigger] xs[i], c.temps, c2.temps) by {
            if i < addrs.len() {
                lemma_temp_weaken(addrs[i], c.temps, c1.temps, c.temps, c2.temps);
            } else {
                lemma_temp_weaken(a, c1.temps, c2.temps, c.temps, c2.temps);
            }
        }
    }
}

proof fn lemma_params_temps(addrs: Seq<SpecAddress>, lo: nat, hi: nat)
    requires
        forall|i: int| 0 <= i < addrs.len() ==> temp_within(#[trigger] addrs[i], lo, hi),
    ensures
        temps_within(params_code(addrs), lo, hi),
{
    let p = params_code(addrs);
    assert forall|k: int| 0 <= k < p.len() implies instr_temps_within(#[trigger] p[k], lo, hi) by {
        assert(p[k] == SpecInstruction::Param(addrs[k]));
        lemma_instr_within(p[k], lo, hi);
    }
}

proof fn lemma_opt_stmt_temps(s: Option<Box<SpecStatementD<Type>>>, c: Counters)
    ensures
        temps_within(tr_opt_stmt(s, c).0, c.temps, tr_opt_stmt(s, c).1.temps),
    decreases s, 2nat,
{
    match s {
        Some(x) => lemma_stmt_temps(*x, c),
        None => {},
    }
}

#[verifier::spinoff_prover]
proof fn lemma_if_temps(s: SpecStatementD<Type>, c: Counters)
    requires
        s.stmt is If,
    ensures
        temps_within(tr_stmt(s, c).0, c.temps, tr_stmt(s, c).1.temps),
    decreases s, 0nat,
{
    let lo = c.temps;
    match s.stmt {
        SpecStatement::If { cond, then_branch, else_branch } => match else_branch {
            Some(e) => {
                let le = label_name(c.labels + 1);
                let lend = label_name(c.labels + 2);
                let c0 = next_label(next_label(c));
                lemma_cond_temps(*cond, c0, le);
                lemma_cond_counters(*cond, c0, le);
                let (ci, c1) = tr_cond(*cond, c0, le);
                lemma_stmt_temps(*then_branch, c1);
                lemma_stmt_counters(*then_branch, c1);
                let (ti, c2) = tr_stmt(*then_branch, c1);
                lemma_stmt_temps(*e, c2);
                lemma_stmt_counters(*e, c2);
                let (ei, c3) = tr_stmt(*e, c2);
                lemma_temps_join(ci, ti, lo, c1.temps, c2.temps);
                lemma_temps_then(ci + ti, SpecInstruction::JMP(lend), lo, c2.temps);
                lemma_temps_then((ci + ti).push(SpecInstruction::JMP(lend)), SpecInstruction::Label(le), lo, c2.temps);
                let k = (ci + ti).push(SpecInstruction::JMP(lend)).push(SpecInstruction::Label(le));
                lemma_temps_join(k, ei, lo, c2.temps, c3.temps);
                lemma_temps_then(k + ei, SpecInstruction::Label(lend), lo, c3.temps);
            },
            None => {
                let lend = label_name(c.labels + 1);
                let c0 = next_label(c);
                lemma_cond_temps(*cond, c0, lend);
                lemma_cond_counters(*cond, c0, lend);
                let (ci, c1) = tr_cond(*cond, c0, lend);
                lemma_stmt_temps(*then_branch, c1);
                lemma_stmt_counters(*then_branch, c1);
                let (ti, c2) = tr_stmt(*then_branch, c1);
                lemma_temps_join(ci, ti, lo, c1.temps, c2.temps);
                lemma_temps_then(ci + ti, SpecInstruction::Label(lend), lo, c2.temps);
            },
        },
        _ => {},
    }
}

#[verifier::spinoff_prover]
proof fn lemma_while_temps(s: SpecStatementD<Type>, c: Counters)
    requires
        s.stmt is While,
    ensures
        temps_within(tr_stmt(s, c).0, c.temps, tr_stmt(s, c).1.temps),
    decreases s, 0nat,
{
    let lo = c.temps;
    match s.stmt {
        SpecStatement::While { cond, body } => {
            let lt = label_name(c.labels + 1);
            let le = label_name(c.labels + 2);
            let c0 = next_label(next_label(c));
            lemma_cond_temps(*cond, c0, le);
            lemma_cond_counters(*cond, c0, le);
            let (ci, c1) = tr_cond(*cond, c0, le);
            lemma_stmt_temps(*body, c1);
            lemma_stmt_counters(*body, c1);
            let (bi, c2) = tr_stmt(*body, c1);
            let first = seq![SpecInstruction::Label(lt)];
            lemma_temps_then(Seq::empty(), SpecInstruction::Label(lt), lo, lo);
            assert(first =~= Seq::<SpecInstruction>::empty().push(SpecInstruction::Label(lt)));
            lemma_temps_join(first, ci, lo, lo, c1.temps);
            lemma_temps_join(first + ci, bi, lo, c1.temps, c2.temps);
            lemma_temps_then(first + ci + bi, SpecInstruction::JMP(lt), lo, c2.temps);
            lemma_temps_then((first + ci + bi).push(SpecInstruction::JMP(lt)), SpecInstruction::Label(le), lo, c2.temps);
        },
        _ => {},
    }
}

#[verifier::spinoff_prover]
proof fn lemma_for_temps(s: SpecStatementD<Type>, c: Counters)
    requires
        s.stmt is For,
    ensures
        temps_within(tr_stmt(s, c).0, c.temps, tr_stmt(s, c).1.temps),
    decreases s, 0nat,
{
    let lo = c.temps;
    match s.stmt {
        SpecStatement::For { init, cond, update, body } => {
            let lt = label_name(c.labels + 1);
            let le = label_name(c.labels + 2);
            let c0 = next_label(next_label(c));
            lemma_opt_stmt_temps(init, c0);
            lemma_opt_stmt_counters(init, c0);
            let (ii, c1) = tr_opt_stmt(init, c0);
            let head = ii.push(SpecInstruction::Label(lt));
            lemma_temps_then(ii, SpecInstruction::Label(lt), lo, c1.temps);
            let c2 = match cond {
                Some(x) => tr_cond(*x, c1, le).1,
                None => c1,
            };
            let hc = match cond {
                Some(x) => head + tr_cond(*x, c1, le).0,
                None => head,
            };
            match cond {
                Some(x) => {
                    lemma_cond_temps(*x, c1, le);
                    lemma_cond_counters(*x, c1, le);
                    lemma_temps_join(head, tr_cond(*x, c1, le).0, lo, c1.temps, c2.temps);
                },
                None => {},
            }
            lemma_stmt_temps(*body, c2);
            lemma_stmt_counters(*body, c2);
            let (bi, c3) = tr_stmt(*body, c2);
            lemma_temps_join(hc, bi, lo, c2.temps, c3.temps);
            lemma_opt_stmt_temps(update, c3);
            lemma_opt_stmt_counters(update, c3);
            let (ui, c4) = tr_opt_stmt(update, c3);
            lemma_temps_join(hc + bi, ui, lo, c3.temps, c4.temps);
            lemma_temps_then(hc + bi + ui, SpecInstruction::JMP(lt), lo, c4.temps);
            lemma_temps_then((hc + bi + ui).push(SpecInstruction::JMP(lt)), SpecInstruction::Label(le), lo, c4.temps);
        },
        _ => {},
    }
}

/// A statement's code names its temporaries after numbers above the counter
/// it starts from, up to the one it leaves.
#[verifier::spinoff_prover]
pub proof fn lemma_stmt_temps(s: SpecStatementD<Type>, c: Counters)
    ensures
        temps_within(tr_stmt(s, c).0, c.temps, tr_stmt(s, c).1.temps),
    decreases s, 1nat,
{
    let lo = c.temps;
    match s.stmt {
        SpecStatement::Block { seq } => lemma_stmts_temps(seq, c),
        SpecStatement::Decl { name, ty, init } => {
            lemma_expr_temps(*init, c);
            let (a, ii, c1) = tr_expr(*init, c);
            lemma_temps_then(ii, SpecInstruction::CopyAssignment(SpecAddress::Variable(name, ty), a), lo, c1.temps);
        },
        SpecStatement::Assign { target, value } => match target.exp {
            SpecExpr::Ident(x) => {
                lemma_expr_temps(*value, c);
                let (a, vi, c1) = tr_expr(*value, c);
                lemma_temps_then(vi, SpecInstruction::CopyAssignment(SpecAddress::Variable(x, target.ty), a), lo, c1.temps);
            },
            _ => {},
        },
        SpecStatement::Call { name, args } => {
            lemma_args_temps(args, c);
            let (addrs, code, c1) = tr_args(args, c);
            lemma_params_temps(addrs, lo, c1.temps);
            lemma_temps_concat(code, params_code(addrs), lo, c1.temps);
            lemma_temps_then(code + params_code(addrs), SpecInstruction::Call(None, name, args.len() as usize), lo, c1.temps);
        },
        SpecStatement::If { .. } => lemma_if_temps(s, c),
        SpecStatement::While { .. } => lemma_while_temps(s, c),
        SpecStatement::For { .. } => lemma_for_temps(s, c),
        SpecStatement::Return(e) => match e {
            None => {
                lemma_temps_then(Seq::empty(), SpecInstruction::Return(None), lo, lo);
                assert(seq![SpecInstruction::Return(None)] =~= Seq::<SpecInstruction>::empty().push(SpecInstruction::Return(None)));
            },
            Some(x) => {
                lemma_expr_temps(*x, c);
                let (a, xi, c1) = tr_expr(*x, c);
                lemma_temps_then(xi, SpecInstruction::Return(Some(a)), lo, c1.temps);
            },
        },
    }
}

proof fn lemma_stmts_temps(ss: Seq<SpecStatementD<Type>>, c: Counters)
    ensures
        temps_within(tr_stmts(ss, c).0, c.temps, tr_stmts(ss, c).1.temps),
    decreases ss, 0nat,
{
    if ss.len() > 0 {
        lemma_stmts_temps(ss.drop_last(), c);
        lemma_stmts_counters(ss.drop_last(), c);
        let (pi, c1) = tr_stmts(ss.drop_last(), c);
        lemma_stmt_temps(ss.last(), c1);
        lemma_stmt_counters(ss.last(), c1);
        lemma_temps_join(pi, tr_stmt(ss.last(), c1).0, c.temps, c1.temps, tr_stmt(ss.last(), c1).1.temps);
    }
}

/// Every temporary that the code of a statement reads or writes is named
/// after a number above the temporary counter the translation starts from,
/// up to the counter it leaves.
pub proof fn law_statement_temporaries_are_fresh(s: SpecStatementD<Type>, c: Counters)
    ensures
        temps_within(tr_stmt(s, c).0, c.temps, tr_stmt(s, c).1.temps),
{
    lemma_stmt_temps(s, c);
}

/// Two statements translated one after the other with the same environment
/// share no name: no label of the first is a label of the second, and no
/// temporary of the first is a temporary of the second.
pub proof fn law_later_statement_uses_new_names(s1: SpecStatementD<Type>, s2: SpecStatementD<Type>, c: Counters)
    ensures
        ({
            let (code1, c1) = tr_stmt(s1, c);
            let code2 = tr_stmt(s2, c1).0;
            &&& forall|k1: int, k2: int| 0 <= k1 < code1.len() && 0 <= k2 < code2.len() && (#[trigger] code1[k1]) is Label
                ==> code1[k1] != #[trigger] code2[k2]
            &&& forall|k1: int, j1: int, k2: int, j2: int|
                0 <= k1 < code1.len() && 0 <= j1 < instruction_addresses(code1[k1]).len()
                && 0 <= k2 < code2.len() && 0 <= j2 < instruction_addresses(code2[k2]).len()
                && (#[trigger] instruction_addresses(code1[k1])[j1]) is Temporary
                && (#[trigger] instruction_addresses(code2[k2])[j2]) is Temporary
                ==> instruction_addresses(code1[k1])[j1]->Temporary_0 != instruction_addresses(code2[k2])[j2]->Temporary_0
        }),
{
    let (code1, c1) = tr_stmt(s1, c);
    let (code2, c2) = tr_stmt(s2, c1);
    lemma_stmt_fresh(s1, c);
    lemma_stmt_fresh(s2, c1);
    lemma_stmt_temps(s1, c);
    lemma_stmt_temps(s2, c1);
    reveal(labels_fresh);
    assert forall|k1: int, k2: int| 0 <= k1 < code1.len() && 0 <= k2 < code2.len() && (#[trigger] code1[k1]) is Label
        implies code1[k1] != #[trigger] code2[k2] by {
        if code1[k1] == code2[k2] {
            let n1 = choose|n: nat| span(c.labels, c1.labels).contains(n) && code1[k1] == SpecInstruction::Label(#[trigger] label_name(n));
            let n2 = choose|n: nat| span(c1.labels, c2.labels).contains(n) && code2[k2] == SpecInstruction::Label(#[trigger] label_name(n));
            lemma_label_name_injective(n1, n2);
        }
    }
    assert forall|k1: int, j1: int, k2: int, j2: int|
        0 <= k1 < code1.len() && 0 <= j1 < instruction_addresses(code1[k1]).len()
        && 0 <= k2 < code2.len() && 0 <= j2 < instruction_addresses(code2[k2]).len()
        && (#[trigger] instruction_addresses(code1[k1])[j1]) is Temporary
        && (#[trigger] instruction_addresses(code2[k2])[j2]) is Temporary
        implies instruction_addresses(code1[k1])[j1]->Temporary_0 != instruction_addresses(code2[k2])[j2]->Temporary_0 by {
        let a1 = instruction_addresses(code1[k1])[j1];
        let a2 = instruction_addresses(code2[k2])[j2];
        assert(instr_temps_within(code1[k1], c.temps, c1.temps));
        assert(instr_temps_within(code2[k2], c1.temps, c2.temps));
        assert(temp_within(a1, c.temps, c1.temps));
        assert(temp_within(a2, c1.temps, c2.temps));
        let n1 = choose|n: nat| c.temps < n <= c1.temps && a1->Temporary_0 == #[trigger] temp_name(n);
        let n2 = choose|n: nat| c1.temps < n <= c2.temps && a2->Temporary_0 == #[trigger] temp_name(n);
        lemma_temp_name_injective(n1, n2);
    }
}


// ---------------------------------------------------------------------------
// Every temporary made is used
// ---------------------------------------------------------------------------

/// The name of `a`, if it is a temporary.
pub open spec fn temp_of(a: SpecAddress) -> Option<Seq<char>> {
    match a {
        SpecAddress::Temporary(name, _) => Some(name),
        _ => None,
    }
}

/// Whether some instruction of `code` reads or writes the temporary `name`.
pub open spec fn code_uses(code: Seq<SpecInstruction>, name: Seq<char>) -> bool {
    exists|k: int, j: int| 0 <= k < code.len() && 0 <= j < instruction_addresses(code[k]).len()
        && temp_of(#[trigger] instruction_addresses(code[k])[j]) == Some(name)
}

/// Whether `code` uses every temporary named after a number above `lo`, up to `hi`.
pub open spec fn temps_cover(code: Seq<SpecInstruction>, lo: nat, hi: nat) -> bool {
    forall|n: nat| lo < n <= hi ==> #[trigger] code_uses(code, temp_name(n))
}

proof fn lemma_uses_concat(a: Seq<SpecInstruction>, b: Seq<SpecInstruction>, name: Seq<char>)
    ensures
        code_uses(a, name) || code_uses(b, name) ==> code_uses(a + b, name),
{
    let ab = a + b;
    if code_uses(a, name) {
        let (k, j) = choose|k: int, j: int| 0 <= k < a.len() && 0 <= j < instruction_addresses(a[k]).len()
            && temp_of(#[trigger] instruction_addresses(a[k])[j]) == Some(name);
        assert(ab[k] == a[k]);
        assert(temp_of(instruction_addresses(ab[k])[j]) == Some(name));
    } else if code_uses(b, name) {
        let (k, j) = choose|k: int, j: int| 0 <= k < b.len() && 0 <= j < instruction_addresses(b[k]).len()
            && temp_of(#[trigger] instruction_addresses(b[k])[j]) == Some(name);
        assert(ab[k + a.len()] == b[k]);
        assert(temp_of(instruction_addresses(ab[k + a.len()])[j]) == Some(name));
    }
}

proof fn lemma_cover_join(a: Seq<SpecInstruction>, b: Seq<SpecInstruction>, lo: nat, mid: nat, hi: nat)
    requires
        temps_cover(a, lo, mid),
        temps_cover(b, mid, hi),
    ensures
        temps_cover(a + b, lo, hi),
{
    assert forall|n: nat| lo < n <= hi implies #[trigger] code_uses(a + b, temp_name(n)) by {
        lemma_uses_concat(a, b, temp_name(n));
        if n <= mid {
            assert(code_uses(a, temp_name(n)));
        } else {
            assert(code_uses(b, temp_name(n)));
        }
    }
}

/// Code followed by more code, using no temporary the range needs.
proof fn lemma_cover_then(a: Seq<SpecInstruction>, xs: Seq<SpecInstruction>, lo: nat, hi: nat)
    requires
        temps_cover(a, lo, hi),
    ensures
        temps_cover(a + xs, lo, hi),
{
    assert forall|n: nat| lo < n <= hi implies #[trigger] code_uses(a + xs, temp_name(n)) by {
        lemma_uses_concat(a, xs, temp_name(n));
    }
}

/// Code followed by an instruction that first names the next temporary.
proof fn lemma_cover_new(a: Seq<SpecInstruction>, x: SpecInstruction, lo: nat, m: nat)
    requires
        temps_cover(a, lo, m),
        lo <= m,
        instruction_addresses(x).len() > 0,
        temp_of(instruction_addresses(x)[0]) == Some(temp_name(m + 1)),
    ensures
        temps_cover(a.push(x), lo, m + 1),
{
    let ax = a.push(x);
    assert forall|n: nat| lo < n <= m + 1 implies #[trigger] code_uses(ax, temp_name(n)) by {
        if n <= m {
            assert(ax =~= a + seq![x]);
            lemma_uses_concat(a, seq![x], temp_name(n));
        } else {
            assert(ax[a.len() as int] == x);
            assert(temp_of(instruction_addresses(ax[a.len() as int])[0]) == Some(temp_name(n)));
        }
    }
}


proof fn lemma_not_cover(xi: Seq<SpecInstruction>, a: SpecAddress, lo: nat, c1: Counters)
    requires
        temps_cover(xi, lo, c1.temps),
        lo <= c1.temps,
    ensures
        ({
            let t = SpecAddress::Temporary(temp_name(c1.temps + 1), Type::Bool);
            let lf = label_name(c1.labels + 1);
            let lx = label_name(c1.labels + 2);
            temps_cover(xi.push(SpecInstruction::ConditionalJMPFalse(a, lf)).push(SpecInstruction::CopyAssignment(t, bool_constant(false))).push(SpecInstruction::JMP(lx)).push(SpecInstruction::Label(lf)).push(SpecInstruction::CopyAssignment(t, bool_constant(true))).push(SpecInstruction::Label(lx)), lo, c1.temps + 1)
        }),
{
    let t = SpecAddress::Temporary(temp_name(c1.temps + 1), Type::Bool);
    let lf = label_name(c1.labels + 1);
    let lx = label_name(c1.labels + 2);
    let x0 = SpecInstruction::ConditionalJMPFalse(a, lf);
    let x1 = SpecInstruction::CopyAssignment(t, bool_constant(false));
    lemma_cover_push(xi, x0, lo, c1.temps);
    lemma_cover_new(xi.push(x0), x1, lo, c1.temps);
    let k = xi.push(x0).push(x1);
    lemma_cover_push(k, SpecInstruction::JMP(lx), lo, c1.temps + 1);
    lemma_cover_push(k.push(SpecInstruction::JMP(lx)), SpecInstruction::Label(lf), lo, c1.temps + 1);
    let k2 = k.push(SpecInstruction::JMP(lx)).push(SpecInstruction::Label(lf));
    lemma_cover_push(k2, SpecInstruction::CopyAssignment(t, bool_constant(true)), lo, c1.temps + 1);
    lemma_cover_push(k2.push(SpecInstruction::CopyAssignment(t, bool_constant(true))), SpecInstruction::Label(lx), lo, c1.temps + 1);
}

proof fn lemma_or_cover(li: Seq<SpecInstruction>, ri: Seq<SpecInstruction>, la: SpecAddress, ra: SpecAddress, lo: nat, mid: nat, c2: Counters)
    requires
        temps_cover(li, lo, mid),
        temps_cover(ri, mid, c2.temps),
        lo <= mid <= c2.temps,
    ensures
        ({
            let t = SpecAddress::Temporary(temp_name(c2.temps + 1), Type::Bool);
            let lt = label_name(c2.labels + 1);
            let lf = label_name(c2.labels + 2);
            let lx = label_name(c2.labels + 3);
            temps_cover((li.push(SpecInstruction::ConditionalJMPFalse(la, lf)).push(SpecInstruction::JMP(lt)).push(SpecInstruction::Label(lf)) + ri).push(SpecInstruction::ConditionalJMP(ra, lt)).push(SpecInstruction::CopyAssignment(t, bool_constant(false))).push(SpecInstruction::JMP(lx)).push(SpecInstruction::Label(lt)).push(SpecInstruction::CopyAssignment(t, bool_constant(true))).push(SpecInstruction::Label(lx)), lo, c2.temps + 1)
        }),
{
    let t = SpecAddress::Temporary(temp_name(c2.temps + 1), Type::Bool);
    let lt = label_name(c2.labels + 1);
    let lf = label_name(c2.labels + 2);
    let lx = label_name(c2.labels + 3);
    let x0 = SpecInstruction::ConditionalJMPFalse(la, lf);
    let x1 = SpecInstruction::JMP(lt);
    let x2 = SpecInstruction::Label(lf);
    lemma_cover_push(li, x0, lo, mid);
    lemma_cover_push(li.push(x0), x1, lo, mid);
    lemma_cover_push(li.push(x0).push(x1), x2, lo, mid);
    let k0 = li.push(x0).push(x1).push(x2);
    lemma_cover_join(k0, ri, lo, mid, c2.temps);
    let y0 = SpecInstruction::ConditionalJMP(ra, lt);
    lemma_cover_push(k0 + ri, y0, lo, c2.temps);
    let y1 = SpecInstruction::CopyAssignment(t, bool_constant(false));
    lemma_cover_new((k0 + ri).push(y0), y1, lo, c2.temps);
    let k1 = (k0 + ri).push(y0).push(y1);
    let h = c2.temps + 1;
    lemma_cover_push(k1, SpecInstruction::JMP(lx), lo, h);
    lemma_cover_push(k1.push(SpecInstruction::JMP(lx)), SpecInstruction::Label(lt), lo, h);
    let k2 = k1.push(SpecInstruction::JMP(lx)).push(SpecInstruction::Label(lt));
    lemma_cover_push(k2, SpecInstruction::CopyAssignment(t, bool_constant(true)), lo, h);
    lemma_cover_push(k2.push(SpecInstruction::CopyAssignment(t, bool_constant(true))), SpecInstruction::Label(lx), lo, h);
}

proof fn lemma_and_cover(li: Seq<SpecInstruction>, ri: Seq<SpecInstruction>, la: SpecAddress, ra: SpecAddress, lo: nat, mid: nat, c2: Counters)
    requires
        temps_cover(li, lo, mid),
        temps_cover(ri, mid, c2.temps),
        lo <= mid <= c2.temps,
    ensures
        ({
            let t = SpecAddress::Temporary(temp_name(c2.temps + 1), Type::Bool);
            let lf = label_name(c2.labels + 1);
            let lx = label_name(c2.labels + 2);
            temps_cover((li.push(SpecInstruction::ConditionalJMPFalse(la, lf)) + ri).push(SpecInstruction::ConditionalJMPFalse(ra, lf)).push(SpecInstruction::CopyAssignment(t, bool_constant(true))).push(SpecInstruction::JMP(lx)).push(SpecInstruction::Label(lf)).push(SpecInstruction::CopyAssignment(t, bool_constant(false))).push(SpecInstruction::Label(lx)), lo, c2.temps + 1)
        }),
{
    let t = SpecAddress::Temporary(temp_name(c2.temps + 1), Type::Bool);
    let lf = label_name(c2.labels + 1);
    let lx = label_name(c2.labels + 2);
    let x0 = SpecInstruction::ConditionalJMPFalse(la, lf);
    lemma_cover_push(li, x0, lo, mid);
    lemma_cover_join(li.push(x0), ri, lo, mid, c2.temps);
    let k0 = li.push(x0) + ri;
    let y0 = SpecInstruction::ConditionalJMPFalse(ra, lf);
    lemma_cover_push(k0, y0, lo, c2.temps);
    let y1 = SpecInstruction::CopyAssignment(t, bool_constant(true));
    lemma_cover_new(k0.push(y0), y1, lo, c2.temps);
    let k1 = k0.push(y0).push(y1);
    let h = c2.temps + 1;
    lemma_cover_push(k1, SpecInstruction::JMP(lx), lo, h);
    lemma_cover_push(k1.push(SpecInstruction::JMP(lx)), SpecInstruction::Label(lf), lo, h);
    let k2 = k1.push(SpecInstruction::JMP(lx)).push(SpecInstruction::Label(lf));
    lemma_cover_push(k2, SpecInstruction::CopyAssignment(t, bool_constant(false)), lo, h);
    lemma_cover_push(k2.push(SpecInstruction::CopyAssignment(t, bool_constant(false))), SpecInstruction::Label(lx), lo, h);
}

/// An expression's code uses every temporary it makes.
#[verifier::spinoff_prover]
pub proof fn lemma_expr_temps_cover(e: SpecExprD<Type>, c: Counters)
    ensures
        temps_cover(tr_expr(e, c).1, c.temps, tr_expr(e, c).2.temps),
    decreases e,
{
    let lo = c.temps;
    match e.exp {
        SpecExpr::Not(x) => {
            lemma_expr_temps_cover(*x, c);
            lemma_expr_counters(*x, c);
            let (a, xi, c1) = tr_expr(*x, c);
            lemma_not_cover(xi, a, lo, c1);
        },
        SpecExpr::Neg(x) => {
            lemma_expr_temps_cover(*x, c);
            lemma_expr_counters(*x, c);
            let (a, xi, c1) = tr_expr(*x, c);
            let t = SpecAddress::Temporary(temp_name(c1.temps + 1), e.ty);
            lemma_cover_new(xi, SpecInstruction::UnaryAssignment(Operator::Neg, t, a), lo, c1.temps);
        },
        SpecExpr::Or(l, r) => {
            lemma_expr_temps_cover(*l, c);
            lemma_expr_counters(*l, c);
            let (la, li, c1) = tr_expr(*l, c);
            lemma_expr_temps_cover(*r, c1);
            lemma_expr_counters(*r, c1);
            let (ra, ri, c2) = tr_expr(*r, c1);
            lemma_or_cover(li, ri, la, ra, lo, c1.temps, c2);
        },
        SpecExpr::And(l, r) => {
            lemma_expr_temps_cover(*l, c);
            lemma_expr_counters(*l, c);
            let (la, li, c1) = tr_expr(*l, c);
            lemma_expr_temps_cover(*r, c1);
            lemma_expr_counters(*r, c1);
            let (ra, ri, c2) = tr_expr(*r, c1);
            lemma_and_cover(li, ri, la, ra, lo, c1.temps, c2);
        },
        SpecExpr::Add(l, r) | SpecExpr::Sub(l, r) | SpecExpr::Mul(l, r) | SpecExpr::Div(l, r) => {
            lemma_expr_temps_cover(*l, c);
            lemma_expr_counters(*l, c);
            let (la, li, c1) = tr_expr(*l, c);
            lemma_expr_temps_cover(*r, c1);
            lemma_expr_counters(*r, c1);
            let (ra, ri, c2) = tr_expr(*r, c1);
            lemma_cover_join(li, ri, lo, c1.temps, c2.temps);
            let t = SpecAddress::Temporary(temp_name(c2.temps + 1), e.ty);
            let op = match e.exp {
                SpecExpr::Add(..) => Operator::Add,
                SpecExpr::Sub(..) => Operator::Sub,
                SpecExpr::Mul(..) => Operator::Mul,
                _ => Operator::Div,
            };
            lemma_cover_new(li + ri, SpecInstruction::BinaryAssignment(op, t, la, ra), lo, c2.temps);
        },
        _ => {},
    }
}

/// Code followed by one instruction, the range unchanged.
proof fn lemma_cover_push(a: Seq<SpecInstruction>, x: SpecInstruction, lo: nat, hi: nat)
    requires
        temps_cover(a, lo, hi),
    ensures
        temps_cover(a.push(x), lo, hi),
{
    lemma_cover_then(a, seq![x], lo, hi);
    assert(a.push(x) =~= a + seq![x]);
}

/// A condition's code uses every temporary it makes.
#[verifier::spinoff_prover]
pub proof fn lemma_cond_temps_cover(e: SpecExprD<Type>, c: Counters, fl: Seq<char>)
    ensures
        temps_cover(tr_cond(e, c, fl).0, c.temps, tr_cond(e, c, fl).1.temps),
    decreases e,
{
    let lo = c.temps;
    match e.exp {
        SpecExpr::Literal(SpecLiteral::Bool(true)) => {},
        SpecExpr::Literal(SpecLiteral::Bool(false)) => {},
        SpecExpr::Ident(_) => {},
        SpecExpr::And(l, r) => {
            let c0 = next_label(c);
            lemma_cond_temps_cover(*l, c0, fl);
            let (li, c1) = tr_cond(*l, c0, fl);
            lemma_cond_temps_cover(*r, c1, fl);
            let (ri, c2) = tr_cond(*r, c1, fl);
            lemma_cover_push(li, SpecInstruction::Label(label_name(c.labels + 1)), lo, c1.temps);
            lemma_cover_join(li.push(SpecInstruction::Label(label_name(c.labels + 1))), ri, lo, c1.temps, c2.temps);
        },
        SpecExpr::Or(l, r) => {
            let c0 = next_label(c);
            lemma_expr_temps_cover(*l, c0);
            let (la, li, c1) = tr_expr(*l, c0);
            lemma_cond_temps_cover(*r, c1, fl);
            let (ri, c2) = tr_cond(*r, c1, fl);
            let ls = label_name(c.labels + 1);
            lemma_cover_push(li, SpecInstruction::ConditionalJMP(la, ls), lo, c1.temps);
            lemma_cover_join(li.push(SpecInstruction::ConditionalJMP(la, ls)), ri, lo, c1.temps, c2.temps);
            lemma_cover_push(li.push(SpecInstruction::ConditionalJMP(la, ls)) + ri, SpecInstruction::Label(ls), lo, c2.temps);
        },
        SpecExpr::Not(x) => {
            lemma_expr_temps_cover(*x, c);
            let (a, xi, c1) = tr_expr(*x, c);
            lemma_cover_push(xi, SpecInstruction::ConditionalJMP(a, fl), lo, c1.temps);
        },
        SpecExpr::Lt(l, r) | SpecExpr::Le(l, r) | SpecExpr::Gt(l, r) | SpecExpr::Ge(l, r)
        | SpecExpr::Eq(l, r) | SpecExpr::Ne(l, r) => {
            lemma_expr_temps_cover(*l, c);
            let (la, li, c1) = tr_expr(*l, c);
            lemma_expr_temps_cover(*r, c1);
            let (ra, ri, c2) = tr_expr(*r, c1);
            lemma_cover_join(li, ri, lo, c1.temps, c2.temps);
            let op = match e.exp {
                SpecExpr::Lt(..) => Operator::LT,
                SpecExpr::Le(..) => Operator::LTE,
                SpecExpr::Gt(..) => Operator::GT,
                SpecExpr::Ge(..) => Operator::GTE,
                SpecExpr::Eq(..) => Operator::EQ,
                _ => Operator::NE,
            };
            lemma_cover_push(li + ri, SpecInstruction::ConditionalJMPRelational(negated(op), la, ra, fl), lo, c2.temps);
        },
        _ => {
            lemma_expr_temps_cover(e, c);
            let (a, xi, c1) = tr_expr(e, c);
            lemma_cover_push(xi, SpecInstruction::ConditionalJMPFalse(a, fl), lo, c1.temps);
        },
    }
}

proof fn lemma_args_temps_cover(args: Seq<SpecExprD<Type>>, c: Counters)
    ensures
        temps_cover(tr_args(args, c).1, c.temps, tr_args(args, c).2.temps),
    decreases args.len(),
{
    if args.len() > 0 {
        lemma_args_temps_cover(args.drop_last(), c);
        let (addrs, code, c1) = tr_args(args.drop_last(), c);
        lemma_expr_temps_cover(args.last(), c1);
        lemma_cover_join(code, tr_expr(args.last(), c1).1, c.temps, c1.temps, tr_expr(args.last(), c1).2.temps);
    }
}

proof fn lemma_opt_stmt_temps_cover(s: Option<Box<SpecStatementD<Type>>>, c: Counters)
    ensures
        temps_cover(tr_opt_stmt(s, c).0, c.temps, tr_opt_stmt(s, c).1.temps),
    decreases s, 2nat,
{
    match s {
        Some(x) => lemma_stmt_temps_cover(*x, c),
        None => {},
    }
}

#[verifier::spinoff_prover]
proof fn lemma_if_temps_cover(s: SpecStatementD<Type>, c: Counters)
    requires
        s.stmt is If,
    ensures
        temps_cover(tr_stmt(s, c).0, c.temps, tr_stmt(s, c).1.temps),
    decreases s, 0nat,
{
    let lo = c.temps;
    match s.stmt {
        SpecStatement::If { cond, then_branch, else_branch } => match else_branch {
            Some(e) => {
                let le = label_name(c.labels + 1);
                let lend = label_name(c.labels + 2);
                let c0 = next_label(next_label(c));
                lemma_cond_temps_cover(*cond, c0, le);
                let (ci, c1) = tr_cond(*cond, c0, le);
                lemma_stmt_temps_cover(*then_branch, c1);
                let (ti, c2) = tr_stmt(*then_branch, c1);
                lemma_stmt_temps_cover(*e, c2);
                let (ei, c3) = tr_stmt(*e, c2);
                lemma_cover_join(ci, ti, lo, c1.temps, c2.temps);
                lemma_cover_push(ci + ti, SpecInstruction::JMP(lend), lo, c2.temps);
                lemma_cover_push((ci + ti).push(SpecInstruction::JMP(lend)), SpecInstruction::Label(le), lo, c2.temps);
                let k = (ci + ti).push(SpecInstruction::JMP(lend)).push(SpecInstruction::Label(le));
                lemma_cover_join(k, ei, lo, c2.temps, c3.temps);
                lemma_cover_push(k + ei, SpecInstruction::Label(lend), lo, c3.temps);
            },
            None => {
                let lend = label_name(c.labels + 1);
                let c0 = next_label(c);
                lemma_cond_temps_cover(*cond, c0, lend);
                let (ci, c1) = tr_cond(*cond, c0, lend);
                lemma_stmt_temps_cover(*then_branch, c1);
                let (ti, c2) = tr_stmt(*then_branch, c1);
                lemma_cover_join(ci, ti, lo, c1.temps, c2.temps);
                lemma_cover_push(ci + ti, SpecInstruction::Label(lend), lo, c2.temps);
            },
        },
        _ => {},
    }
}

#[verifier::spinoff_prover]
proof fn lemma_loop_temps_cover(s: SpecStatementD<Type>, c: Counters)
    requires
        s.stmt is While || s.stmt is For,
    ensures
        temps_cover(tr_stmt(s, c).0, c.temps, tr_stmt(s, c).1.temps),
    decreases s, 0nat,
{
    let lo = c.temps;
    let lt = label_name(c.labels + 1);
    let le = label_name(c.labels + 2);
    let c0 = next_label(next_label(c));
    match s.stmt {
        SpecStatement::While { cond, body } => {
            lemma_cond_temps_cover(*cond, c0, le);
            let (ci, c1) = tr_cond(*cond, c0, le);
            lemma_stmt_temps_cover(*body, c1);
            let (bi, c2) = tr_stmt(*body, c1);
            let first = seq![SpecInstruction::Label(lt)];
            lemma_cover_join(first, ci, lo, lo, c1.temps);
            lemma_cover_join(first + ci, bi, lo, c1.temps, c2.temps);
            lemma_cover_push(first + ci + bi, SpecInstruction::JMP(lt), lo, c2.temps);
            lemma_cover_push((first + ci + bi).push(SpecInstruction::JMP(lt)), SpecInstruction::Label(le), lo, c2.temps);
        },
        SpecStatement::For { init, cond, update, body } => {
            lemma_opt_stmt_temps_cover(init, c0);
            let (ii, c1) = tr_opt_stmt(init, c0);
            let head = ii.push(SpecInstruction::Label(lt));
            lemma_cover_push(ii, SpecInstruction::Label(lt), lo, c1.temps);
            let c2 = match cond {
                Some(x) => tr_cond(*x, c1, le).1,
                None => c1,
            };
            let hc = match cond {
                Some(x) => head + tr_cond(*x, c1, le).0,
                None => head,
            };
            match cond {
                Some(x) => {
                    lemma_cond_temps_cover(*x, c1, le);
                    lemma_cover_join(head, tr_cond(*x, c1, le).0, lo, c1.temps, c2.temps);
                },
                None => {},
            }
            lemma_stmt_temps_cover(*body, c2);
            let (bi, c3) = tr_stmt(*body, c2);
            lemma_cover_join(hc, bi, lo, c2.temps, c3.temps);
            lemma_opt_stmt_temps_cover(update, c3);
            let (ui, c4) = tr_opt_stmt(update, c3);
            lemma_cover_join(hc + bi, ui, lo, c3.temps, c4.temps);
            lemma_cover_push(hc + bi + ui, SpecInstruction::JMP(lt), lo, c4.temps);
            lemma_cover_push((hc + bi + ui).push(SpecInstruction::JMP(lt)), SpecInstruction::Label(le), lo, c4.temps);
        },
        _ => {},
    }
}

/// A statement's code uses every temporary it makes.
#[verifier::spinoff_prover]
pub proof fn lemma_stmt_temps_cover(s: SpecStatementD<Type>, c: Counters)
    ensures
        temps_cover(tr_stmt(s, c).0, c.temps, tr_stmt(s, c).1.temps),
    decreases s, 1nat,
{
    let lo = c.temps;
    match s.stmt {
        SpecStatement::Block { seq } => lemma_stmts_temps_cover(seq, c),
        SpecStatement::Decl { name, ty, init } => {
            lemma_expr_temps_cover(*init, c);
            let (a, ii, c1) = tr_expr(*init, c);
            lemma_cover_push(ii, SpecInstruction::CopyAssignment(SpecAddress::Variable(name, ty), a), lo, c1.temps);
        },
        SpecStatement::Assign { target, value } => match target.exp {
            SpecExpr::Ident(x) => {
                lemma_expr_temps_cover(*value, c);
                let (a, vi, c1) = tr_expr(*value, c);
                lemma_cover_push(vi, SpecInstruction::CopyAssignment(SpecAddress::Variable(x, target.ty), a), lo, c1.temps);
            },
            _ => {},
        },
        SpecStatement::Call { name, args } => {
            lemma_args_temps_cover(args, c);
            let (addrs, code, c1) = tr_args(args, c);
            lemma_cover_then(code, params_code(addrs), lo, c1.temps);
            lemma_cover_push(code + params_code(addrs), SpecInstruction::Call(None, name, args.len() as usize), lo, c1.temps);
        },
        SpecStatement::If { .. } => lemma_if_temps_cover(s, c),
        SpecStatement::While { .. } | SpecStatement::For { .. } => lemma_loop_temps_cover(s, c),
        SpecStatement::Return(e) => match e {
            None => {},
            Some(x) => {
                lemma_expr_temps_cover(*x, c);
                let (a, xi, c1) = tr_expr(*x, c);
                lemma_cover_push(xi, SpecInstruction::Return(Some(a)), lo, c1.temps);
            },
        },
    }
}

proof fn lemma_stmts_temps_cover(ss: Seq<SpecStatementD<Type>>, c: Counters)
    ensures
        temps_cover(tr_stmts(ss, c).0, c.temps, tr_stmts(ss, c).1.temps),
    decreases ss, 0nat,
{
    if ss.len() > 0 {
        lemma_stmts_temps_cover(ss.drop_last(), c);
        let (pi, c1) = tr_stmts(ss.drop_last(), c);
        lemma_stmt_temps_cover(ss.last(), c1);
        lemma_cover_join(pi, tr_stmt(ss.last(), c1).0, c.temps, c1.temps, tr_stmt(ss.last(), c1).1.temps);
    }
}

/// The temporaries of the code of a statement are exactly those named after
/// the numbers above the temporary counter the translation starts from, up to
/// the counter it leaves: every temporary made is used, and no other is, so
/// from a new environment they are `temp1` up to the last one made.
pub proof fn law_statement_temporaries_are_dense(s: SpecStatementD<Type>, c: Counters)
    ensures
        temps_within(tr_stmt(s, c).0, c.temps, tr_stmt(s, c).1.temps),
        temps_cover(tr_stmt(s, c).0, c.temps, tr_stmt(s, c).1.temps),
{
    lemma_stmt_temps(s, c);
    lemma_stmt_temps_cover(s, c);
}

} // verus!
