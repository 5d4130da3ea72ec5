//! Type checker for MiniC.
//!
//! Consumes an unchecked program and returns either the checked program, in
//! which every node carries its type, or the first type error met. The typing
//! rules are the spec functions below; each executable function is proved to
//! compute the one of the same name, message for message.

use vstd::prelude::*;
use vstd::string::StringExecFns;
use crate::ir::ast::{
    copy_literal, copy_type, expr_view, exprs_view, lemma_exprs_view, lemma_exprs_view_push,
    copy_params, fun_view, funs_view, lemma_stmts_view, lemma_stmts_view_push, params_view,
    stmts_view, CheckedExpr, CheckedFunDecl, CheckedProgram, CheckedStmt, Expr, ExprD, FunDecl,
    Literal, Program, SpecExpr, SpecExprD, SpecFunDecl, SpecLiteral, SpecProgram, SpecStatement,
    SpecStatementD, Statement, StatementD, Type, UncheckedExpr, UncheckedFunDecl,
    UncheckedProgram, UncheckedStmt,
};
use crate::semantic::env::{FunSigs, SigEnv, TypeEnv, VarEnv};
use crate::text::{decimal, push_decimal};

verus! {

// ---------------------------------------------------------------------------
// Typing rules
// ---------------------------------------------------------------------------

pub open spec fn spec_literal_type(l: SpecLiteral) -> Type {
    match l {
        SpecLiteral::Int(_) => Type::Int,
        SpecLiteral::Float(_) => Type::Float,
        SpecLiteral::Str(_) => Type::Str,
        SpecLiteral::Bool(_) => Type::Bool,
    }
}

/// Whether a value of type `a` may stand where `b` is expected: equal types,
/// `Int` and `Float` either way, and arrays of compatible elements.
pub open spec fn compatible(a: Type, b: Type) -> bool
    decreases a,
{
    match (a, b) {
        (Type::Int, Type::Int) => true,
        (Type::Float, Type::Float) => true,
        (Type::Bool, Type::Bool) => true,
        (Type::Str, Type::Str) => true,
        (Type::Int, Type::Float) => true,
        (Type::Float, Type::Int) => true,
        (Type::Array(x), Type::Array(y)) => compatible(*x, *y),
        _ => false,
    }
}

/// Compatibility of types is symmetric, and `Unit` is compatible with no type.
/// `Int` and `Float` are compatible with each other and with themselves
/// (numbers coerce); `Bool` and `Str` only with themselves; arrays when their
/// elements are.
pub proof fn law_compatibility_is_symmetric(a: Type, b: Type)
    ensures
        compatible(a, b) == compatible(b, a),
        !compatible(Type::Unit, b),
        (a is Int || a is Float) ==> (compatible(a, b) <==> (b is Int || b is Float)),
        a is Bool ==> (compatible(a, b) <==> b is Bool),
        a is Str ==> (compatible(a, b) <==> b is Str),
        (a is Array) ==> (compatible(a, b) <==> (b matches Type::Array(y) && compatible(*a->Array_0, *y))),
    decreases a,
{
    match (a, b) {
        (Type::Array(x), Type::Array(y)) => {
            law_compatibility_is_symmetric(*x, *y);
        },
        _ => {},
    }
}

/// The type of an arithmetic operation on operands of types `l` and `r`.
pub open spec fn arith_result(l: Type, r: Type) -> Result<Type, Seq<char>> {
    match (l, r) {
        (Type::Int, Type::Int) => Ok(Type::Int),
        (Type::Int, Type::Float) => Ok(Type::Float),
        (Type::Float, Type::Int) => Ok(Type::Float),
        (Type::Float, Type::Float) => Ok(Type::Float),
        _ => Err("arithmetic operands must be Int or Float"@),
    }
}

/// How a type is written in error messages (as `{:?}` writes it).
pub open spec fn type_text(t: Type) -> Seq<char>
    decreases t,
{
    match t {
        Type::Int => "Int"@,
        Type::Float => "Float"@,
        Type::Bool => "Bool"@,
        Type::Str => "Str"@,
        Type::Unit => "Unit"@,
        Type::Array(e) => "Array("@ + type_text(*e) + ")"@,
    }
}

/// Both results, or the first error.
pub open spec fn both<A, B>(a: Result<A, Seq<char>>, b: Result<B, Seq<char>>) -> Result<(A, B), Seq<char>> {
    match a {
        Err(m) => Err(m),
        Ok(x) => match b {
            Err(m) => Err(m),
            Ok(y) => Ok((x, y)),
        },
    }
}

/// The check of the arguments `args` of a call of `name` against the
/// parameter types `params`, up to argument `n`; the first mismatch wins.
pub open spec fn args_compatible(name: Seq<char>, args: Seq<SpecExprD<Type>>, params: Seq<Type>, n: nat) -> Result<(), Seq<char>>
    decreases n,
{
    if n == 0 {
        Ok(())
    } else {
        match args_compatible(name, args, params, (n - 1) as nat) {
            Err(m) => Err(m),
            Ok(_) => if compatible(args[n - 1].ty, params[n - 1]) {
                Ok(())
            } else {
                Err("argument "@ + decimal(n) + " to "@ + name + ": expected "@ + type_text(params[n - 1]) + ", got "@ + type_text(args[n - 1].ty))
            },
        }
    }
}

/// The check of a call of `name` with the checked arguments `args`; on
/// success, the return type of `name`.
pub open spec fn call_result(name: Seq<char>, args: Seq<SpecExprD<Type>>, sigs: SigEnv) -> Result<Type, Seq<char>> {
    if !sigs.contains_key(name) {
        Err("undefined function: "@ + name)
    } else {
        let (params, ret) = sigs[name];
        if args.len() != params.len() {
            Err("function "@ + name + " expects "@ + decimal(params.len()) + " arguments, got "@ + decimal(args.len()))
        } else {
            match args_compatible(name, args, params, args.len()) {
                Err(m) => Err(m),
                Ok(_) => Ok(ret),
            }
        }
    }
}

/// The type of an expression, or the first error met.
pub open spec fn expr_type(e: SpecExprD<()>, env: TypeEnv, sigs: SigEnv) -> Result<Type, Seq<char>>
    decreases e, 0nat,
{
    match e.exp {
        SpecExpr::Literal(l) => Ok(spec_literal_type(l)),
        SpecExpr::Ident(n) => if env.contains_key(n) {
            Ok(env[n])
        } else {
            Err("undeclared variable: "@ + n)
        },
        SpecExpr::Neg(a) => match expr_type(*a, env, sigs) {
            Err(m) => Err(m),
            Ok(t) => if t is Int || t is Float {
                Ok(t)
            } else {
                Err("unary minus requires Int or Float"@)
            },
        },
        SpecExpr::Add(a, b) => match both(expr_type(*a, env, sigs), expr_type(*b, env, sigs)) {
            Err(m) => Err(m),
            Ok((x, y)) => arith_result(x, y),
        },
        SpecExpr::Sub(a, b) => match both(expr_type(*a, env, sigs), expr_type(*b, env, sigs)) {
            Err(m) => Err(m),
            Ok((x, y)) => arith_result(x, y),
        },
        SpecExpr::Mul(a, b) => match both(expr_type(*a, env, sigs), expr_type(*b, env, sigs)) {
            Err(m) => Err(m),
            Ok((x, y)) => arith_result(x, y),
        },
        SpecExpr::Div(a, b) => match both(expr_type(*a, env, sigs), expr_type(*b, env, sigs)) {
            Err(m) => Err(m),
            Ok((x, y)) => arith_result(x, y),
        },
        SpecExpr::Eq(a, b) => match both(expr_type(*a, env, sigs), expr_type(*b, env, sigs)) {
            Err(m) => Err(m),
            Ok(_) => Ok(Type::Bool),
        },
        SpecExpr::Ne(a, b) => match both(expr_type(*a, env, sigs), expr_type(*b, env, sigs)) {
            Err(m) => Err(m),
            Ok(_) => Ok(Type::Bool),
        },
        SpecExpr::Lt(a, b) => match both(expr_type(*a, env, sigs), expr_type(*b, env, sigs)) {
            Err(m) => Err(m),
            Ok(_) => Ok(Type::Bool),
        },
        SpecExpr::Le(a, b) => match both(expr_type(*a, env, sigs), expr_type(*b, env, sigs)) {
            Err(m) => Err(m),
            Ok(_) => Ok(Type::Bool),
        },
        SpecExpr::Gt(a, b) => match both(expr_type(*a, env, sigs), expr_type(*b, env, sigs)) {
            Err(m) => Err(m),
            Ok(_) => Ok(Type::Bool),
        },
        SpecExpr::Ge(a, b) => match both(expr_type(*a, env, sigs), expr_type(*b, env, sigs)) {
            Err(m) => Err(m),
            Ok(_) => Ok(Type::Bool),
        },
        SpecExpr::Not(a) => match expr_type(*a, env, sigs) {
            Err(m) => Err(m),
            Ok(t) => if t == Type::Bool {
                Ok(Type::Bool)
            } else {
                Err("not requires Bool operand"@)
            },
        },
        SpecExpr::And(a, b) => match both(expr_type(*a, env, sigs), expr_type(*b, env, sigs)) {
            Err(m) => Err(m),
            Ok((x, y)) => if x == Type::Bool && y == Type::Bool {
                Ok(Type::Bool)
            } else {
                Err("and/or require Bool operands"@)
            },
        },
        SpecExpr::Or(a, b) => match both(expr_type(*a, env, sigs), expr_type(*b, env, sigs)) {
            Err(m) => Err(m),
            Ok((x, y)) => if x == Type::Bool && y == Type::Bool {
                Ok(Type::Bool)
            } else {
                Err("and/or require Bool operands"@)
            },
        },
        SpecExpr::Call { name, args } => match typed_list(args, env, sigs) {
            Err(m) => Err(m),
            Ok(checked) => call_result(name, checked, sigs),
        },
        SpecExpr::ArrayLit(elems) => if elems.len() == 0 {
            Err("empty array literal needs type annotation"@)
        } else {
            match expr_type(elems[0], env, sigs) {
                Err(m) => Err(m),
                Ok(first) => match elements_agree(first, elems.subrange(1, elems.len() as int), env, sigs) {
                    Err(m) => Err(m),
                    Ok(_) => Ok(Type::Array(Box::new(first))),
                },
            }
        },
        SpecExpr::Index { base, index } => match expr_type(*index, env, sigs) {
            Err(m) => Err(m),
            Ok(it) => if it != Type::Int {
                Err("array index must be Int"@)
            } else {
                match expr_type(*base, env, sigs) {
                    Err(m) => Err(m),
                    Ok(bt) => match bt {
                        Type::Array(elem) => Ok(*elem),
                        _ => Err("indexed expression must be array"@),
                    },
                }
            },
        },
    }
}

/// The check that every expression of `elems` has a type compatible with
/// `first`, in order.
pub open spec fn elements_agree(first: Type, elems: Seq<SpecExprD<()>>, env: TypeEnv, sigs: SigEnv) -> Result<(), Seq<char>>
    decreases elems, 0nat,
{
    if elems.len() == 0 {
        Ok(())
    } else {
        match elements_agree(first, elems.drop_last(), env, sigs) {
            Err(m) => Err(m),
            Ok(_) => match expr_type(elems.last(), env, sigs) {
                Err(m) => Err(m),
                Ok(t) => if compatible(first, t) {
                    Ok(())
                } else {
                    Err("array elements must have same type"@)
                },
            },
        }
    }
}

/// The checked form of an expression: its type, then its parts checked.
pub open spec fn typed(e: SpecExprD<()>, env: TypeEnv, sigs: SigEnv) -> Result<SpecExprD<Type>, Seq<char>>
    decreases e, 1nat,
{
    match expr_type(e, env, sigs) {
        Err(m) => Err(m),
        Ok(t) => match typed_parts(e.exp, env, sigs) {
            Err(m) => Err(m),
            Ok(x) => Ok(SpecExprD { exp: x, ty: t }),
        },
    }
}

/// An expression node whose immediate parts are checked, in order.
pub open spec fn typed_parts(e: SpecExpr<()>, env: TypeEnv, sigs: SigEnv) -> Result<SpecExpr<Type>, Seq<char>>
    decreases e, 0nat,
{
    match e {
        SpecExpr::Literal(l) => Ok(SpecExpr::Literal(l)),
        SpecExpr::Ident(n) => Ok(SpecExpr::Ident(n)),
        SpecExpr::Neg(a) => match typed(*a, env, sigs) {
            Err(m) => Err(m),
            Ok(x) => Ok(SpecExpr::Neg(Box::new(x))),
        },
        SpecExpr::Add(a, b) => match both(typed(*a, env, sigs), typed(*b, env, sigs)) {
            Err(m) => Err(m),
            Ok((x, y)) => Ok(SpecExpr::Add(Box::new(x), Box::new(y))),
        },
        SpecExpr::Sub(a, b) => match both(typed(*a, env, sigs), typed(*b, env, sigs)) {
            Err(m) => Err(m),
            Ok((x, y)) => Ok(SpecExpr::Sub(Box::new(x), Box::new(y))),
        },
        SpecExpr::Mul(a, b) => match both(typed(*a, env, sigs), typed(*b, env, sigs)) {
            Err(m) => Err(m),
            Ok((x, y)) => Ok(SpecExpr::Mul(Box::new(x), Box::new(y))),
        },
        SpecExpr::Div(a, b) => match both(typed(*a, env, sigs), typed(*b, env, sigs)) {
            Err(m) => Err(m),
            Ok((x, y)) => Ok(SpecExpr::Div(Box::new(x), Box::new(y))),
        },
        SpecExpr::Eq(a, b) => match both(typed(*a, env, sigs), typed(*b, env, sigs)) {
            Err(m) => Err(m),
            Ok((x, y)) => Ok(SpecExpr::Eq(Box::new(x), Box::new(y))),
        },
        SpecExpr::Ne(a, b) => match both(typed(*a, env, sigs), typed(*b, env, sigs)) {
            Err(m) => Err(m),
            Ok((x, y)) => Ok(SpecExpr::Ne(Box::new(x), Box::new(y))),
        },
        SpecExpr::Lt(a, b) => match both(typed(*a, env, sigs), typed(*b, env, sigs)) {
            Err(m) => Err(m),
            Ok((x, y)) => Ok(SpecExpr::Lt(Box::new(x), Box::new(y))),
        },
        SpecExpr::Le(a, b) => match both(typed(*a, env, sigs), typed(*b, env, sigs)) {
            Err(m) => Err(m),
            Ok((x, y)) => Ok(SpecExpr::Le(Box::new(x), Box::new(y))),
        },
        SpecExpr::Gt(a, b) => match both(typed(*a, env, sigs), typed(*b, env, sigs)) {
            Err(m) => Err(m),
            Ok((x, y)) => Ok(SpecExpr::Gt(Box::new(x), Box::new(y))),
        },
        SpecExpr::Ge(a, b) => match both(typed(*a, env, sigs), typed(*b, env, sigs)) {
            Err(m) => Err(m),
            Ok((x, y)) => Ok(SpecExpr::Ge(Box::new(x), Box::new(y))),
        },
        SpecExpr::Not(a) => match typed(*a, env, sigs) {
            Err(m) => Err(m),
            Ok(x) => Ok(SpecExpr::Not(Box::new(x))),
        },
        SpecExpr::And(a, b) => match both(typed(*a, env, sigs), typed(*b, env, sigs)) {
            Err(m) => Err(m),
            Ok((x, y)) => Ok(SpecExpr::And(Box::new(x), Box::new(y))),
        },
        SpecExpr::Or(a, b) => match both(typed(*a, env, sigs), typed(*b, env, sigs)) {
            Err(m) => Err(m),
            Ok((x, y)) => Ok(SpecExpr::Or(Box::new(x), Box::new(y))),
        },
        SpecExpr::Call { name, args } => match typed_list(args, env, sigs) {
            Err(m) => Err(m),
            Ok(xs) => Ok(SpecExpr::Call { name, args: xs }),
        },
        SpecExpr::ArrayLit(elems) => match typed_list(elems, env, sigs) {
            Err(m) => Err(m),
            Ok(xs) => Ok(SpecExpr::ArrayLit(xs)),
        },
        SpecExpr::Index { base, index } => match both(typed(*base, env, sigs), typed(*index, env, sigs)) {
            Err(m) => Err(m),
            Ok((x, y)) => Ok(SpecExpr::Index { base: Box::new(x), index: Box::new(y) }),
        },
    }
}

/// A list of expressions checked in order; the first error wins.
pub open spec fn typed_list(es: Seq<SpecExprD<()>>, env: TypeEnv, sigs: SigEnv) -> Result<Seq<SpecExprD<Type>>, Seq<char>>
    decreases es, 0nat,
{
    if es.len() == 0 {
        Ok(Seq::empty())
    } else {
        match typed_list(es.drop_last(), env, sigs) {
            Err(m) => Err(m),
            Ok(xs) => match typed(es.last(), env, sigs) {
                Err(m) => Err(m),
                Ok(x) => Ok(xs.push(x)),
            },
        }
    }
}

/// A statement node of unit type.
pub open spec fn unit_stmt(stmt: SpecStatement<Type>) -> SpecStatementD<Type> {
    SpecStatementD { stmt, ty: Type::Unit }
}

/// The check of an assignment target against the type of the assigned
/// value; assigning to a variable (re)binds it to that type.
pub open spec fn target_check(target: SpecExpr<()>, value_ty: Type, env: TypeEnv, sigs: SigEnv) -> Result<TypeEnv, Seq<char>> {
    match target {
        SpecExpr::Ident(n) => Ok(env.insert(n, value_ty)),
        SpecExpr::Index { base, index } => match expr_type(*index, env, sigs) {
            Err(m) => Err(m),
            Ok(it) => if it != Type::Int {
                Err("array index must be Int"@)
            } else {
                match expr_type(*base, env, sigs) {
                    Err(m) => Err(m),
                    Ok(bt) => match bt {
                        Type::Array(elem) => if *elem != value_ty {
                            Err("assignment type mismatch"@)
                        } else {
                            Ok(env)
                        },
                        _ => Err("indexed target must be array"@),
                    },
                }
            },
        },
        _ => Err("invalid assignment target"@),
    }
}

/// The check of a condition of the statement `what`: its checked form, of type `Bool`.
pub open spec fn condition(what: Seq<char>, c: SpecExprD<()>, env: TypeEnv, sigs: SigEnv) -> Result<SpecExprD<Type>, Seq<char>> {
    match typed(c, env, sigs) {
        Err(m) => Err(m),
        Ok(x) => if x.ty != Type::Bool {
            Err(what + " condition must be Bool, got "@ + type_text(x.ty))
        } else {
            Ok(x)
        },
    }
}

/// The checked form of a statement and the variable types after it, or the
/// first error met.
///
/// The rules for declarations, `for` loops and `return` are this library's
/// own, chosen to agree with the other statements:
/// - a declaration checks its initial value, fails with "declaration of
///   NAME: expected T, got U" unless the value's type is `compatible`
///   with the declared one, and then binds the name to the declared type;
/// - a `for` loop checks its initialisation, then its condition (which must be
///   `Bool`: "for condition must be Bool, got T"), then its body, then its
///   update, each seeing the variable types the one before left;
/// - a `return` checks its value, if it has one; the value is not compared
///   with the function's return type.
pub open spec fn stmt_check(s: SpecStatementD<()>, env: TypeEnv, sigs: SigEnv) -> Result<(SpecStatementD<Type>, TypeEnv), Seq<char>>
    decreases s,
{
    match s.stmt {
        SpecStatement::Decl { name, ty, init } => match typed(*init, env, sigs) {
            Err(m) => Err(m),
            Ok(i) => if !compatible(i.ty, ty) {
                Err("declaration of "@ + name + ": expected "@ + type_text(ty) + ", got "@ + type_text(i.ty))
            } else {
                Ok((unit_stmt(SpecStatement::Decl { name, ty, init: Box::new(i) }), env.insert(name, ty)))
            },
        },
        SpecStatement::Assign { target, value } => match typed(*value, env, sigs) {
            Err(m) => Err(m),
            Ok(v) => match target_check(target.exp, v.ty, env, sigs) {
                Err(m) => Err(m),
                Ok(env1) => match typed(*target, env1, sigs) {
                    Err(m) => Err(m),
                    Ok(t) => Ok((unit_stmt(SpecStatement::Assign { target: Box::new(t), value: Box::new(v) }), env1)),
                },
            },
        },
        SpecStatement::Block { seq } => match stmts_check(seq, env, sigs) {
            Err(m) => Err(m),
            Ok((xs, env1)) => Ok((unit_stmt(SpecStatement::Block { seq: xs }), env1)),
        },
        SpecStatement::Call { name, args } => match typed_list(args, env, sigs) {
            Err(m) => Err(m),
            Ok(xs) => match call_result(name, xs, sigs) {
                Err(m) => Err(m),
                Ok(_) => Ok((unit_stmt(SpecStatement::Call { name, args: xs }), env)),
            },
        },
        SpecStatement::If { cond, then_branch, else_branch } => match condition("if"@, *cond, env, sigs) {
            Err(m) => Err(m),
            Ok(c) => match stmt_check(*then_branch, env, sigs) {
                Err(m) => Err(m),
                Ok((t, env1)) => match else_branch {
                    None => Ok((unit_stmt(SpecStatement::If { cond: Box::new(c), then_branch: Box::new(t), else_branch: None }), env1)),
                    Some(e) => match stmt_check(*e, env1, sigs) {
                        Err(m) => Err(m),
                        Ok((x, env2)) => Ok((unit_stmt(SpecStatement::If {
                            cond: Box::new(c),
                            then_branch: Box::new(t),
                            else_branch: Some(Box::new(x)),
                        }), env2)),
                    },
                },
            },
        },
        SpecStatement::While { cond, body } => match condition("while"@, *cond, env, sigs) {
            Err(m) => Err(m),
            Ok(c) => match stmt_check(*body, env, sigs) {
                Err(m) => Err(m),
                Ok((b, env1)) => Ok((unit_stmt(SpecStatement::While { cond: Box::new(c), body: Box::new(b) }), env1)),
            },
        },
        SpecStatement::For { init, cond, update, body } => {
            let r_init = match init {
                None => Ok((None, env)),
                Some(i) => match stmt_check(*i, env, sigs) {
                    Err(m) => Err(m),
                    Ok((x, e1)) => Ok((Some(Box::new(x)), e1)),
                },
            };
            match r_init {
                Err(m) => Err(m),
                Ok((i2, env1)) => {
                    let r_cond = match cond {
                        None => Ok(None),
                        Some(c) => match condition("for"@, *c, env1, sigs) {
                            Err(m) => Err(m),
                            Ok(x) => Ok(Some(Box::new(x))),
                        },
                    };
                    match r_cond {
                        Err(m) => Err(m),
                        Ok(c2) => match stmt_check(*body, env1, sigs) {
                            Err(m) => Err(m),
                            Ok((b, env2)) => {
                                let r_update = match update {
                                    None => Ok((None, env2)),
                                    Some(u) => match stmt_check(*u, env2, sigs) {
                                        Err(m) => Err(m),
                                        Ok((x, e3)) => Ok((Some(Box::new(x)), e3)),
                                    },
                                };
                                match r_update {
                                    Err(m) => Err(m),
                                    Ok((u2, env3)) => Ok((unit_stmt(SpecStatement::For {
                                        init: i2,
                                        cond: c2,
                                        update: u2,
                                        body: Box::new(b),
                                    }), env3)),
                                }
                            },
                        },
                    }
                },
            }
        },
        SpecStatement::Return(e) => match e {
            None => Ok((unit_stmt(SpecStatement::Return(None)), env)),
            Some(x) => match typed(*x, env, sigs) {
                Err(m) => Err(m),
                Ok(t) => Ok((unit_stmt(SpecStatement::Return(Some(Box::new(t)))), env)),
            },
        },
    }
}

/// A list of statements checked in order, each seeing the variable types
/// left by the ones before it.
pub open spec fn stmts_check(ss: Seq<SpecStatementD<()>>, env: TypeEnv, sigs: SigEnv) -> Result<(Seq<SpecStatementD<Type>>, TypeEnv), Seq<char>>
    decreases ss,
{
    if ss.len() == 0 {
        Ok((Seq::empty(), env))
    } else {
        match stmts_check(ss.drop_last(), env, sigs) {
            Err(m) => Err(m),
            Ok((xs, env1)) => match stmt_check(ss.last(), env1, sigs) {
                Err(m) => Err(m),
                Ok((x, env2)) => Ok((xs.push(x), env2)),
            },
        }
    }
}

/// The variable types that checking `s` from `env` leaves when it fails: what
/// the parts checked before the error bound stays bound, and the failing
/// part adds nothing.
pub open spec fn stmt_err_env(s: SpecStatementD<()>, env: TypeEnv, sigs: SigEnv) -> TypeEnv
    decreases s,
{
    match s.stmt {
        SpecStatement::Block { seq } => stmts_err_env(seq, env, sigs),
        SpecStatement::If { cond, then_branch, else_branch } => match condition("if"@, *cond, env, sigs) {
            Err(_) => env,
            Ok(_) => match stmt_check(*then_branch, env, sigs) {
                Err(_) => stmt_err_env(*then_branch, env, sigs),
                Ok((_, env1)) => match else_branch {
                    Some(e) => stmt_err_env(*e, env1, sigs),
                    None => env1,
                },
            },
        },
        SpecStatement::While { cond, body } => match condition("while"@, *cond, env, sigs) {
            Err(_) => env,
            Ok(_) => stmt_err_env(*body, env, sigs),
        },
        SpecStatement::For { init, cond, update, body } => {
            let r_init = match init {
                None => Ok(env),
                Some(i) => match stmt_check(*i, env, sigs) {
                    Err(_) => Err(stmt_err_env(*i, env, sigs)),
                    Ok((_, e1)) => Ok(e1),
                },
            };
            match r_init {
                Err(e) => e,
                Ok(env1) => {
                    let cond_fails = match cond {
                        None => false,
                        Some(c) => condition("for"@, *c, env1, sigs) is Err,
                    };
                    if cond_fails {
                        env1
                    } else {
                        match stmt_check(*body, env1, sigs) {
                            Err(_) => stmt_err_env(*body, env1, sigs),
                            Ok((_, env2)) => match update {
                                Some(u) => stmt_err_env(*u, env2, sigs),
                                None => env2,
                            },
                        }
                    }
                },
            }
        },
        _ => env,
    }
}

/// The variable types that checking the list `ss` leaves when it fails.
pub open spec fn stmts_err_env(ss: Seq<SpecStatementD<()>>, env: TypeEnv, sigs: SigEnv) -> TypeEnv
    decreases ss,
{
    if ss.len() == 0 {
        env
    } else {
        match stmts_check(ss.drop_last(), env, sigs) {
            Err(_) => stmts_err_env(ss.drop_last(), env, sigs),
            Ok((_, env1)) => stmt_err_env(ss.last(), env1, sigs),
        }
    }
}

/// The variable types at the start of a function: its parameters.
pub open spec fn params_env(ps: Seq<(Seq<char>, Type)>) -> TypeEnv
    decreases ps.len(),
{
    if ps.len() == 0 {
        Map::empty()
    } else {
        params_env(ps.drop_last()).insert(ps.last().0, ps.last().1)
    }
}

/// The checked form of a function: its body checked with its parameters in scope.
pub open spec fn fun_check(f: SpecFunDecl<()>, sigs: SigEnv) -> Result<SpecFunDecl<Type>, Seq<char>> {
    match stmt_check(f.body, params_env(f.params), sigs) {
        Err(m) => Err(m),
        Ok((b, _)) => Ok(SpecFunDecl { name: f.name, params: f.params, return_type: f.return_type, body: b }),
    }
}

/// Functions checked in order; the first error wins.
pub open spec fn funs_check(fs: Seq<SpecFunDecl<()>>, sigs: SigEnv) -> Result<Seq<SpecFunDecl<Type>>, Seq<char>>
    decreases fs.len(),
{
    if fs.len() == 0 {
        Ok(Seq::empty())
    } else {
        match funs_check(fs.drop_last(), sigs) {
            Err(m) => Err(m),
            Ok(xs) => match fun_check(fs.last(), sigs) {
                Err(m) => Err(m),
                Ok(x) => Ok(xs.push(x)),
            },
        }
    }
}

/// The signatures of the functions of a program; of two functions with the
/// same name, the later one is seen.
pub open spec fn signatures_of(fs: Seq<SpecFunDecl<()>>) -> SigEnv
    decreases fs.len(),
{
    if fs.len() == 0 {
        Map::empty()
    } else {
        signatures_of(fs.drop_last()).insert(
            fs.last().name,
            (fs.last().params.map_values(|p: (Seq<char>, Type)| p.1), fs.last().return_type),
        )
    }
}

/// Whether some function is named `main`.
pub open spec fn has_main<Ty>(fs: Seq<SpecFunDecl<Ty>>) -> bool {
    exists|i: int| 0 <= i < fs.len() && #[trigger] fs[i].name == "main"@
}

/// The checked program, or the first error: a program without `main` is
/// refused before anything else is checked.
pub open spec fn program_check(p: SpecProgram<()>) -> Result<SpecProgram<Type>, Seq<char>> {
    if !has_main(p.functions) {
        Err("program must have a main function"@)
    } else {
        match funs_check(p.functions, signatures_of(p.functions)) {
            Err(m) => Err(m),
            Ok(fs) => Ok(SpecProgram { functions: fs }),
        }
    }
}

proof fn lemma_funs_check_prefix(t: Seq<SpecFunDecl<()>>, j: int, sigs: SigEnv)
    requires
        0 <= j <= t.len(),
        funs_check(t.take(j), sigs) is Err,
    ensures
        funs_check(t, sigs) == funs_check(t.take(j), sigs),
    decreases t.len() - j,
{
    if j == t.len() {
        assert(t.take(j) =~= t);
    } else {
        assert(t.take(j + 1).drop_last() =~= t.take(j));
        lemma_funs_check_prefix(t, j + 1, sigs);
    }
}

proof fn lemma_stmts_err_env_prefix(t: Seq<SpecStatementD<()>>, j: int, env: TypeEnv, sigs: SigEnv)
    requires
        0 <= j <= t.len(),
        stmts_check(t.take(j), env, sigs) is Err,
    ensures
        stmts_err_env(t, env, sigs) == stmts_err_env(t.take(j), env, sigs),
    decreases t.len() - j,
{
    if j == t.len() {
        assert(t.take(j) =~= t);
    } else {
        assert(t.take(j + 1).drop_last() =~= t.take(j));
        lemma_stmts_err_env_prefix(t, j + 1, env, sigs);
    }
}

proof fn lemma_stmts_check_prefix(t: Seq<SpecStatementD<()>>, j: int, env: TypeEnv, sigs: SigEnv)
    requires
        0 <= j <= t.len(),
        stmts_check(t.take(j), env, sigs) is Err,
    ensures
        stmts_check(t, env, sigs) == stmts_check(t.take(j), env, sigs),
    decreases t.len() - j,
{
    if j == t.len() {
        assert(t.take(j) =~= t);
    } else {
        assert(t.take(j + 1).drop_last() =~= t.take(j));
        lemma_stmts_check_prefix(t, j + 1, env, sigs);
    }
}

// ---------------------------------------------------------------------------
// Lemmas: an error in a prefix is the error of the whole
// ---------------------------------------------------------------------------

proof fn lemma_elements_agree_prefix(first: Type, t: Seq<SpecExprD<()>>, j: int, env: TypeEnv, sigs: SigEnv)
    requires
        0 <= j <= t.len(),
        elements_agree(first, t.take(j), env, sigs) is Err,
    ensures
        elements_agree(first, t, env, sigs) == elements_agree(first, t.take(j), env, sigs),
    decreases t.len() - j,
{
    if j == t.len() {
        assert(t.take(j) =~= t);
    } else {
        assert(t.take(j + 1).drop_last() =~= t.take(j));
        lemma_elements_agree_prefix(first, t, j + 1, env, sigs);
    }
}

proof fn lemma_typed_list_prefix(t: Seq<SpecExprD<()>>, j: int, env: TypeEnv, sigs: SigEnv)
    requires
        0 <= j <= t.len(),
        typed_list(t.take(j), env, sigs) is Err,
    ensures
        typed_list(t, env, sigs) == typed_list(t.take(j), env, sigs),
    decreases t.len() - j,
{
    if j == t.len() {
        assert(t.take(j) =~= t);
    } else {
        assert(t.take(j + 1).drop_last() =~= t.take(j));
        lemma_typed_list_prefix(t, j + 1, env, sigs);
    }
}

proof fn lemma_args_compatible_prefix(name: Seq<char>, args: Seq<SpecExprD<Type>>, params: Seq<Type>, j: nat, n: nat)
    requires
        j <= n,
        args_compatible(name, args, params, j) is Err,
    ensures
        args_compatible(name, args, params, n) == args_compatible(name, args, params, j),
    decreases n - j,
{
    if j < n {
        lemma_args_compatible_prefix(name, args, params, j, (n - 1) as nat);
    }
}

// ---------------------------------------------------------------------------
// The checker
// ---------------------------------------------------------------------------

/// A type error reported by the type checker.
#[derive(Debug, Clone, PartialEq)]
pub struct TypeError {
    pub message: String,
}

impl TypeError {
    pub fn new(msg: String) -> (r: Self)
        ensures
            r.message == msg,
    {
        Self { message: msg }
    }

    /// The text of the error: its message.
    pub fn render(&self) -> (r: String)
        ensures
            r@ == self.message@,
    {
        self.message.clone()
    }
}

fn error(msg: &str) -> (r: TypeError)
    ensures
        r.message@ == msg@,
{
    TypeError::new(String::from_str(msg))
}

/// Appends how `t` is written in error messages to `out`.
fn push_type_text(out: &mut String, t: &Type)
    ensures
        final(out)@ == old(out)@ + type_text(*t),
    decreases t,
{
    match t {
        Type::Int => out.append("Int"),
        Type::Float => out.append("Float"),
        Type::Bool => out.append("Bool"),
        Type::Str => out.append("Str"),
        Type::Unit => out.append("Unit"),
        Type::Array(e) => {
            out.append("Array(");
            push_type_text(out, e);
            out.append(")");
            assert(out@ =~= old(out)@ + type_text(*t));
        },
    }
}

fn literal_type(l: &Literal) -> (t: Type)
    ensures
        t == spec_literal_type(l@),
{
    match l {
        Literal::Int(_) => Type::Int,
        Literal::Float(_) => Type::Float,
        Literal::Str(_) => Type::Str,
        Literal::Bool(_) => Type::Bool,
    }
}

fn numeric_binop_result(l: &Type, r: &Type) -> (res: Result<Type, TypeError>)
    ensures
        match res {
            Ok(t) => arith_result(*l, *r) == Ok::<Type, Seq<char>>(t),
            Err(e) => arith_result(*l, *r) == Err::<Type, Seq<char>>(e.message@),
        },
{
    match (l, r) {
        (Type::Int, Type::Int) => Ok(Type::Int),
        (Type::Int, Type::Float) | (Type::Float, Type::Int) | (Type::Float, Type::Float) => Ok(Type::Float),
        _ => Err(error("arithmetic operands must be Int or Float")),
    }
}

fn types_compatible(a: &Type, b: &Type) -> (r: bool)
    ensures
        r == compatible(*a, *b),
    decreases a,
{
    match (a, b) {
        (Type::Int, Type::Int) | (Type::Float, Type::Float) | (Type::Bool, Type::Bool) | (Type::Str, Type::Str) => true,
        (Type::Int, Type::Float) | (Type::Float, Type::Int) => true,
        (Type::Array(x), Type::Array(y)) => types_compatible(x, y),
        _ => false,
    }
}

/// Whether two types are the same.
fn same_type(a: &Type, b: &Type) -> (r: bool)
    ensures
        r == (*a == *b),
    decreases a,
{
    match (a, b) {
        (Type::Int, Type::Int) | (Type::Float, Type::Float) | (Type::Bool, Type::Bool) | (Type::Str, Type::Str) | (Type::Unit, Type::Unit) => true,
        (Type::Array(x), Type::Array(y)) => same_type(x, y),
        _ => false,
    }
}

/// `prefix` followed by the text of `name`.
fn message_with_name(prefix: &str, name: &String) -> (r: TypeError)
    ensures
        r.message@ == prefix@ + name@,
{
    let mut m = String::from_str(prefix);
    m.append(name.as_str());
    TypeError::new(m)
}

/// Checks a call of `name` with the checked arguments `args`; returns the
/// return type of `name`.
fn check_call(name: &String, args: &[CheckedExpr], func_sigs: &FunSigs) -> (res: Result<Type, TypeError>)
    ensures
        match res {
            Ok(t) => call_result(name@, exprs_view(args@), func_sigs@) == Ok::<Type, Seq<char>>(t),
            Err(e) => call_result(name@, exprs_view(args@), func_sigs@) == Err::<Type, Seq<char>>(e.message@),
        },
{
    let ghost xs = exprs_view(args@);
    proof {
        lemma_exprs_view(args@);
    }
    let (param_tys, ret) = match func_sigs.get(name) {
        Some(p) => p,
        None => {
            return Err(message_with_name("undefined function: ", name));
        },
    };
    if args.len() != param_tys.len() {
        let mut m = String::from_str("function ");
        m.append(name.as_str());
        m.append(" expects ");
        push_decimal(&mut m, param_tys.len() as u64);
        m.append(" arguments, got ");
        push_decimal(&mut m, args.len() as u64);
        assert(m@ =~= "function "@ + name@ + " expects "@ + decimal(param_tys@.len()) + " arguments, got "@ + decimal(xs.len()));
        return Err(TypeError::new(m));
    }
    let mut i: usize = 0;
    while i < args.len()
        invariant
            i <= args.len(),
            args.len() == param_tys@.len(),
            func_sigs@.contains_key(name@),
            func_sigs@[name@] == (param_tys@, *ret),
            xs == exprs_view(args@),
            xs.len() == args@.len(),
            forall|j: int| 0 <= j < args@.len() ==> #[trigger] xs[j] == expr_view(args@[j]),
            args_compatible(name@, xs, param_tys@, i as nat) == Ok::<(), Seq<char>>(()),
        decreases args.len() - i,
    {
        if !types_compatible(&args[i].ty, &param_tys[i]) {
            let mut m = String::from_str("argument ");
            push_decimal(&mut m, (i + 1) as u64);
            m.append(" to ");
            m.append(name.as_str());
            m.append(": expected ");
            push_type_text(&mut m, &param_tys[i]);
            m.append(", got ");
            push_type_text(&mut m, &args[i].ty);
            proof {
                assert(xs[i as int].ty == args@[i as int].ty);
                assert(m@ =~= "argument "@ + decimal((i + 1) as nat) + " to "@ + name@ + ": expected "@ + type_text(param_tys@[i as int]) + ", got "@ + type_text(xs[i as int].ty));
                assert(args_compatible(name@, xs, param_tys@, (i + 1) as nat) == Err::<(), Seq<char>>(m@));
                lemma_args_compatible_prefix(name@, xs, param_tys@, (i + 1) as nat, xs.len());
            }
            return Err(TypeError::new(m));
        }
        proof {
            assert(xs[i as int].ty == args@[i as int].ty);
        }
        i = i + 1;
    }
    Ok(copy_type(ret))
}

/// Checks a list of expressions in order, stopping at the first error.
fn type_check_exprs_to_typed(es: &Vec<UncheckedExpr>, env: &VarEnv, func_sigs: &FunSigs) -> (res: Result<Vec<CheckedExpr>, TypeError>)
    ensures
        match res {
            Ok(xs) => typed_list(exprs_view(es@), env@, func_sigs@) == Ok::<Seq<SpecExprD<Type>>, Seq<char>>(exprs_view(xs@)),
            Err(e) => typed_list(exprs_view(es@), env@, func_sigs@) == Err::<Seq<SpecExprD<Type>>, Seq<char>>(e.message@),
        },
    decreases es, 0nat,
{
    let ghost vs = exprs_view(es@);
    proof {
        lemma_exprs_view(es@);
        assert(vs.take(0) =~= Seq::<SpecExprD<()>>::empty());
    }
    let mut out: Vec<CheckedExpr> = Vec::new();
    let mut i: usize = 0;
    while i < es.len()
        invariant
            i <= es.len(),
            vs == exprs_view(es@),
            vs.len() == es@.len(),
            forall|j: int| 0 <= j < es@.len() ==> #[trigger] vs[j] == expr_view(es@[j]),
            typed_list(vs.take(i as int), env@, func_sigs@) == Ok::<Seq<SpecExprD<Type>>, Seq<char>>(exprs_view(out@)),
        decreases es.len() - i,
    {
        proof {
            assert(vs.take(i + 1).drop_last() =~= vs.take(i as int));
            assert(vs.take(i + 1).last() == vs[i as int]);
        }
        let x = match type_check_expr_to_typed(&es[i], env, func_sigs) {
            Ok(x) => x,
            Err(e) => {
                proof {
                    lemma_typed_list_prefix(vs, i + 1, env@, func_sigs@);
                    assert(vs.take(es@.len() as int) =~= vs);
                }
                return Err(e);
            },
        };
        proof {
            lemma_exprs_view_push(out@, x);
        }
        out.push(x);
        i = i + 1;
    }
    proof {
        assert(vs.take(es@.len() as int) =~= vs);
    }
    Ok(out)
}

/// The type of an expression.
fn type_check_expr(e: &UncheckedExpr, env: &VarEnv, func_sigs: &FunSigs) -> (res: Result<Type, TypeError>)
    ensures
        match res {
            Ok(t) => expr_type(e@, env@, func_sigs@) == Ok::<Type, Seq<char>>(t),
            Err(x) => expr_type(e@, env@, func_sigs@) == Err::<Type, Seq<char>>(x.message@),
        },
    decreases e, 0nat,
{
    match &e.exp {
        Expr::Literal(l) => Ok(literal_type(l)),
        Expr::Ident(name) => match env.get(name) {
            Some(t) => Ok(t),
            None => Err(message_with_name("undeclared variable: ", name)),
        },
        Expr::Neg(inner) => {
            let ty = type_check_expr(inner, env, func_sigs)?;
            match ty {
                Type::Int | Type::Float => Ok(ty),
                _ => Err(error("unary minus requires Int or Float")),
            }
        },
        Expr::Add(l, r) | Expr::Sub(l, r) | Expr::Mul(l, r) | Expr::Div(l, r) => {
            let lt = type_check_expr(l, env, func_sigs)?;
            let rt = type_check_expr(r, env, func_sigs)?;
            numeric_binop_result(&lt, &rt)
        },
        Expr::Eq(l, r) | Expr::Ne(l, r) | Expr::Lt(l, r) | Expr::Le(l, r) | Expr::Gt(l, r) | Expr::Ge(l, r) => {
            let _lt = type_check_expr(l, env, func_sigs)?;
            let _rt = type_check_expr(r, env, func_sigs)?;
            Ok(Type::Bool)
        },
        Expr::Not(inner) => {
            let ty = type_check_expr(inner, env, func_sigs)?;
            match ty {
                Type::Bool => Ok(Type::Bool),
                _ => Err(error("not requires Bool operand")),
            }
        },
        Expr::And(l, r) | Expr::Or(l, r) => {
            let lt = type_check_expr(l, env, func_sigs)?;
            let rt = type_check_expr(r, env, func_sigs)?;
            match (lt, rt) {
                (Type::Bool, Type::Bool) => Ok(Type::Bool),
                _ => Err(error("and/or require Bool operands")),
            }
        },
        Expr::Call { name, args } => {
            let args_checked = type_check_exprs_to_typed(args, env, func_sigs)?;
            check_call(name, args_checked.as_slice(), func_sigs)
        },
        Expr::ArrayLit(elems) => {
            let ghost vs = exprs_view(elems@);
            proof {
                lemma_exprs_view(elems@);
            }
            if elems.len() == 0 {
                return Err(error("empty array literal needs type annotation"));
            }
            proof {
                assert(vs.subrange(1, 1) =~= Seq::<SpecExprD<()>>::empty());
            }
            let first = type_check_expr(&elems[0], env, func_sigs)?;
            let mut i: usize = 1;
            #[verifier::loop_isolation(false)]
            while i < elems.len()
                invariant
                    1 <= i <= elems.len(),
                    vs == exprs_view(elems@),
                    vs.len() == elems@.len(),
                    forall|j: int| 0 <= j < elems@.len() ==> #[trigger] vs[j] == expr_view(elems@[j]),
                    elements_agree(first, vs.subrange(1, i as int), env@, func_sigs@) == Ok::<(), Seq<char>>(()),
                decreases elems.len() - i,
            {
                let ghost rest = vs.subrange(1, vs.len() as int);
                proof {
                    assert(rest.take(i as int) =~= vs.subrange(1, i + 1));
                    assert(vs.subrange(1, i + 1).drop_last() =~= vs.subrange(1, i as int));
                    assert(vs.subrange(1, i + 1).last() == vs[i as int]);
                }
                let ty = match type_check_expr(&elems[i], env, func_sigs) {
                    Ok(t) => t,
                    Err(x) => {
                        proof {
                            lemma_elements_agree_prefix(first, rest, i as int, env@, func_sigs@);
                        }
                        return Err(x);
                    },
                };
                if !types_compatible(&first, &ty) {
                    proof {
                        lemma_elements_agree_prefix(first, rest, i as int, env@, func_sigs@);
                    }
                    return Err(error("array elements must have same type"));
                }
                i = i + 1;
            }
            proof {
                assert(vs.subrange(1, elems@.len() as int) =~= vs.subrange(1, vs.len() as int));
            }
            Ok(Type::Array(Box::new(first)))
        },
        Expr::Index { base, index } => {
            let index_ty = type_check_expr(index, env, func_sigs)?;
            match index_ty {
                Type::Int => {},
                _ => {
                    return Err(error("array index must be Int"));
                },
            }
            let base_ty = type_check_expr(base, env, func_sigs)?;
            match base_ty {
                Type::Array(elem) => Ok(*elem),
                _ => Err(error("indexed expression must be array")),
            }
        },
    }
}

/// The checked form of an expression.
fn type_check_expr_to_typed(e: &UncheckedExpr, env: &VarEnv, func_sigs: &FunSigs) -> (res: Result<CheckedExpr, TypeError>)
    ensures
        match res {
            Ok(x) => typed(e@, env@, func_sigs@) == Ok::<SpecExprD<Type>, Seq<char>>(x@),
            Err(x) => typed(e@, env@, func_sigs@) == Err::<SpecExprD<Type>, Seq<char>>(x.message@),
        },
    decreases e, 1nat,
{
    let ty = type_check_expr(e, env, func_sigs)?;
    let exp = type_check_expr_inner(&e.exp, env, func_sigs)?;
    Ok(ExprD { exp, ty })
}

/// An expression node with its immediate parts checked.
fn type_check_expr_inner(e: &Expr<()>, env: &VarEnv, func_sigs: &FunSigs) -> (res: Result<Expr<Type>, TypeError>)
    ensures
        match res {
            Ok(x) => typed_parts(e@, env@, func_sigs@) == Ok::<SpecExpr<Type>, Seq<char>>(x@),
            Err(x) => typed_parts(e@, env@, func_sigs@) == Err::<SpecExpr<Type>, Seq<char>>(x.message@),
        },
    decreases e, 0nat,
{
    match e {
        Expr::Literal(l) => Ok(Expr::Literal(copy_literal(l))),
        Expr::Ident(name) => Ok(Expr::Ident(name.clone())),
        Expr::Neg(inner) => {
            let i = type_check_expr_to_typed(inner, env, func_sigs)?;
            Ok(Expr::Neg(Box::new(i)))
        },
        Expr::Add(l, r) => {
            let lt = type_check_expr_to_typed(l, env, func_sigs)?;
            let rt = type_check_expr_to_typed(r, env, func_sigs)?;
            Ok(Expr::Add(Box::new(lt), Box::new(rt)))
        },
        Expr::Sub(l, r) => {
            let lt = type_check_expr_to_typed(l, env, func_sigs)?;
            let rt = type_check_expr_to_typed(r, env, func_sigs)?;
            Ok(Expr::Sub(Box::new(lt), Box::new(rt)))
        },
        Expr::Mul(l, r) => {
            let lt = type_check_expr_to_typed(l, env, func_sigs)?;
            let rt = type_check_expr_to_typed(r, env, func_sigs)?;
            Ok(Expr::Mul(Box::new(lt), Box::new(rt)))
        },
        Expr::Div(l, r) => {
            let lt = type_check_expr_to_typed(l, env, func_sigs)?;
            let rt = type_check_expr_to_typed(r, env, func_sigs)?;
            Ok(Expr::Div(Box::new(lt), Box::new(rt)))
        },
        Expr::Eq(l, r) => {
            let lt = type_check_expr_to_typed(l, env, func_sigs)?;
            let rt = type_check_expr_to_typed(r, env, func_sigs)?;
            Ok(Expr::Eq(Box::new(lt), Box::new(rt)))
        },
        Expr::Ne(l, r) => {
            let lt = type_check_expr_to_typed(l, env, func_sigs)?;
            let rt = type_check_expr_to_typed(r, env, func_sigs)?;
            Ok(Expr::Ne(Box::new(lt), Box::new(rt)))
        },
        Expr::Lt(l, r) => {
            let lt = type_check_expr_to_typed(l, env, func_sigs)?;
            let rt = type_check_expr_to_typed(r, env, func_sigs)?;
            Ok(Expr::Lt(Box::new(lt), Box::new(rt)))
        },
        Expr::Le(l, r) => {
            let lt = type_check_expr_to_typed(l, env, func_sigs)?;
            let rt = type_check_expr_to_typed(r, env, func_sigs)?;
            Ok(Expr::Le(Box::new(lt), Box::new(rt)))
        },
        Expr::Gt(l, r) => {
            let lt = type_check_expr_to_typed(l, env, func_sigs)?;
            let rt = type_check_expr_to_typed(r, env, func_sigs)?;
            Ok(Expr::Gt(Box::new(lt), Box::new(rt)))
        },
        Expr::Ge(l, r) => {
            let lt = type_check_expr_to_typed(l, env, func_sigs)?;
            let rt = type_check_expr_to_typed(r, env, func_sigs)?;
            Ok(Expr::Ge(Box::new(lt), Box::new(rt)))
        },
        Expr::Not(inner) => {
            let i = type_check_expr_to_typed(inner, env, func_sigs)?;
            Ok(Expr::Not(Box::new(i)))
        },
        Expr::And(l, r) => {
            let lt = type_check_expr_to_typed(l, env, func_sigs)?;
            let rt = type_check_expr_to_typed(r, env, func_sigs)?;
            Ok(Expr::And(Box::new(lt), Box::new(rt)))
        },
        Expr::Or(l, r) => {
            let lt = type_check_expr_to_typed(l, env, func_sigs)?;
            let rt = type_check_expr_to_typed(r, env, func_sigs)?;
            Ok(Expr::Or(Box::new(lt), Box::new(rt)))
        },
        Expr::Call { name, args } => {
            let args_checked = type_check_exprs_to_typed(args, env, func_sigs)?;
            Ok(Expr::Call { name: name.clone(), args: args_checked })
        },
        Expr::ArrayLit(elems) => {
            let elems_checked = type_check_exprs_to_typed(elems, env, func_sigs)?;
            Ok(Expr::ArrayLit(elems_checked))
        },
        Expr::Index { base, index } => {
            let base_checked = type_check_expr_to_typed(base, env, func_sigs)?;
            let index_checked = type_check_expr_to_typed(index, env, func_sigs)?;
            Ok(Expr::Index { base: Box::new(base_checked), index: Box::new(index_checked) })
        },
    }
}

/// Checks an assignment target against the type of the assigned value.
fn type_check_assign_target(target: &Expr<()>, value_ty: &Type, env: &mut VarEnv, func_sigs: &FunSigs) -> (res: Result<(), TypeError>)
    ensures
        match res {
            Ok(_) => target_check(target@, *value_ty, old(env)@, func_sigs@) == Ok::<TypeEnv, Seq<char>>(final(env)@),
            Err(e) => target_check(target@, *value_ty, old(env)@, func_sigs@) == Err::<TypeEnv, Seq<char>>(e.message@)
                && *final(env) == *old(env),
        },
{
    match target {
        Expr::Ident(name) => {
            env.insert(name, value_ty);
            Ok(())
        },
        Expr::Index { base, index } => {
            let index_ty = type_check_expr(index, env, func_sigs)?;
            match index_ty {
                Type::Int => {},
                _ => {
                    return Err(error("array index must be Int"));
                },
            }
            let base_ty = type_check_expr(base, env, func_sigs)?;
            if let Type::Array(elem) = &base_ty {
                if !same_type(elem, value_ty) {
                    return Err(error("assignment type mismatch"));
                }
            } else {
                return Err(error("indexed target must be array"));
            }
            Ok(())
        },
        _ => Err(error("invalid assignment target")),
    }
}

/// Checks the condition of the statement `what`.
fn type_check_condition(what: &str, cond: &UncheckedExpr, env: &VarEnv, func_sigs: &FunSigs) -> (res: Result<CheckedExpr, TypeError>)
    ensures
        match res {
            Ok(x) => condition(what@, cond@, env@, func_sigs@) == Ok::<SpecExprD<Type>, Seq<char>>(x@),
            Err(e) => condition(what@, cond@, env@, func_sigs@) == Err::<SpecExprD<Type>, Seq<char>>(e.message@),
        },
{
    let cond_checked = type_check_expr_to_typed(cond, env, func_sigs)?;
    match cond_checked.ty {
        Type::Bool => Ok(cond_checked),
        _ => {
            let mut m = String::from_str(what);
            m.append(" condition must be Bool, got ");
            push_type_text(&mut m, &cond_checked.ty);
            assert(m@ =~= what@ + " condition must be Bool, got "@ + type_text(cond_checked.ty));
            Err(TypeError::new(m))
        },
    }
}

/// The checked form of a statement; `env` follows the variable types.
fn type_check_stmt(s: &UncheckedStmt, env: &mut VarEnv, func_sigs: &FunSigs) -> (res: Result<CheckedStmt, TypeError>)
    ensures
        match res {
            Ok(x) => stmt_check(s@, old(env)@, func_sigs@) == Ok::<(SpecStatementD<Type>, TypeEnv), Seq<char>>((x@, final(env)@)),
            Err(e) => stmt_check(s@, old(env)@, func_sigs@) == Err::<(SpecStatementD<Type>, TypeEnv), Seq<char>>(e.message@)
                && final(env)@ == stmt_err_env(s@, old(env)@, func_sigs@),
        },
    decreases s,
{
    let stmt = match &s.stmt {
        Statement::Decl { name, ty, init } => {
            let init_checked = type_check_expr_to_typed(init, env, func_sigs)?;
            if !types_compatible(&init_checked.ty, ty) {
                let mut m = String::from_str("declaration of ");
                m.append(name.as_str());
                m.append(": expected ");
                push_type_text(&mut m, ty);
                m.append(", got ");
                push_type_text(&mut m, &init_checked.ty);
                assert(m@ =~= "declaration of "@ + name@ + ": expected "@ + type_text(*ty) + ", got "@ + type_text(init_checked.ty));
                return Err(TypeError::new(m));
            }
            env.insert(name, ty);
            Statement::Decl { name: name.clone(), ty: copy_type(ty), init: Box::new(init_checked) }
        },
        Statement::Assign { target, value } => {
            let value_checked = type_check_expr_to_typed(value, env, func_sigs)?;
            type_check_assign_target(&target.exp, &value_checked.ty, env, func_sigs)?;
            Statement::Assign {
                target: Box::new(type_check_expr_to_typed(target, env, func_sigs)?),
                value: Box::new(value_checked),
            }
        },
        Statement::Block { seq } => {
            let ghost vs = stmts_view(seq@);
            let ghost env0 = env@;
            proof {
                lemma_stmts_view(seq@);
                assert(vs.take(0) =~= Seq::<SpecStatementD<()>>::empty());
            }
            let mut checked: Vec<CheckedStmt> = Vec::new();
            let mut i: usize = 0;
            #[verifier::loop_isolation(false)]
            while i < seq.len()
                invariant
                    i <= seq.len(),
                    stmts_check(vs.take(i as int), env0, func_sigs@) == Ok::<(Seq<SpecStatementD<Type>>, TypeEnv), Seq<char>>((stmts_view(checked@), env@)),
                decreases seq.len() - i,
            {
                proof {
                    assert(vs.take(i + 1).drop_last() =~= vs.take(i as int));
                    assert(vs.take(i + 1).last() == vs[i as int]);
                }
                let st = match type_check_stmt(&seq[i], env, func_sigs) {
                    Ok(x) => x,
                    Err(e) => {
                        proof {
                            lemma_stmts_check_prefix(vs, i + 1, env0, func_sigs@);
                            lemma_stmts_err_env_prefix(vs, i + 1, env0, func_sigs@);
                            assert(vs.take(seq@.len() as int) =~= vs);
                        }
                        return Err(e);
                    },
                };
                proof {
                    lemma_stmts_view_push(checked@, st);
                }
                checked.push(st);
                i = i + 1;
            }
            proof {
                assert(vs.take(seq@.len() as int) =~= vs);
            }
            Statement::Block { seq: checked }
        },
        Statement::Call { name, args } => {
            let args_checked = type_check_exprs_to_typed(args, env, func_sigs)?;
            check_call(name, args_checked.as_slice(), func_sigs)?;
            Statement::Call { name: name.clone(), args: args_checked }
        },
        Statement::If { cond, then_branch, else_branch } => {
            let cond_checked = type_check_condition("if", cond, env, func_sigs)?;
            let then_checked = type_check_stmt(then_branch, env, func_sigs)?;
            let else_checked = match else_branch {
                Some(e) => Some(Box::new(type_check_stmt(e, env, func_sigs)?)),
                None => None,
            };
            Statement::If {
                cond: Box::new(cond_checked),
                then_branch: Box::new(then_checked),
                else_branch: else_checked,
            }
        },
        Statement::While { cond, body } => {
            let cond_checked = type_check_condition("while", cond, env, func_sigs)?;
            let body_checked = type_check_stmt(body, env, func_sigs)?;
            Statement::While { cond: Box::new(cond_checked), body: Box::new(body_checked) }
        },
        Statement::For { init, cond, update, body } => {
            let init_checked = match init {
                Some(i) => Some(Box::new(type_check_stmt(i, env, func_sigs)?)),
                None => None,
            };
            let cond_checked = match cond {
                Some(c) => Some(Box::new(type_check_condition("for", c, env, func_sigs)?)),
                None => None,
            };
            let body_checked = type_check_stmt(body, env, func_sigs)?;
            let update_checked = match update {
                Some(u) => Some(Box::new(type_check_stmt(u, env, func_sigs)?)),
                None => None,
            };
            Statement::For {
                init: init_checked,
                cond: cond_checked,
                update: update_checked,
                body: Box::new(body_checked),
            }
        },
        Statement::Return(e) => match e {
            None => Statement::Return(None),
            Some(x) => Statement::Return(Some(Box::new(type_check_expr_to_typed(x, env, func_sigs)?))),
        },
    };
    Ok(StatementD { stmt, ty: Type::Unit })
}

fn type_check_fun_decl(f: &UncheckedFunDecl, env: &mut VarEnv, func_sigs: &FunSigs) -> (res: Result<CheckedFunDecl, TypeError>)
    ensures
        match res {
            Ok(x) => fun_check(f@, func_sigs@) == Ok::<SpecFunDecl<Type>, Seq<char>>(x@),
            Err(e) => fun_check(f@, func_sigs@) == Err::<SpecFunDecl<Type>, Seq<char>>(e.message@),
        },
{
    let ghost pv = params_view(f.params@);
    env.clear();
    let mut i: usize = 0;
    proof {
        assert(pv.take(0) =~= Seq::<(Seq<char>, Type)>::empty());
    }
    while i < f.params.len()
        invariant
            i <= f.params.len(),
            pv == params_view(f.params@),
            env@ == params_env(pv.take(i as int)),
        decreases f.params.len() - i,
    {
        proof {
            assert(pv.take(i + 1).drop_last() =~= pv.take(i as int));
        }
        env.insert(&f.params[i].0, &f.params[i].1);
        i = i + 1;
    }
    proof {
        assert(pv.take(f.params@.len() as int) =~= pv);
    }
    let body = type_check_stmt(&f.body, env, func_sigs)?;
    Ok(FunDecl {
        name: f.name.clone(),
        params: copy_params(&f.params),
        return_type: copy_type(&f.return_type),
        body: Box::new(body),
    })
}

/// Type-checks a program. Returns the checked program if it is well-typed,
/// else the first error. Requires a `main` function as the entry point.
pub fn type_check(program: &UncheckedProgram) -> (res: Result<CheckedProgram, TypeError>)
    ensures
        match res {
            Ok(p) => program_check(program@) == Ok::<SpecProgram<Type>, Seq<char>>(p@),
            Err(e) => program_check(program@) == Err::<SpecProgram<Type>, Seq<char>>(e.message@),
        },
{
    let ghost fv = funs_view(program.functions@);
    let main_name = String::from_str("main");
    let mut has_main_fn = false;
    let mut i: usize = 0;
    while i < program.functions.len()
        invariant
            i <= program.functions.len(),
            fv == funs_view(program.functions@),
            main_name@ == "main"@,
            has_main_fn == exists|j: int| 0 <= j < i && #[trigger] fv[j].name == "main"@,
        decreases program.functions.len() - i,
    {
        if program.functions[i].name == main_name {
            has_main_fn = true;
        }
        proof {
            assert(fv[i as int].name == program.functions@[i as int].name@);
        }
        i = i + 1;
    }
    if !has_main_fn {
        return Err(error("program must have a main function"));
    }
    let mut func_sigs = FunSigs::new();
    let mut k: usize = 0;
    proof {
        assert(fv.take(0) =~= Seq::<SpecFunDecl<()>>::empty());
    }
    while k < program.functions.len()
        invariant
            k <= program.functions.len(),
            fv == funs_view(program.functions@),
            has_main(fv),
            func_sigs@ == signatures_of(fv.take(k as int)),
        decreases program.functions.len() - k,
    {
        let f = &program.functions[k];
        let ghost pv = params_view(f.params@);
        let mut param_tys: Vec<Type> = Vec::new();
        let mut j: usize = 0;
        while j < f.params.len()
            invariant
                j <= f.params.len(),
                pv == params_view(f.params@),
                param_tys@.len() == j,
                forall|q: int| 0 <= q < j ==> #[trigger] param_tys@[q] == pv[q].1,
            decreases f.params.len() - j,
        {
            param_tys.push(copy_type(&f.params[j].1));
            j = j + 1;
        }
        proof {
            assert(param_tys@ =~= pv.map_values(|p: (Seq<char>, Type)| p.1));
            assert(fv.take(k + 1).drop_last() =~= fv.take(k as int));
            assert(fv.take(k + 1).last() == fun_view(*f));
        }
        func_sigs.insert(f.name.clone(), param_tys, copy_type(&f.return_type));
        k = k + 1;
    }
    proof {
        assert(fv.take(program.functions@.len() as int) =~= fv);
    }
    let mut env = VarEnv::new();
    let mut functions: Vec<CheckedFunDecl> = Vec::new();
    let mut n: usize = 0;
    proof {
        assert(fv.take(0) =~= Seq::<SpecFunDecl<()>>::empty());
        assert(funs_view(functions@) =~= Seq::<SpecFunDecl<Type>>::empty());
    }
    while n < program.functions.len()
        invariant
            n <= program.functions.len(),
            fv == funs_view(program.functions@),
            has_main(fv),
            func_sigs@ == signatures_of(fv),
            funs_check(fv.take(n as int), func_sigs@) == Ok::<Seq<SpecFunDecl<Type>>, Seq<char>>(funs_view(functions@)),
        decreases program.functions.len() - n,
    {
        proof {
            assert(fv.take(n + 1).drop_last() =~= fv.take(n as int));
        }
        let checked = match type_check_fun_decl(&program.functions[n], &mut env, &func_sigs) {
            Ok(c) => c,
            Err(e) => {
                proof {
                    lemma_funs_check_prefix(fv, n + 1, func_sigs@);
                    assert(fv.take(program.functions@.len() as int) =~= fv);
                }
                return Err(e);
            },
        };
        proof {
            assert(funs_view(functions@.push(checked)) =~= funs_view(functions@).push(fun_view(checked)));
        }
        functions.push(checked);
        n = n + 1;
    }
    proof {
        assert(fv.take(program.functions@.len() as int) =~= fv);
    }
    Ok(Program { functions })
}

} // verus!
