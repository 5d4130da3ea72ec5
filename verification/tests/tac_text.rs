//! Tests of the textual form of three-address code.

use mini_c::ir::ast::{Literal, Type};
use mini_c::ir::tac::{Address, Instruction, Operator};

fn var(n: &str) -> Address {
    Address::Variable(n.to_string(), Type::Int)
}

fn tmp(n: &str) -> Address {
    Address::Temporary(n.to_string(), Type::Int)
}

fn int_lit(n: i64) -> Address {
    Address::Constant(Literal::Int(n), Type::Int)
}

fn text(i: Instruction) -> String {
    i.render().expect("no float constant")
}

#[test]
fn test_operator_symbols() {
    assert_eq!(Operator::Add.symbol(), "+");
    assert_eq!(Operator::Sub.symbol(), "-");
    assert_eq!(Operator::Neg.symbol(), "-");
    assert_eq!(Operator::LTE.symbol(), "<=");
    assert_eq!(Operator::NE.symbol(), "!=");
    assert_eq!(Operator::SL.symbol(), "<<");
    assert_eq!(Operator::SR.symbol(), ">>");
}

#[test]
fn test_address_text() {
    assert_eq!(var("x").render(), Some("x".to_string()));
    assert_eq!(tmp("temp3").render(), Some("temp3".to_string()));
    assert_eq!(int_lit(42).render(), Some("42".to_string()));
    assert_eq!(int_lit(-7).render(), Some("-7".to_string()));
    assert_eq!(int_lit(i64::MIN).render(), Some("-9223372036854775808".to_string()));
    assert_eq!(int_lit(0).render(), Some("0".to_string()));
    assert_eq!(Address::Constant(Literal::Str("hi".to_string()), Type::Str).render(), Some("\"hi\"".to_string()));
    assert_eq!(Address::Constant(Literal::Bool(true), Type::Bool).render(), Some("true".to_string()));
    assert_eq!(Address::Constant(Literal::Bool(false), Type::Bool).render(), Some("false".to_string()));
    assert_eq!(Address::Constant(Literal::Float(1.5f64.to_bits()), Type::Float).render(), None);
}

#[test]
fn test_instruction_text() {
    assert_eq!(text(Instruction::Label("Label1:".to_string())), "Label1:");
    assert_eq!(text(Instruction::CopyAssignment(var("x"), int_lit(1))), "x = 1");
    assert_eq!(text(Instruction::UnaryAssignment(Operator::Neg, tmp("temp1"), var("x"))), "temp1 = - x");
    assert_eq!(text(Instruction::BinaryAssignment(Operator::Mul, tmp("temp2"), var("a"), int_lit(3))), "temp2 = a * 3");
    assert_eq!(text(Instruction::JMP("Label2:".to_string())), "goto Label2:");
    assert_eq!(text(Instruction::ConditionalJMP(var("c"), "L".to_string())), "if c goto L");
    assert_eq!(text(Instruction::ConditionalJMPFalse(var("c"), "L".to_string())), "if_false c goto L");
    assert_eq!(text(Instruction::ConditionalJMPRelational(Operator::GTE, var("i"), int_lit(10), "Label2:".to_string())), "if i >= 10 goto Label2:");
    assert_eq!(text(Instruction::Param(var("x"))), "param x");
    assert_eq!(text(Instruction::Call(None, "f".to_string(), 2)), "call f, 2");
    assert_eq!(text(Instruction::Call(Some(tmp("temp1")), "f".to_string(), 0)), "temp1 = call f, 0");
    assert_eq!(text(Instruction::Store(var("a"), int_lit(1), var("v"))), "a[1] = v");
    assert_eq!(text(Instruction::Load(var("v"), var("a"), int_lit(1))), "v = a[1]");
    assert_eq!(text(Instruction::Return(None)), "return");
    assert_eq!(text(Instruction::Return(Some(var("x")))), "return x");
}

#[test]
fn test_instruction_with_float_constant_has_no_text() {
    let f = Address::Constant(Literal::Float(2.5f64.to_bits()), Type::Float);
    assert_eq!(Instruction::CopyAssignment(var("x"), f.clone()).render(), None);
    assert_eq!(Instruction::Param(f.clone()).render(), None);
    assert_eq!(Instruction::Return(Some(f)).render(), None);
}
