//! Three-address code: addresses, operators and instructions, with their
//! views and their textual form.

use vstd::prelude::*;
use vstd::string::StringExecFns;
use crate::ir::ast::{copy_literal, copy_type, literal_view, Literal, Name, SpecLiteral, Type};
use crate::text::{
    decimal, digits_value, law_decimal_reads_back, law_signed_decimal, push_decimal,
    push_signed_decimal, signed_decimal,
};

verus! {

pub type Label = String;

pub type TACProgram = Vec<Instruction>;

#[derive(Debug, Clone, PartialEq)]
pub enum Address {
    Variable(Name, Type),
    Constant(Literal, Type),
    Temporary(Name, Type),
}

#[derive(Debug, Clone, PartialEq)]
pub enum Instruction {
    Label(Label),
    CopyAssignment(Address, Address),
    UnaryAssignment(Operator, Address, Address),
    BinaryAssignment(Operator, Address, Address, Address),
    JMP(Label),
    ConditionalJMP(Address, Label),
    ConditionalJMPFalse(Address, Label),
    ConditionalJMPRelational(Operator, Address, Address, Label),
    Param(Address),
    Call(Option<Address>, Name, usize),
    Store(Address, Address, Address),
    Load(Address, Address, Address),
    Return(Option<Address>),
}

#[derive(Debug, Clone, Copy, PartialEq)]
pub enum Operator {
    Add,
    Sub,
    Mul,
    Div,
    Neg,
    LT,
    LTE,
    GT,
    GTE,
    EQ,
    NE,
    SL,
    SR,
}

// ---------------------------------------------------------------------------
// Views
// ---------------------------------------------------------------------------

pub enum SpecAddress {
    Variable(Seq<char>, Type),
    Constant(SpecLiteral, Type),
    Temporary(Seq<char>, Type),
}

pub enum SpecInstruction {
    Label(Seq<char>),
    CopyAssignment(SpecAddress, SpecAddress),
    UnaryAssignment(Operator, SpecAddress, SpecAddress),
    BinaryAssignment(Operator, SpecAddress, SpecAddress, SpecAddress),
    JMP(Seq<char>),
    ConditionalJMP(SpecAddress, Seq<char>),
    ConditionalJMPFalse(SpecAddress, Seq<char>),
    ConditionalJMPRelational(Operator, SpecAddress, SpecAddress, Seq<char>),
    Param(SpecAddress),
    Call(Option<SpecAddress>, Seq<char>, usize),
    Store(SpecAddress, SpecAddress, SpecAddress),
    Load(SpecAddress, SpecAddress, SpecAddress),
    Return(Option<SpecAddress>),
}

pub open spec fn address_view(a: Address) -> SpecAddress {
    match a {
        Address::Variable(n, t) => SpecAddress::Variable(n@, t),
        Address::Constant(l, t) => SpecAddress::Constant(literal_view(l), t),
        Address::Temporary(n, t) => SpecAddress::Temporary(n@, t),
    }
}

pub open spec fn opt_address_view(a: Option<Address>) -> Option<SpecAddress> {
    match a {
        Some(x) => Some(address_view(x)),
        None => None,
    }
}

pub open spec fn instruction_view(i: Instruction) -> SpecInstruction {
    match i {
        Instruction::Label(l) => SpecInstruction::Label(l@),
        Instruction::CopyAssignment(d, s) => SpecInstruction::CopyAssignment(address_view(d), address_view(s)),
        Instruction::UnaryAssignment(op, d, s) => SpecInstruction::UnaryAssignment(op, address_view(d), address_view(s)),
        Instruction::BinaryAssignment(op, d, l, r) => SpecInstruction::BinaryAssignment(op, address_view(d), address_view(l), address_view(r)),
        Instruction::JMP(l) => SpecInstruction::JMP(l@),
        Instruction::ConditionalJMP(a, l) => SpecInstruction::ConditionalJMP(address_view(a), l@),
        Instruction::ConditionalJMPFalse(a, l) => SpecInstruction::ConditionalJMPFalse(address_view(a), l@),
        Instruction::ConditionalJMPRelational(op, a, b, l) => SpecInstruction::ConditionalJMPRelational(op, address_view(a), address_view(b), l@),
        Instruction::Param(a) => SpecInstruction::Param(address_view(a)),
        Instruction::Call(d, n, k) => SpecInstruction::Call(opt_address_view(d), n@, k),
        Instruction::Store(b, i, v) => SpecInstruction::Store(address_view(b), address_view(i), address_view(v)),
        Instruction::Load(d, b, i) => SpecInstruction::Load(address_view(d), address_view(b), address_view(i)),
        Instruction::Return(a) => SpecInstruction::Return(opt_address_view(a)),
    }
}

/// The views of a list of instructions.
pub open spec fn instrs_view(v: Seq<Instruction>) -> Seq<SpecInstruction> {
    v.map_values(|i: Instruction| instruction_view(i))
}

impl View for Address {
    type V = SpecAddress;

    open spec fn view(&self) -> SpecAddress {
        address_view(*self)
    }
}

impl View for Instruction {
    type V = SpecInstruction;

    open spec fn view(&self) -> SpecInstruction {
        instruction_view(*self)
    }
}

pub proof fn lemma_instrs_view_concat(a: Seq<Instruction>, b: Seq<Instruction>)
    ensures
        instrs_view(a + b) == instrs_view(a) + instrs_view(b),
{
    assert(instrs_view(a + b) =~= instrs_view(a) + instrs_view(b));
}

pub proof fn lemma_instrs_view_push(a: Seq<Instruction>, x: Instruction)
    ensures
        instrs_view(a.push(x)) == instrs_view(a).push(instruction_view(x)),
{
    assert(instrs_view(a.push(x)) =~= instrs_view(a).push(instruction_view(x)));
}

/// A copy of an address, equal to it.
pub fn copy_address(a: &Address) -> (r: Address)
    ensures
        r == *a,
{
    match a {
        Address::Variable(n, t) => Address::Variable(n.clone(), copy_type(t)),
        Address::Constant(l, t) => Address::Constant(copy_literal(l), copy_type(t)),
        Address::Temporary(n, t) => Address::Temporary(n.clone(), copy_type(t)),
    }
}

// ---------------------------------------------------------------------------
// Text
// ---------------------------------------------------------------------------

/// How an operator is written.
pub open spec fn operator_text(op: Operator) -> Seq<char> {
    match op {
        Operator::Add => "+"@,
        Operator::Sub => "-"@,
        Operator::Mul => "*"@,
        Operator::Div => "/"@,
        Operator::Neg => "-"@,
        Operator::LT => "<"@,
        Operator::LTE => "<="@,
        Operator::GT => ">"@,
        Operator::GTE => ">="@,
        Operator::EQ => "=="@,
        Operator::NE => "!="@,
        Operator::SL => "<<"@,
        Operator::SR => ">>"@,
    }
}

/// Whether an address is a float constant, whose text this library does not
/// produce (writing a float is left to the caller).
pub open spec fn is_float_constant(a: SpecAddress) -> bool {
    a matches SpecAddress::Constant(SpecLiteral::Float(_), _)
}

/// How an address that is not a float constant is written: a variable or a
/// temporary by its name, a string constant in double quotes.
pub open spec fn address_text(a: SpecAddress) -> Seq<char> {
    match a {
        SpecAddress::Variable(n, _) => n,
        SpecAddress::Temporary(n, _) => n,
        SpecAddress::Constant(l, _) => match l {
            SpecLiteral::Int(k) => signed_decimal(k as int),
            SpecLiteral::Float(_) => Seq::empty(),
            SpecLiteral::Str(s) => "\""@ + s + "\""@,
            SpecLiteral::Bool(b) => if b { "true"@ } else { "false"@ },
        },
    }
}

/// The addresses that an instruction mentions.
pub open spec fn instruction_addresses(i: SpecInstruction) -> Seq<SpecAddress> {
    match i {
        SpecInstruction::Label(_) => seq![],
        SpecInstruction::CopyAssignment(d, s) => seq![d, s],
        SpecInstruction::UnaryAssignment(_, d, s) => seq![d, s],
        SpecInstruction::BinaryAssignment(_, d, l, r) => seq![d, l, r],
        SpecInstruction::JMP(_) => seq![],
        SpecInstruction::ConditionalJMP(a, _) => seq![a],
        SpecInstruction::ConditionalJMPFalse(a, _) => seq![a],
        SpecInstruction::ConditionalJMPRelational(_, a, b, _) => seq![a, b],
        SpecInstruction::Param(a) => seq![a],
        SpecInstruction::Call(d, _, _) => match d {
            Some(x) => seq![x],
            None => seq![],
        },
        SpecInstruction::Store(b, i, v) => seq![b, i, v],
        SpecInstruction::Load(d, b, i) => seq![d, b, i],
        SpecInstruction::Return(a) => match a {
            Some(x) => seq![x],
            None => seq![],
        },
    }
}

/// Whether an instruction mentions a float constant.
pub open spec fn mentions_float(i: SpecInstruction) -> bool {
    exists|k: int| 0 <= k < instruction_addresses(i).len() && is_float_constant(#[trigger] instruction_addresses(i)[k])
}

/// How an instruction is written.
pub open spec fn instruction_text(i: SpecInstruction) -> Seq<char> {
    match i {
        SpecInstruction::Label(l) => l,
        SpecInstruction::CopyAssignment(d, s) => address_text(d) + " = "@ + address_text(s),
        SpecInstruction::UnaryAssignment(op, d, s) => address_text(d) + " = "@ + operator_text(op) + " "@ + address_text(s),
        SpecInstruction::BinaryAssignment(op, d, l, r) => address_text(d) + " = "@ + address_text(l) + " "@ + operator_text(op) + " "@ + address_text(r),
        SpecInstruction::JMP(l) => "goto "@ + l,
        SpecInstruction::ConditionalJMP(a, l) => "if "@ + address_text(a) + " goto "@ + l,
        SpecInstruction::ConditionalJMPFalse(a, l) => "if_false "@ + address_text(a) + " goto "@ + l,
        SpecInstruction::ConditionalJMPRelational(op, a, b, l) => "if "@ + address_text(a) + " "@ + operator_text(op) + " "@ + address_text(b) + " goto "@ + l,
        SpecInstruction::Param(a) => "param "@ + address_text(a),
        SpecInstruction::Call(d, n, k) => match d {
            Some(x) => address_text(x) + " = call "@ + n + ", "@ + decimal(k as nat),
            None => "call "@ + n + ", "@ + decimal(k as nat),
        },
        SpecInstruction::Store(b, i, v) => address_text(b) + "["@ + address_text(i) + "] = "@ + address_text(v),
        SpecInstruction::Load(d, b, i) => address_text(d) + " = "@ + address_text(b) + "["@ + address_text(i) + "]"@,
        SpecInstruction::Return(a) => match a {
            Some(x) => "return "@ + address_text(x),
            None => "return"@,
        },
    }
}

impl Operator {
    /// How the operator is written.
    pub fn symbol(&self) -> (s: &'static str)
        ensures
            s@ == operator_text(*self),
    {
        match self {
            Operator::Add => "+",
            Operator::Sub => "-",
            Operator::Mul => "*",
            Operator::Div => "/",
            Operator::Neg => "-",
            Operator::LT => "<",
            Operator::LTE => "<=",
            Operator::GT => ">",
            Operator::GTE => ">=",
            Operator::EQ => "==",
            Operator::NE => "!=",
            Operator::SL => "<<",
            Operator::SR => ">>",
        }
    }
}

impl Address {
    /// Appends the text of the address to `out`; `false`, with `out`
    /// unchanged, for a float constant.
    pub fn write_to(&self, out: &mut String) -> (written: bool)
        ensures
            written == !is_float_constant(self@),
            written ==> final(out)@ == old(out)@ + address_text(self@),
            !written ==> final(out)@ == old(out)@,
    {
        match self {
            Address::Variable(name, _) | Address::Temporary(name, _) => {
                out.append(name.as_str());
                true
            },
            Address::Constant(lit, _) => match lit {
                Literal::Int(n) => {
                    push_signed_decimal(out, *n);
                    true
                },
                Literal::Float(_) => false,
                Literal::Str(s) => {
                    out.append("\"");
                    out.append(s.as_str());
                    out.append("\"");
                    assert(out@ =~= old(out)@ + address_text(self@));
                    true
                },
                Literal::Bool(b) => {
                    if *b {
                        out.append("true");
                    } else {
                        out.append("false");
                    }
                    true
                },
            },
        }
    }

    /// The text of the address; `None` for a float constant.
    pub fn render(&self) -> (r: Option<String>)
        ensures
            r is None <==> is_float_constant(self@),
            r matches Some(t) ==> t@ == address_text(self@),
    {
        let mut s = String::new();
        if self.write_to(&mut s) {
            Some(s)
        } else {
            None
        }
    }
}

impl Instruction {
    /// The text of the instruction; `None` when it mentions a float constant.
    pub fn render(&self) -> (r: Option<String>)
        ensures
            r is None <==> mentions_float(self@),
            r matches Some(t) ==> t@ == instruction_text(self@),
    {
        let ghost v = self@;
        let ghost addrs = instruction_addresses(v);
        let mut s = String::new();
        let ok = match self {
            Instruction::Label(l) => {
                s.append(l.as_str());
                true
            },
            Instruction::CopyAssignment(d, src) => {
                let a = d.write_to(&mut s);
                s.append(" = ");
                let b = src.write_to(&mut s);
                proof {
                    if a && b {
                        assert(s@ =~= instruction_text(v));
                    }
                    assert(addrs[0] == d@ && addrs[1] == src@);
                }
                a && b
            },
            Instruction::UnaryAssignment(op, d, src) => {
                let a = d.write_to(&mut s);
                s.append(" = ");
                s.append(op.symbol());
                s.append(" ");
                let b = src.write_to(&mut s);
                proof {
                    if a && b {
                        assert(s@ =~= instruction_text(v));
                    }
                    assert(addrs[0] == d@ && addrs[1] == src@);
                }
                a && b
            },
            Instruction::BinaryAssignment(op, d, l, r) => {
                let a = d.write_to(&mut s);
                s.append(" = ");
                let b = l.write_to(&mut s);
                s.append(" ");
                s.append(op.symbol());
                s.append(" ");
                let c = r.write_to(&mut s);
                proof {
                    if a && b && c {
                        assert(s@ =~= instruction_text(v));
                    }
                    assert(addrs[0] == d@ && addrs[1] == l@ && addrs[2] == r@);
                }
                a && b && c
            },
            Instruction::JMP(l) => {
                s.append("goto ");
                s.append(l.as_str());
                true
            },
            Instruction::ConditionalJMP(x, l) => {
                s.append("if ");
                let a = x.write_to(&mut s);
                s.append(" goto ");
                s.append(l.as_str());
                proof {
                    if a {
                        assert(s@ =~= instruction_text(v));
                    }
                    assert(addrs[0] == x@);
                }
                a
            },
            Instruction::ConditionalJMPFalse(x, l) => {
                s.append("if_false ");
                let a = x.write_to(&mut s);
                s.append(" goto ");
                s.append(l.as_str());
                proof {
                    if a {
                        assert(s@ =~= instruction_text(v));
                    }
                    assert(addrs[0] == x@);
                }
                a
            },
            Instruction::ConditionalJMPRelational(op, x, y, l) => {
                s.append("if ");
                let a = x.write_to(&mut s);
                s.append(" ");
                s.append(op.symbol());
                s.append(" ");
                let b = y.write_to(&mut s);
                s.append(" goto ");
                s.append(l.as_str());
                proof {
                    if a && b {
                        assert(s@ =~= instruction_text(v));
                    }
                    assert(addrs[0] == x@ && addrs[1] == y@);
                }
                a && b
            },
            Instruction::Param(x) => {
                s.append("param ");
                let a = x.write_to(&mut s);
                proof {
                    assert(addrs[0] == x@);
                }
                a
            },
            Instruction::Call(result, name, arity) => match result {
                Some(d) => {
                    let a = d.write_to(&mut s);
                    s.append(" = call ");
                    s.append(name.as_str());
                    s.append(", ");
                    push_decimal(&mut s, *arity as u64);
                    proof {
                        if a {
                            assert(s@ =~= instruction_text(v));
                        }
                        assert(addrs[0] == d@);
                    }
                    a
                },
                None => {
                    s.append("call ");
                    s.append(name.as_str());
                    s.append(", ");
                    push_decimal(&mut s, *arity as u64);
                    assert(s@ =~= instruction_text(v));
                    true
                },
            },
            Instruction::Store(base, index, value) => {
                let a = base.write_to(&mut s);
                s.append("[");
                let b = index.write_to(&mut s);
                s.append("] = ");
                let c = value.write_to(&mut s);
                proof {
                    if a && b && c {
                        assert(s@ =~= instruction_text(v));
                    }
                    assert(addrs[0] == base@ && addrs[1] == index@ && addrs[2] == value@);
                }
                a && b && c
            },
            Instruction::Load(d, base, index) => {
                let a = d.write_to(&mut s);
                s.append(" = ");
                let b = base.write_to(&mut s);
                s.append("[");
                let c = index.write_to(&mut s);
                s.append("]");
                proof {
                    if a && b && c {
                        assert(s@ =~= instruction_text(v));
                    }
                    assert(addrs[0] == d@ && addrs[1] == base@ && addrs[2] == index@);
                }
                a && b && c
            },
            Instruction::Return(value) => match value {
                Some(x) => {
                    s.append("return ");
                    let a = x.write_to(&mut s);
                    proof {
                        assert(addrs[0] == x@);
                    }
                    a
                },
                None => {
                    s.append("return");
                    true
                },
            },
        };
        if ok {
            Some(s)
        } else {
            None
        }
    }
}


/// Each operator is written with its usual C symbol, and operators other
/// than subtraction and negation (both `-`) are written differently.
pub proof fn law_operator_symbols(a: Operator, b: Operator)
    ensures
        operator_text(Operator::Add) == "+"@,
        operator_text(Operator::Sub) == "-"@,
        operator_text(Operator::Mul) == "*"@,
        operator_text(Operator::Div) == "/"@,
        operator_text(Operator::Neg) == "-"@,
        operator_text(Operator::LT) == "<"@,
        operator_text(Operator::LTE) == "<="@,
        operator_text(Operator::GT) == ">"@,
        operator_text(Operator::GTE) == ">="@,
        operator_text(Operator::EQ) == "=="@,
        operator_text(Operator::NE) == "!="@,
        operator_text(Operator::SL) == "<<"@,
        operator_text(Operator::SR) == ">>"@,
        a != b && !((a is Sub || a is Neg) && (b is Sub || b is Neg)) ==> operator_text(a) != operator_text(b),
{
    reveal_strlit("+");
    reveal_strlit("-");
    reveal_strlit("*");
    reveal_strlit("/");
    reveal_strlit("<");
    reveal_strlit("<=");
    reveal_strlit(">");
    reveal_strlit(">=");
    reveal_strlit("==");
    reveal_strlit("!=");
    reveal_strlit("<<");
    reveal_strlit(">>");
    if a != b && !((a is Sub || a is Neg) && (b is Sub || b is Neg)) {
        let x = operator_text(a);
        let y = operator_text(b);
        if x.len() == y.len() {
            if x[0] == y[0] {
                assert(x.len() == 2 && x[1] != y[1]);
            }
        }
        assert(x != y);
    }
}


/// How addresses are written: a variable or a temporary by its name; an
/// integer constant by its decimal digits (no leading zero), after a minus
/// sign exactly when it is negative, which read back as the integer; a
/// boolean constant as `true` or `false`; a string constant between double
/// quotes.
pub proof fn law_address_text(a: SpecAddress)
    ensures
        a matches SpecAddress::Variable(n, _) ==> address_text(a) == n,
        a matches SpecAddress::Temporary(n, _) ==> address_text(a) == n,
        a matches SpecAddress::Constant(SpecLiteral::Int(k), _) ==> {
            let t = address_text(a);
            let digits = if k < 0 { t.drop_first() } else { t };
            &&& t.len() >= 1
            &&& (t[0] == '-' <==> k < 0)
            &&& digits.len() >= 1
            &&& (forall|i: int| 0 <= i < digits.len() ==> '0' <= #[trigger] digits[i] <= '9')
            &&& digits_value(digits) == (if k < 0 { -k } else { k as int })
        },
        a matches SpecAddress::Constant(SpecLiteral::Bool(b), _) ==> address_text(a) == (if b { "true"@ } else { "false"@ }),
        a matches SpecAddress::Constant(SpecLiteral::Str(x), _) ==> address_text(a) == "\""@ + x + "\""@,
{
    match a {
        SpecAddress::Constant(SpecLiteral::Int(k), _) => {
            law_signed_decimal(k as int);
            if k < 0 {
                law_decimal_reads_back((-k) as nat);
                assert(signed_decimal(k as int).len() >= 1);
            } else {
                law_decimal_reads_back(k as nat);
                assert('0' != '-');
            }
        },
        _ => {},
    }
}

/// How a relational jump is written: `if`, the left operand, the
/// operator's symbol, the right operand, `goto` and the label, separated by
/// single spaces; an assignment of an operation is written `d = l op r`.
pub proof fn law_instruction_text(op: Operator, d: SpecAddress, a: SpecAddress, b: SpecAddress, l: Seq<char>)
    ensures
        instruction_text(SpecInstruction::ConditionalJMPRelational(op, a, b, l))
            == "if "@ + address_text(a) + " "@ + operator_text(op) + " "@ + address_text(b) + " goto "@ + l,
        instruction_text(SpecInstruction::BinaryAssignment(op, d, a, b))
            == address_text(d) + " = "@ + address_text(a) + " "@ + operator_text(op) + " "@ + address_text(b),
        instruction_text(SpecInstruction::JMP(l)) == "goto "@ + l,
        instruction_text(SpecInstruction::Label(l)) == l,
{
}

} // verus!
