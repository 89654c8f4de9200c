use vstd::prelude::*;
use crate::lexer::Token;
use crate::text::{decimal, pad_to, push_decimal, spaces};
use vstd::string::StringExecFns;

verus! {

/// The eight instructions of the machine.
#[derive(Debug, Clone, Copy, PartialEq, Eq, Structural)]
pub enum OpCodeType {
    Add,
    Sub,
    ShiftLeft,
    ShiftRight,
    JmpZero,
    JmpNotZero,
    InputChar,
    PrintChar,
}

/// An instruction with its operand: a repeat count, or a jump target for the two jumps.
#[derive(Debug, Clone, Copy, PartialEq, Eq, Structural)]
pub struct OpCode {
    pub ty: OpCodeType,
    pub data: usize,
}

/// The instruction that a symbol compiles to.
pub open spec fn op_of(t: Token) -> OpCodeType {
    match t {
        Token::Plus => OpCodeType::Add,
        Token::Minus => OpCodeType::Sub,
        Token::Less => OpCodeType::ShiftLeft,
        Token::Greater => OpCodeType::ShiftRight,
        Token::LBracket => OpCodeType::JmpZero,
        Token::RBracket => OpCodeType::JmpNotZero,
        Token::Comma => OpCodeType::InputChar,
        Token::Dot => OpCodeType::PrintChar,
    }
}

/// The name of an instruction.
pub open spec fn op_name(ty: OpCodeType) -> Seq<char> {
    match ty {
        OpCodeType::Add => "Add"@,
        OpCodeType::Sub => "Sub"@,
        OpCodeType::ShiftLeft => "ShiftLeft"@,
        OpCodeType::ShiftRight => "ShiftRight"@,
        OpCodeType::JmpZero => "JmpZero"@,
        OpCodeType::JmpNotZero => "JmpNotZero"@,
        OpCodeType::InputChar => "InputChar"@,
        OpCodeType::PrintChar => "PrintChar"@,
    }
}

/// `s` followed by spaces up to `width` characters.
pub open spec fn padded(s: Seq<char>, width: nat) -> Seq<char> {
    s + spaces(
        if s.len() < width {
            (width - s.len()) as nat
        } else {
            0
        },
    )
}

/// The listing line of an instruction: its name in a column of 14, a space, the
/// operand, and a newline.
pub open spec fn listing_line(op: OpCode) -> Seq<char> {
    padded(op_name(op.ty), 14) + seq![' '] + decimal(op.data as nat) + seq!['\n']
}

impl OpCodeType {
    pub fn name(&self) -> (r: &'static str)
        ensures
            r@ == op_name(*self),
    {
        match self {
            OpCodeType::Add => "Add",
            OpCodeType::Sub => "Sub",
            OpCodeType::ShiftLeft => "ShiftLeft",
            OpCodeType::ShiftRight => "ShiftRight",
            OpCodeType::JmpZero => "JmpZero",
            OpCodeType::JmpNotZero => "JmpNotZero",
            OpCodeType::InputChar => "InputChar",
            OpCodeType::PrintChar => "PrintChar",
        }
    }
}

impl OpCode {
    pub fn new(ty: OpCodeType, data: usize) -> (r: Self)
        ensures
            r.ty == ty,
            r.data == data,
    {
        OpCode { ty, data }
    }

    pub fn from_token(token: Token, data: usize) -> (r: Self)
        ensures
            r.ty == op_of(token),
            r.data == data,
    {
        let ty = match token {
            Token::Plus => OpCodeType::Add,
            Token::Minus => OpCodeType::Sub,
            Token::Less => OpCodeType::ShiftLeft,
            Token::Greater => OpCodeType::ShiftRight,
            Token::LBracket => OpCodeType::JmpZero,
            Token::RBracket => OpCodeType::JmpNotZero,
            Token::Comma => OpCodeType::InputChar,
            Token::Dot => OpCodeType::PrintChar,
        };
        Self::new(ty, data)
    }

    pub fn to_tuple(&self) -> (r: (OpCodeType, usize))
        ensures
            r == (self.ty, self.data),
    {
        (self.ty, self.data)
    }

    /// One line of a program listing.
    pub fn to_string(&self) -> (r: String)
        ensures
            r@ == listing_line(*self),
    {
        let mut s = String::from_str(self.ty.name());
        pad_to(&mut s, 14);
        proof {
            reveal_strlit(" ");
            reveal_strlit("\n");
        }
        s.append(" ");
        push_decimal(&mut s, self.data);
        s.append("\n");
        assert(s@ =~= listing_line(*self));
        s
    }
}

} // verus!
