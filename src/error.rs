use vstd::prelude::*;
use crate::lexer::TokenLoc;
use crate::text::{decimal, push_decimal};
use vstd::string::StringExecFns;

verus! {

/// Why a source text could not be compiled or a program could not run.
#[derive(Debug, Clone, Copy, PartialEq, Eq, Structural)]
pub enum BfError {
    /// A `]` with no open `[` before it, at the given location.
    UnexpectedClose { at: TokenLoc },
    /// `[` left open at the end of the text: the innermost one, and how many are open.
    Unclosed { at: TokenLoc, count: usize },
    /// An `Add` or `Sub` whose count is 255 or more.
    OperandOutOfRange { data: usize },
    /// A move right to or past the end of the tape: its length, and by how much.
    TapeOverflow { tape_len: usize, overflow: usize },
}

/// The message that reports an error.
pub open spec fn message_of(e: BfError) -> Seq<char> {
    match e {
        BfError::UnexpectedClose { at } => "unexpected closing delimiter ']' at "@ + at.text(),
        BfError::Unclosed { at, count } => "unclosed delimiter '[' at "@ + at.text() + "."@ + (
        if count > 1 {
            " There are "@ + decimal(count as nat) + " unclosed delimiters."@
        } else {
            Seq::empty()
        }),
        BfError::OperandOutOfRange { data } =>
            "operand out of range: Add and Sub need a count below 255, data="@ + decimal(
            data as nat,
        ),
        BfError::TapeOverflow { tape_len, overflow } => "memory overflowed: "@ + decimal(
            tape_len as nat,
        ) + " items => "@ + decimal(overflow as nat) + " items"@,
    }
}

impl BfError {
    /// A message for people, with the location or the sizes involved.
    pub fn message(&self) -> (r: String)
        ensures
            r@ == message_of(*self),
    {
        match self {
            BfError::UnexpectedClose { at } => {
                let mut s = String::from_str("unexpected closing delimiter ']' at ");
                s.append(at.to_string().as_str());
                s
            },
            BfError::Unclosed { at, count } => {
                let mut s = String::from_str("unclosed delimiter '[' at ");
                s.append(at.to_string().as_str());
                s.append(".");
                if *count > 1 {
                    s.append(" There are ");
                    push_decimal(&mut s, *count);
                    s.append(" unclosed delimiters.");
                } else {
                    assert(s@ =~= s@ + Seq::<char>::empty());
                }
                s
            },
            BfError::OperandOutOfRange { data } => {
                let mut s = String::from_str(
                    "operand out of range: Add and Sub need a count below 255, data=",
                );
                push_decimal(&mut s, *data);
                s
            },
            BfError::TapeOverflow { tape_len, overflow } => {
                let mut s = String::from_str("memory overflowed: ");
                push_decimal(&mut s, *tape_len);
                s.append(" items => ");
                push_decimal(&mut s, *overflow);
                s.append(" items");
                s
            },
        }
    }
}

} // verus!
