//! The operation codes that the tokens of the statement parser stand for.
use vstd::prelude::*;
use vstd::std_specs::convert::FromSpecImpl;
use crate::parser::token::{Token, TokenView};

verus! {

/// An operation code.
#[derive(Debug, PartialOrd, PartialEq, Copy, Clone)]
pub enum Opcode {
    // Values
    True,
    False,
    Null,
    Constant(u8),
    // Negation
    Not,
    Negate,
    // Binary operators
    Add,
    Subtract,
    Multiply,
    Divide,
    // Comparison
    BangEqual,
    Equal,
    Less,
    LessEqual,
    Greater,
    GreaterEqual,
    // Jumps
    JumpIfFalse(u8),
    JumpForward(u8),
    JumpBack(u8),
    // Expressions
    Return,
    /// Holds the number of variables declared inside the block, which are
    /// dropped at its end.
    Block(u8),
    // Side effects
    Print,
    PopN(u8),
    // Variables
    Var(u8),
    VarRef(u8),
    Assign,
}

/// The operation code that an operator token stands for; none for a token
/// that is no binary operator.
pub open spec fn operator_opcode(token: TokenView) -> Option<Opcode> {
    match token {
        TokenView::Plus => Some(Opcode::Add),
        TokenView::Minus => Some(Opcode::Subtract),
        TokenView::Star => Some(Opcode::Multiply),
        TokenView::Divide => Some(Opcode::Divide),
        TokenView::BangEqual => Some(Opcode::BangEqual),
        TokenView::Equal => Some(Opcode::Equal),
        TokenView::Less => Some(Opcode::Less),
        TokenView::LessEqual => Some(Opcode::LessEqual),
        TokenView::Greater => Some(Opcode::Greater),
        TokenView::GreaterEqual => Some(Opcode::GreaterEqual),
        TokenView::Assign => Some(Opcode::Assign),
        _ => None,
    }
}

impl Opcode {
    /// The operation code that a binary operator stands for.
    pub fn from(token: Token) -> (opcode: Self)
        requires
            operator_opcode(token@) is Some,
        ensures
            Some(opcode) == operator_opcode(token@),
    {
        match token {
            Token::Plus => Opcode::Add,
            Token::Minus => Opcode::Subtract,
            Token::Star => Opcode::Multiply,
            Token::Divide => Opcode::Divide,
            Token::BangEqual => Opcode::BangEqual,
            Token::Equal => Opcode::Equal,
            Token::Less => Opcode::Less,
            Token::LessEqual => Opcode::LessEqual,
            Token::Greater => Opcode::Greater,
            Token::GreaterEqual => Opcode::GreaterEqual,
            _ => Opcode::Assign,
        }
    }

    /// The operation code that a token stands for, if it is a binary
    /// operator.
    pub fn of_token(token: &Token) -> (opcode: Option<Self>)
        ensures
            opcode == operator_opcode(token@),
    {
        match token {
            Token::Plus => Some(Opcode::Add),
            Token::Minus => Some(Opcode::Subtract),
            Token::Star => Some(Opcode::Multiply),
            Token::Divide => Some(Opcode::Divide),
            Token::BangEqual => Some(Opcode::BangEqual),
            Token::Equal => Some(Opcode::Equal),
            Token::Less => Some(Opcode::Less),
            Token::LessEqual => Some(Opcode::LessEqual),
            Token::Greater => Some(Opcode::Greater),
            Token::GreaterEqual => Some(Opcode::GreaterEqual),
            Token::Assign => Some(Opcode::Assign),
            _ => None,
        }
    }
}

impl From<bool> for Opcode {
    fn from(value: bool) -> (opcode: Self) {
        match value {
            true => Opcode::True,
            false => Opcode::False,
        }
    }
}

impl FromSpecImpl<bool> for Opcode {
    open spec fn obeys_from_spec() -> bool {
        true
    }

    open spec fn from_spec(value: bool) -> Self {
        if value {
            Opcode::True
        } else {
            Opcode::False
        }
    }
}

} // verus!
