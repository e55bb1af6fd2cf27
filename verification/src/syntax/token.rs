//! The tokens of source text.
use vstd::prelude::*;
use crate::common::{str_eq, Number};

verus! {

/// An operator as it is written.
#[derive(Debug, Clone, Copy, PartialEq, Eq, Structural)]
pub enum Operator {
    // MATH
    Plus,
    Minus,
    Multiply,
    Divide,
    Modulo,
    Exponent,
    // COMPARISON
    Compare,
    BangCompare,
    Less,
    LessEqual,
    Greater,
    GreaterEqual,
    Or,
    And,
    // MISC
    Bang,
    Assign,
    Dot,
}

/// The operator that a piece of text spells, if it spells one.
pub open spec fn operator_of(text: Seq<char>) -> Option<Operator> {
    if text == "+"@ {
        Some(Operator::Plus)
    } else if text == "-"@ {
        Some(Operator::Minus)
    } else if text == "*"@ {
        Some(Operator::Multiply)
    } else if text == "/"@ {
        Some(Operator::Divide)
    } else if text == "%"@ {
        Some(Operator::Modulo)
    } else if text == "**"@ {
        Some(Operator::Exponent)
    } else if text == "="@ {
        Some(Operator::Assign)
    } else if text == "=="@ {
        Some(Operator::Compare)
    } else if text == "!="@ {
        Some(Operator::BangCompare)
    } else if text == "<"@ {
        Some(Operator::Less)
    } else if text == "<="@ {
        Some(Operator::LessEqual)
    } else if text == ">"@ {
        Some(Operator::Greater)
    } else if text == ">="@ {
        Some(Operator::GreaterEqual)
    } else if text == "or"@ {
        Some(Operator::Or)
    } else if text == "and"@ {
        Some(Operator::And)
    } else if text == "!"@ {
        Some(Operator::Bang)
    } else if text == "."@ {
        Some(Operator::Dot)
    } else {
        None
    }
}

/// The operator that `slice` spells, if it spells one.
pub fn lex_operator(slice: &str) -> (operator: Option<Operator>)
    ensures
        operator == operator_of(slice@),
{
    if str_eq(slice, "+") {
        Some(Operator::Plus)
    } else if str_eq(slice, "-") {
        Some(Operator::Minus)
    } else if str_eq(slice, "*") {
        Some(Operator::Multiply)
    } else if str_eq(slice, "/") {
        Some(Operator::Divide)
    } else if str_eq(slice, "%") {
        Some(Operator::Modulo)
    } else if str_eq(slice, "**") {
        Some(Operator::Exponent)
    } else if str_eq(slice, "=") {
        Some(Operator::Assign)
    } else if str_eq(slice, "==") {
        Some(Operator::Compare)
    } else if str_eq(slice, "!=") {
        Some(Operator::BangCompare)
    } else if str_eq(slice, "<") {
        Some(Operator::Less)
    } else if str_eq(slice, "<=") {
        Some(Operator::LessEqual)
    } else if str_eq(slice, ">") {
        Some(Operator::Greater)
    } else if str_eq(slice, ">=") {
        Some(Operator::GreaterEqual)
    } else if str_eq(slice, "or") {
        Some(Operator::Or)
    } else if str_eq(slice, "and") {
        Some(Operator::And)
    } else if str_eq(slice, "!") {
        Some(Operator::Bang)
    } else if str_eq(slice, ".") {
        Some(Operator::Dot)
    } else {
        None
    }
}

/// How strongly an operator between two expressions binds the one to its
/// left and the one to its right; none for an operator that does not stand
/// between expressions.
pub open spec fn infix_binding(operator: Operator) -> Option<(u8, u8)> {
    match operator {
        Operator::Or => Some((1u8, 2u8)),
        Operator::And => Some((3u8, 4u8)),
        Operator::Compare | Operator::BangCompare => Some((5u8, 6u8)),
        Operator::Less | Operator::LessEqual | Operator::Greater | Operator::GreaterEqual => Some(
            (7u8, 8u8),
        ),
        Operator::Plus | Operator::Minus => Some((9u8, 10u8)),
        Operator::Multiply | Operator::Divide | Operator::Modulo => Some((11u8, 12u8)),
        Operator::Exponent => Some((13u8, 14u8)),
        _ => None,
    }
}

/// How strongly an operator before an expression binds it; none for an
/// operator that does not stand before expressions.
pub open spec fn prefix_binding(operator: Operator) -> Option<u8> {
    match operator {
        Operator::Minus | Operator::Bang => Some(8u8),
        _ => None,
    }
}

impl Operator {
    /// The binding powers of the operator between two expressions.
    pub fn infix_bp(&self) -> (powers: Option<(u8, u8)>)
        ensures
            powers == infix_binding(*self),
    {
        match self {
            Operator::Or => Some((1, 2)),
            Operator::And => Some((3, 4)),
            Operator::Compare | Operator::BangCompare => Some((5, 6)),
            Operator::Less | Operator::LessEqual | Operator::Greater | Operator::GreaterEqual => {
                Some((7, 8))
            },
            Operator::Plus | Operator::Minus => Some((9, 10)),
            Operator::Multiply | Operator::Divide | Operator::Modulo => Some((11, 12)),
            Operator::Exponent => Some((13, 14)),
            _ => None,
        }
    }

    /// The binding power of the operator before an expression.
    pub fn prefix_bp(&self) -> (power: Option<u8>)
        ensures
            power == prefix_binding(*self),
    {
        match self {
            Operator::Minus | Operator::Bang => Some(8),
            _ => None,
        }
    }
}

/// Why a piece of the text is no token.
#[derive(Debug, Clone, Copy, PartialEq, Eq, Structural)]
pub enum LexError {
    /// A character that starts no token.
    UnknownCharacter,
    /// A number with more than one dot.
    TooMuchDots,
    /// A number that is no number of the language.
    InvalidNumber,
    /// A text without its closing quote.
    UnterminatedText,
}

/// A token.
#[derive(Debug, PartialEq)]
pub enum Token {
    Operator(Operator),
    Number(Number),
    Bool(bool),
    Text(String),
    Identifier(String),
    Null,
    Error(LexError),
    Eof,
}

/// Mathematical value of a [`Token`].
pub enum TokenView {
    Operator(Operator),
    Number(Number),
    Bool(bool),
    Text(Seq<char>),
    Identifier(Seq<char>),
    Null,
    Error(LexError),
    Eof,
}

impl View for Token {
    type V = TokenView;

    open spec fn view(&self) -> TokenView {
        match *self {
            Token::Operator(operator) => TokenView::Operator(operator),
            Token::Number(n) => TokenView::Number(n),
            Token::Bool(b) => TokenView::Bool(b),
            Token::Text(t) => TokenView::Text(t@),
            Token::Identifier(i) => TokenView::Identifier(i@),
            Token::Null => TokenView::Null,
            Token::Error(e) => TokenView::Error(e),
            Token::Eof => TokenView::Eof,
        }
    }
}

impl Clone for Token {
    fn clone(&self) -> (copy: Self)
        ensures
            copy == *self,
    {
        match self {
            Token::Operator(operator) => Token::Operator(*operator),
            Token::Number(n) => Token::Number(*n),
            Token::Bool(b) => Token::Bool(*b),
            Token::Text(t) => Token::Text(t.clone()),
            Token::Identifier(i) => Token::Identifier(i.clone()),
            Token::Null => Token::Null,
            Token::Error(e) => Token::Error(*e),
            Token::Eof => Token::Eof,
        }
    }
}

/// A stretch of the text: the characters from `start` up to `end`.
#[derive(Debug, Clone, Copy, PartialEq, Eq, Structural)]
pub struct Span {
    pub start: usize,
    pub end: usize,
}

/// A token and where it stands.
#[derive(Debug, PartialEq)]
pub struct Lexeme {
    pub token: Token,
    pub span: Span,
}

/// Mathematical value of a [`Lexeme`].
pub struct LexemeView {
    pub token: TokenView,
    pub span: Span,
}

impl View for Lexeme {
    type V = LexemeView;

    open spec fn view(&self) -> LexemeView {
        LexemeView { token: self.token@, span: self.span }
    }
}

impl Lexeme {
    /// Where the token stands.
    pub fn span(&self) -> (span: Span)
        ensures
            span == self.span,
    {
        self.span
    }
}

} // verus!
