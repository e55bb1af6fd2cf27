//! The tokens that the statement parser reads.
use vstd::prelude::*;
use crate::common::{str_eq, Number};
use crate::parser::ast::BranchType;

verus! {

/// Where an operator stands in an expression.
#[derive(Debug, Clone, Copy, PartialEq, Eq, Structural)]
pub enum Affix {
    Prefix,
    Infix,
}

/// One token.
#[derive(Debug, PartialEq)]
pub enum Token {
    Number(Number),
    Text(String),
    Identifier(String),
    True,
    False,
    Null,
    Plus,
    Minus,
    Star,
    Divide,
    Bang,
    BangEqual,
    Equal,
    Less,
    LessEqual,
    Greater,
    GreaterEqual,
    Assign,
    OpenParenthesis,
    CloseParenthesis,
    OpenBrace,
    CloseBrace,
    Semicolon,
    If,
    ElseIf,
    Else,
    While,
    Print,
    Var,
}

/// Mathematical value of a [`Token`].
pub enum TokenView {
    Number(Number),
    Text(Seq<char>),
    Identifier(Seq<char>),
    True,
    False,
    Null,
    Plus,
    Minus,
    Star,
    Divide,
    Bang,
    BangEqual,
    Equal,
    Less,
    LessEqual,
    Greater,
    GreaterEqual,
    Assign,
    OpenParenthesis,
    CloseParenthesis,
    OpenBrace,
    CloseBrace,
    Semicolon,
    If,
    ElseIf,
    Else,
    While,
    Print,
    Var,
}

impl View for Token {
    type V = TokenView;

    open spec fn view(&self) -> TokenView {
        match *self {
            Token::Number(n) => TokenView::Number(n),
            Token::Text(t) => TokenView::Text(t@),
            Token::Identifier(i) => TokenView::Identifier(i@),
            Token::True => TokenView::True,
            Token::False => TokenView::False,
            Token::Null => TokenView::Null,
            Token::Plus => TokenView::Plus,
            Token::Minus => TokenView::Minus,
            Token::Star => TokenView::Star,
            Token::Divide => TokenView::Divide,
            Token::Bang => TokenView::Bang,
            Token::BangEqual => TokenView::BangEqual,
            Token::Equal => TokenView::Equal,
            Token::Less => TokenView::Less,
            Token::LessEqual => TokenView::LessEqual,
            Token::Greater => TokenView::Greater,
            Token::GreaterEqual => TokenView::GreaterEqual,
            Token::Assign => TokenView::Assign,
            Token::OpenParenthesis => TokenView::OpenParenthesis,
            Token::CloseParenthesis => TokenView::CloseParenthesis,
            Token::OpenBrace => TokenView::OpenBrace,
            Token::CloseBrace => TokenView::CloseBrace,
            Token::Semicolon => TokenView::Semicolon,
            Token::If => TokenView::If,
            Token::ElseIf => TokenView::ElseIf,
            Token::Else => TokenView::Else,
            Token::While => TokenView::While,
            Token::Print => TokenView::Print,
            Token::Var => TokenView::Var,
        }
    }
}

impl Clone for Token {
    fn clone(&self) -> (copy: Self)
        ensures
            copy == *self,
    {
        match self {
            Token::Number(n) => Token::Number(*n),
            Token::Text(t) => Token::Text(t.clone()),
            Token::Identifier(i) => Token::Identifier(i.clone()),
            Token::True => Token::True,
            Token::False => Token::False,
            Token::Null => Token::Null,
            Token::Plus => Token::Plus,
            Token::Minus => Token::Minus,
            Token::Star => Token::Star,
            Token::Divide => Token::Divide,
            Token::Bang => Token::Bang,
            Token::BangEqual => Token::BangEqual,
            Token::Equal => Token::Equal,
            Token::Less => Token::Less,
            Token::LessEqual => Token::LessEqual,
            Token::Greater => Token::Greater,
            Token::GreaterEqual => Token::GreaterEqual,
            Token::Assign => Token::Assign,
            Token::OpenParenthesis => Token::OpenParenthesis,
            Token::CloseParenthesis => Token::CloseParenthesis,
            Token::OpenBrace => Token::OpenBrace,
            Token::CloseBrace => Token::CloseBrace,
            Token::Semicolon => Token::Semicolon,
            Token::If => Token::If,
            Token::ElseIf => Token::ElseIf,
            Token::Else => Token::Else,
            Token::While => Token::While,
            Token::Print => Token::Print,
            Token::Var => Token::Var,
        }
    }
}

/// How strongly a token binds what stands beside it. A token that is no
/// operator in that place binds nothing.
pub open spec fn binding_power(token: TokenView, affix: Affix) -> usize {
    match affix {
        Affix::Infix => match token {
            TokenView::Assign => 10,
            TokenView::Equal | TokenView::BangEqual => 20,
            TokenView::Less | TokenView::LessEqual | TokenView::Greater
            | TokenView::GreaterEqual => 30,
            TokenView::Plus | TokenView::Minus => 40,
            TokenView::Star | TokenView::Divide => 50,
            _ => 0,
        },
        Affix::Prefix => match token {
            TokenView::Minus | TokenView::Bang => 60,
            _ => 0,
        },
    }
}

/// The token starts a statement.
pub open spec fn starts_statement(token: TokenView) -> bool {
    token is Print || token is Var
}

/// The token that opens a branch of that kind.
pub open spec fn branch_token(branch_type: BranchType) -> TokenView {
    match branch_type {
        BranchType::If => TokenView::If,
        BranchType::ElseIf => TokenView::ElseIf,
        BranchType::Else => TokenView::Else,
    }
}

impl Token {
    /// How strongly the token binds what stands beside it.
    pub fn bp(&self, affix: Affix) -> (power: usize)
        ensures
            power == binding_power(self@, affix),
    {
        match affix {
            Affix::Infix => match self {
                Token::Assign => 10,
                Token::Equal | Token::BangEqual => 20,
                Token::Less | Token::LessEqual | Token::Greater | Token::GreaterEqual => 30,
                Token::Plus | Token::Minus => 40,
                Token::Star | Token::Divide => 50,
                _ => 0,
            },
            Affix::Prefix => match self {
                Token::Minus | Token::Bang => 60,
                _ => 0,
            },
        }
    }

    /// Tells whether the token starts a statement.
    pub fn is_stmt(&self) -> (starts: bool)
        ensures
            starts == starts_statement(self@),
    {
        match self {
            Token::Print | Token::Var => true,
            _ => false,
        }
    }

    /// The name that an identifier carries; any other token is handed
    /// back.
    pub fn into_identifier(self) -> (result: Result<String, Token>)
        ensures
            match self {
                Token::Identifier(name) => result == Ok::<String, Token>(name),
                other => result == Err::<String, Token>(other),
            },
    {
        match self {
            Token::Identifier(name) => Ok(name),
            other => Err(other),
        }
    }

    /// The token that opens a branch of that kind.
    pub fn from_branch(branch_type: BranchType) -> (token: Self)
        ensures
            token@ == branch_token(branch_type),
    {
        match branch_type {
            BranchType::If => Token::If,
            BranchType::ElseIf => Token::ElseIf,
            BranchType::Else => Token::Else,
        }
    }

    /// Tells whether two tokens are the same.
    pub fn same_as(&self, other: &Token) -> (same: bool)
        ensures
            same == (self@ == other@),
    {
        match (self, other) {
            (Token::Number(a), Token::Number(b)) => *a == *b,
            (Token::Text(a), Token::Text(b)) => str_eq(a.as_str(), b.as_str()),
            (Token::Identifier(a), Token::Identifier(b)) => str_eq(a.as_str(), b.as_str()),
            (Token::True, Token::True) => true,
            (Token::False, Token::False) => true,
            (Token::Null, Token::Null) => true,
            (Token::Plus, Token::Plus) => true,
            (Token::Minus, Token::Minus) => true,
            (Token::Star, Token::Star) => true,
            (Token::Divide, Token::Divide) => true,
            (Token::Bang, Token::Bang) => true,
            (Token::BangEqual, Token::BangEqual) => true,
            (Token::Equal, Token::Equal) => true,
            (Token::Less, Token::Less) => true,
            (Token::LessEqual, Token::LessEqual) => true,
            (Token::Greater, Token::Greater) => true,
            (Token::GreaterEqual, Token::GreaterEqual) => true,
            (Token::Assign, Token::Assign) => true,
            (Token::OpenParenthesis, Token::OpenParenthesis) => true,
            (Token::CloseParenthesis, Token::CloseParenthesis) => true,
            (Token::OpenBrace, Token::OpenBrace) => true,
            (Token::CloseBrace, Token::CloseBrace) => true,
            (Token::Semicolon, Token::Semicolon) => true,
            (Token::If, Token::If) => true,
            (Token::ElseIf, Token::ElseIf) => true,
            (Token::Else, Token::Else) => true,
            (Token::While, Token::While) => true,
            (Token::Print, Token::Print) => true,
            (Token::Var, Token::Var) => true,
            _ => false,
        }
    }
}

} // verus!
