//! From tokens to expressions. Operators are parsed by their binding
//! powers.
use vstd::prelude::*;
use crate::syntax::error::{lex_error_cause, ParseErrorCause, ParseResult};
use crate::syntax::lexer::{lex, lexemes};
use crate::syntax::token::{infix_binding, prefix_binding, Lexeme, Operator, Span, Token};
use crate::syntax::tree::{
    binary_operator, unary_operator, AtomicValue, BinaryOperator, Expr, Spanned, UnaryOperator,
};
use crate::common::views;

verus! {

/// The token at `pos`; the end of the text behind the last token.
pub open spec fn peeked(tokens: Seq<Lexeme>, pos: int) -> Token {
    if 0 <= pos < tokens.len() {
        tokens[pos].token
    } else {
        Token::Eof
    }
}

/// The literal or name at `pos`.
pub open spec fn atom(tokens: Seq<Lexeme>, pos: int) -> ParseResult<Expr> {
    match peeked(tokens, pos) {
        Token::Number(n) => Ok(
            Expr::Atom(Spanned { val: AtomicValue::Number(n), span: tokens[pos].span }),
        ),
        Token::Bool(b) => Ok(
            Expr::Atom(Spanned { val: AtomicValue::Boolean(b), span: tokens[pos].span }),
        ),
        Token::Text(t) => Ok(
            Expr::Atom(Spanned { val: AtomicValue::Text(t), span: tokens[pos].span }),
        ),
        Token::Identifier(i) => Ok(
            Expr::Atom(Spanned { val: AtomicValue::Identifier(i), span: tokens[pos].span }),
        ),
        Token::Null => Ok(Expr::Atom(Spanned { val: AtomicValue::Null, span: tokens[pos].span })),
        Token::Eof => Err(ParseErrorCause::EndOfInput),
        Token::Error(error) => Err(lex_error_cause(error)),
        Token::Operator(_) => Err(ParseErrorCause::UnexpectedToken),
    }
}

/// The expression that starts at `pos` and takes every operator that
/// binds its left side at least as strongly as `min_bp`, and the position
/// behind it; or the error in its way and the position where that was met.
pub open spec fn expression(tokens: Seq<Lexeme>, pos: int, min_bp: u8) -> (ParseResult<Expr>, int)
    decreases tokens.len() - pos, 1nat,
{
    match peeked(tokens, pos) {
        Token::Operator(operator) => match (prefix_binding(operator), unary_operator(operator)) {
            (Some(r_bp), Some(unary)) => {
                let (rhs, after) = expression(tokens, pos + 1, r_bp);
                match rhs {
                    Ok(rhs) => if pos < after <= tokens.len() {
                        continued(
                            tokens,
                            after,
                            Expr::Unary {
                                op: Spanned { val: unary, span: tokens[pos].span },
                                rhs: Box::new(rhs),
                            },
                            min_bp,
                        )
                    } else {
                        (Err(ParseErrorCause::UnexpectedToken), after)
                    },
                    Err(cause) => (Err(cause), after),
                }
            },
            _ => (Err(ParseErrorCause::UnexpectedToken), pos),
        },
        _ => match atom(tokens, pos) {
            Ok(lhs) => continued(tokens, pos + 1, lhs, min_bp),
            Err(cause) => (Err(cause), pos),
        },
    }
}

/// The expression that `lhs` grows into by the operators from `pos` on
/// that bind their left side at least as strongly as `min_bp`.
pub open spec fn continued(tokens: Seq<Lexeme>, pos: int, lhs: Expr, min_bp: u8) -> (
    ParseResult<Expr>,
    int,
)
    decreases tokens.len() - pos, 0nat,
{
    match peeked(tokens, pos) {
        Token::Operator(operator) => match (infix_binding(operator), binary_operator(operator)) {
            (Some((l_bp, r_bp)), Some(binary)) => if l_bp < min_bp {
                (Ok(lhs), pos)
            } else {
                let (rhs, after) = expression(tokens, pos + 1, r_bp);
                match rhs {
                    Ok(rhs) => if pos < after <= tokens.len() {
                        continued(
                            tokens,
                            after,
                            Expr::Binary {
                                lhs: Box::new(lhs),
                                op: Spanned { val: binary, span: tokens[pos].span },
                                rhs: Box::new(rhs),
                            },
                            min_bp,
                        )
                    } else {
                        (Err(ParseErrorCause::UnexpectedToken), after)
                    },
                    Err(cause) => (Err(cause), after),
                }
            },
            _ => (Err(ParseErrorCause::UnexpectedToken), pos),
        },
        Token::Eof => (Ok(lhs), pos),
        _ => (Err(ParseErrorCause::UnexpectedToken), pos),
    }
}

/// Parsing reads on and stays within the tokens; an expression takes at
/// least one token.
pub proof fn lemma_expression_advances(tokens: Seq<Lexeme>, pos: int, min_bp: u8)
    requires
        0 <= pos <= tokens.len(),
    ensures
        pos <= expression(tokens, pos, min_bp).1 <= tokens.len(),
        expression(tokens, pos, min_bp).0 is Ok ==> pos < expression(tokens, pos, min_bp).1,
    decreases tokens.len() - pos, 1nat,
{
    match peeked(tokens, pos) {
        Token::Operator(operator) => match (prefix_binding(operator), unary_operator(operator)) {
            (Some(r_bp), Some(unary)) => {
                lemma_expression_advances(tokens, pos + 1, r_bp);
                let (rhs, after) = expression(tokens, pos + 1, r_bp);
                match rhs {
                    Ok(rhs) => {
                        lemma_continued_advances(
                            tokens,
                            after,
                            Expr::Unary {
                                op: Spanned { val: unary, span: tokens[pos].span },
                                rhs: Box::new(rhs),
                            },
                            min_bp,
                        );
                    },
                    Err(_) => {},
                }
            },
            _ => {},
        },
        _ => match atom(tokens, pos) {
            Ok(lhs) => {
                lemma_continued_advances(tokens, pos + 1, lhs, min_bp);
            },
            Err(_) => {},
        },
    }
}

/// Growing an expression reads on and stays within the tokens.
pub proof fn lemma_continued_advances(tokens: Seq<Lexeme>, pos: int, lhs: Expr, min_bp: u8)
    requires
        0 <= pos <= tokens.len(),
    ensures
        pos <= continued(tokens, pos, lhs, min_bp).1 <= tokens.len(),
    decreases tokens.len() - pos, 0nat,
{
    match peeked(tokens, pos) {
        Token::Operator(operator) => match (infix_binding(operator), binary_operator(operator)) {
            (Some((l_bp, r_bp)), Some(binary)) => {
                if l_bp >= min_bp {
                    lemma_expression_advances(tokens, pos + 1, r_bp);
                    let (rhs, after) = expression(tokens, pos + 1, r_bp);
                    match rhs {
                        Ok(rhs) => {
                            lemma_continued_advances(
                                tokens,
                                after,
                                Expr::Binary {
                                    lhs: Box::new(lhs),
                                    op: Spanned { val: binary, span: tokens[pos].span },
                                    rhs: Box::new(rhs),
                                },
                                min_bp,
                            );
                        },
                        Err(_) => {},
                    }
                }
            },
            _ => {},
        },
        _ => {},
    }
}

/// A parser of expressions: the tokens of a text and how many of them are
/// read.
pub struct Parser {
    pub tokens: Vec<Lexeme>,
    pub position: usize,
}

impl Parser {
    /// The position is within the tokens or just behind them.
    pub open spec fn wf(&self) -> bool {
        self.position <= self.tokens@.len()
    }

    /// A parser at the start of the tokens of `input`.
    pub fn new(input: &str) -> (parser: Self)
        ensures
            views(parser.tokens@) == lexemes(input@, 0),
            parser.position == 0,
            parser.wf(),
    {
        Parser { tokens: lex(input), position: 0 }
    }

    /// A copy of the next token; the end of the text if all are read.
    pub fn peek(&self) -> (token: Token)
        ensures
            token == peeked(self.tokens@, self.position as int),
    {
        if self.position < self.tokens.len() {
            self.tokens[self.position].token.clone()
        } else {
            Token::Eof
        }
    }

    /// Reads the next token and gives its place. Fails, and reads
    /// nothing, exactly when all tokens are read.
    pub fn advance(&mut self) -> (result: ParseResult<Span>)
        ensures
            final(self).tokens == old(self).tokens,
            if old(self).position < old(self).tokens@.len() {
                result == Ok::<Span, ParseErrorCause>(
                    old(self).tokens@[old(self).position as int].span,
                ) && final(self).position == old(self).position + 1
            } else {
                result == Err::<Span, ParseErrorCause>(ParseErrorCause::EndOfInput)
                    && final(self).position == old(self).position
            },
    {
        if self.position < self.tokens.len() {
            let span = self.tokens[self.position].span();
            self.position += 1;
            Ok(span)
        } else {
            Err(ParseErrorCause::EndOfInput)
        }
    }

    /// Reads the next token and gives `val` its place.
    pub fn construct_spanned<T>(&mut self, val: T) -> (result: ParseResult<Spanned<T>>)
        ensures
            final(self).tokens == old(self).tokens,
            if old(self).position < old(self).tokens@.len() {
                result == Ok::<Spanned<T>, ParseErrorCause>(
                    Spanned { val, span: old(self).tokens@[old(self).position as int].span },
                ) && final(self).position == old(self).position + 1
            } else {
                result == Err::<Spanned<T>, ParseErrorCause>(ParseErrorCause::EndOfInput)
                    && final(self).position == old(self).position
            },
    {
        match self.advance() {
            Ok(span) => Ok(Spanned { val, span }),
            Err(cause) => Err(cause),
        }
    }

    /// Parses a literal or a name. Fails, and reads nothing, exactly when
    /// the next token is neither.
    pub fn parse_atom(&mut self) -> (result: ParseResult<Expr>)
        ensures
            final(self).tokens == old(self).tokens,
            result == atom(old(self).tokens@, old(self).position as int),
            final(self).position == if result is Ok {
                old(self).position + 1
            } else {
                old(self).position as int
            },
    {
        let value = match self.peek() {
            Token::Number(n) => AtomicValue::Number(n),
            Token::Bool(b) => AtomicValue::Boolean(b),
            Token::Text(t) => AtomicValue::Text(t),
            Token::Identifier(i) => AtomicValue::Identifier(i),
            Token::Null => AtomicValue::Null,
            Token::Eof => {
                return Err(ParseErrorCause::EndOfInput);
            },
            Token::Error(error) => {
                return Err(ParseErrorCause::from_lex_error(error));
            },
            Token::Operator(_) => {
                return Err(ParseErrorCause::UnexpectedToken);
            },
        };
        match self.construct_spanned(value) {
            Ok(spanned) => Ok(Expr::Atom(spanned)),
            Err(cause) => Err(cause),
        }
    }

    /// Parses an expression.
    pub fn parse_expression(&mut self) -> (result: ParseResult<Expr>)
        requires
            old(self).wf(),
        ensures
            final(self).wf(),
            final(self).tokens == old(self).tokens,
            (result, final(self).position as int) == expression(
                old(self).tokens@,
                old(self).position as int,
                0,
            ),
    {
        self.parse_expression_bp(0)
    }

    /// Parses an expression that takes every operator which binds its left
    /// side at least as strongly as `min_bp`.
    #[verifier::loop_isolation(false)]
    pub fn parse_expression_bp(&mut self, min_bp: u8) -> (result: ParseResult<Expr>)
        requires
            old(self).wf(),
        ensures
            final(self).wf(),
            final(self).tokens == old(self).tokens,
            (result, final(self).position as int) == expression(
                old(self).tokens@,
                old(self).position as int,
                min_bp,
            ),
        decreases old(self).tokens@.len() - old(self).position,
    {
        let ghost tokens = self.tokens@;
        let ghost start = self.position as int;
        let mut lhs: Expr = match self.peek() {
            Token::Operator(op) => {
                let r_bp = match op.prefix_bp() {
                    Some(r_bp) => r_bp,
                    None => {
                        return Err(ParseErrorCause::UnexpectedToken);
                    },
                };
                let unary = match UnaryOperator::try_from_operator(op) {
                    Some(unary) => unary,
                    None => {
                        return Err(ParseErrorCause::UnexpectedToken);
                    },
                };
                let op = match self.construct_spanned(unary) {
                    Ok(op) => op,
                    Err(cause) => {
                        return Err(cause);
                    },
                };
                proof {
                    lemma_expression_advances(tokens, start + 1, r_bp);
                }
                let rhs = match self.parse_expression_bp(r_bp) {
                    Ok(rhs) => Box::new(rhs),
                    Err(cause) => {
                        return Err(cause);
                    },
                };
                Expr::Unary { op, rhs }
            },
            _ => match self.parse_atom() {
                Ok(atom) => atom,
                Err(cause) => {
                    return Err(cause);
                },
            },
        };

        loop
            invariant
                self.wf(),
                self.tokens@ == tokens,
                self.tokens == old(self).tokens,
                start < self.position,
                continued(tokens, self.position as int, lhs, min_bp) == expression(
                    tokens,
                    start,
                    min_bp,
                ),
            decreases tokens.len() - self.position,
        {
            let ghost here = self.position as int;
            let operator = match self.peek() {
                Token::Operator(operator) => operator,
                Token::Eof => {
                    return Ok(lhs);
                },
                _ => {
                    return Err(ParseErrorCause::UnexpectedToken);
                },
            };

            let (l_bp, r_bp) = match operator.infix_bp() {
                Some(powers) => powers,
                None => {
                    return Err(ParseErrorCause::UnexpectedToken);
                },
            };
            let binary = match BinaryOperator::try_from_operator(operator) {
                Some(binary) => binary,
                None => {
                    return Err(ParseErrorCause::UnexpectedToken);
                },
            };
            if l_bp < min_bp {
                return Ok(lhs);
            }
            // Read the operator and note its place
            let op = match self.construct_spanned(binary) {
                Ok(op) => op,
                Err(cause) => {
                    return Err(cause);
                },
            };
            proof {
                lemma_expression_advances(tokens, here + 1, r_bp);
            }
            let rhs = match self.parse_expression_bp(r_bp) {
                Ok(rhs) => rhs,
                Err(cause) => {
                    return Err(cause);
                },
            };
            lhs = Expr::Binary { lhs: Box::new(lhs), op, rhs: Box::new(rhs) };
        }
    }
}

} // verus!
