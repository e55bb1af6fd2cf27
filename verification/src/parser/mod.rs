//! A parser of statements and expressions from a list of tokens. Operators
//! are parsed by their binding power.
use vstd::prelude::*;

pub mod ast;
pub mod token;
pub mod grammar;

pub use crate::parser::ast::{Ast, Atom, Block, BranchType, Either, Expr, IfBranch, Stmt};
pub use crate::parser::token::{Affix, Token, TokenView};
use crate::parser::ast::{
    branches_view, expr_view, lemma_branches_view_push, lemma_stmts_view_push, stmts_view,
    ExprView, StmtView,
};
use crate::parser::grammar::{
    expected,
    next_statement,
    parsed_atom,
    parsed_binary,
    parsed_block,
    parsed_block_expr,
    parsed_branches,
    parsed_expr,
    parsed_expr_or_stmt,
    parsed_expr_stmt,
    parsed_grouping,
    parsed_if,
    parsed_if_branch,
    parsed_infix,
    parsed_items,
    parsed_prefix,
    parsed_print,
    parsed_program,
    parsed_stmt,
    parsed_unary,
    parsed_var,
    parsed_var_stmt,
    parsed_while,
};
use crate::parser::token::{binding_power, branch_token};

verus! {

/// Why a list of tokens is no program.
#[derive(Debug, PartialEq)]
pub enum ParseError {
    /// Another token was needed at this place.
    Expected(Token),
    /// An expression without a semicolon stood in a block before its end.
    StandaloneExpression,
    /// A name was needed and another token was found.
    InvalidIdentifier,
    /// The token cannot start an expression.
    UnsupportedToken(Token),
    /// After `var` no name followed.
    MalformedDeclaration,
    /// The tokens ended where one more was needed.
    UnexpectedEnd,
}

/// The parser: the tokens, how many of them are read, and the errors met
/// so far.
pub struct Parser {
    pub errors: Vec<ParseError>,
    pub tokens: Vec<Token>,
    pub position: usize,
}

/// From `before` to `after` the parser has only read on: the tokens and the
/// errors are the same and the position has not gone back. It has gone
/// forward if `ok`.
pub open spec fn read_on(before: Parser, after: Parser, ok: bool) -> bool {
    &&& after.tokens == before.tokens
    &&& after.errors == before.errors
    &&& before.position <= after.position <= after.tokens@.len()
    &&& ok ==> before.position < after.position
}

/// The result of a rule and the position behind it are what the grammar
/// says: on success the tree has the value that the grammar gives, an error
/// is the error that the grammar gives.
pub open spec fn agrees<T: View>(
    result: Result<T, ParseError>,
    position: usize,
    grammar: (Result<T::V, ParseError>, int),
) -> bool {
    &&& position == grammar.1
    &&& match grammar.0 {
        Ok(value) => result matches Ok(tree) && tree@ == value,
        Err(error) => result == Err::<T, ParseError>(error),
    }
}

/// The value of what may stand in a block.
pub open spec fn item_view(item: Either<Stmt, Expr>) -> Either<StmtView, ExprView> {
    match item {
        Either::Left(stmt) => Either::Left(stmt@),
        Either::Right(expr) => Either::Right(expr@),
    }
}

/// The value of an expression that may be there.
pub open spec fn boxed_view(expr: Option<Box<Expr>>) -> Option<Box<ExprView>> {
    match expr {
        Some(expr) => Some(Box::new(expr_view(*expr))),
        None => None,
    }
}

/// The next token of the parser is `token`.
pub open spec fn at_token(parser: Parser, token: TokenView) -> bool {
    parser.position < parser.tokens@.len() && parser.tokens@[parser.position as int]@ == token
}

/// The parser has a token to read.
pub open spec fn at_any(parser: Parser) -> bool {
    parser.position < parser.tokens@.len()
}

impl Parser {
    /// The position is within the tokens or just behind them.
    pub open spec fn wf(&self) -> bool {
        self.position <= self.tokens@.len()
    }

    /// Number of tokens that are not read yet.
    pub open spec fn remaining(&self) -> int {
        self.tokens@.len() - self.position
    }

    /// A parser at the start of `tokens`.
    pub fn new(tokens: Vec<Token>) -> (parser: Self)
        ensures
            parser.tokens == tokens,
            parser.position == 0,
            parser.errors@.len() == 0,
            parser.wf(),
    {
        Parser { errors: Vec::new(), tokens, position: 0 }
    }

    /// Skips the tokens up to the next one that starts a statement.
    pub fn synchronize(&mut self)
        requires
            old(self).wf(),
        ensures
            final(self).wf(),
            final(self).tokens == old(self).tokens,
            final(self).errors == old(self).errors,
            final(self).position == next_statement(old(self).tokens@, old(self).position as int),
            final(self).position >= old(self).position,
    {
        while self.position < self.tokens.len() && !self.tokens[self.position].is_stmt()
            invariant
                self.wf(),
                self.tokens == old(self).tokens,
                self.errors == old(self).errors,
                self.position >= old(self).position,
                next_statement(self.tokens@, self.position as int) == next_statement(
                    self.tokens@,
                    old(self).position as int,
                ),
            decreases self.remaining(),
        {
            self.position += 1;
        }
    }

    /// Parses statements until the tokens end. After a statement that
    /// fails, the tokens up to the next one that starts a statement are
    /// skipped. Gives the statements if no error was met, now or before,
    /// else the errors in the order in which they were met.
    pub fn parse(self) -> (result: Result<Ast, Vec<ParseError>>)
        requires
            self.wf(),
        ensures
            ({
                let (stmts, errors) = parsed_program(
                    self.tokens@,
                    self.position as int,
                    Seq::empty(),
                    self.errors@,
                );
                if errors.len() == 0 {
                    result matches Ok(ast) && ast@ == stmts
                } else {
                    result matches Err(met) && met@ == errors
                }
            }),
    {
        let mut parser = self;
        let mut stmts: Vec<Stmt> = Vec::new();
        let ghost tokens = self.tokens@;
        let ghost target = parsed_program(
            tokens,
            self.position as int,
            Seq::empty(),
            self.errors@,
        );
        while parser.position < parser.tokens.len()
            invariant
                parser.wf(),
                parser.tokens@ == tokens,
                parsed_program(
                    tokens,
                    parser.position as int,
                    stmts_view(stmts@, stmts@.len()),
                    parser.errors@,
                ) == target,
            decreases parser.remaining(),
        {
            let ghost start = parser.position as int;
            let ghost before = parsed_program(
                tokens,
                start,
                stmts_view(stmts@, stmts@.len()),
                parser.errors@,
            );
            match parser.stmt() {
                Ok(stmt) => {
                    proof {
                        lemma_stmts_view_push(stmts@, stmt, stmts@.len());
                    }
                    stmts.push(stmt);
                },
                Err(e) => {
                    parser.record(e);
                    parser.synchronize();
                },
            }
        }
        if parser.errors.len() == 0 {
            Ok(Ast(stmts))
        } else {
            Err(parser.errors)
        }
    }

    /// Notes an error.
    pub fn record(&mut self, error: ParseError)
        ensures
            final(self).tokens == old(self).tokens,
            final(self).position == old(self).position,
            final(self).errors@ == old(self).errors@.push(error),
    {
        self.errors.push(error);
    }

    /// The binding power of the next token; zero at the end.
    pub fn peek_bp(&self, affix: Affix) -> (power: usize)
        requires
            self.wf(),
        ensures
            power == if self.position < self.tokens@.len() {
                binding_power(self.tokens@[self.position as int]@, affix)
            } else {
                0
            },
    {
        if self.position < self.tokens.len() {
            self.tokens[self.position].bp(affix)
        } else {
            0
        }
    }

    /// Tells whether the next token is `expected`.
    pub fn peek_eq(&self, expected: Token) -> (same: bool)
        requires
            self.wf(),
        ensures
            same == (self.position < self.tokens@.len() && self.tokens@[self.position as int]@
                == expected@),
    {
        self.position < self.tokens.len() && self.tokens[self.position].same_as(&expected)
    }

    /// The next token, if there is one.
    pub fn peek_token(&self) -> (token: Option<&Token>)
        requires
            self.wf(),
        ensures
            self.position < self.tokens@.len() ==> token == Some(
                &self.tokens@[self.position as int],
            ),
            self.position >= self.tokens@.len() ==> token is None,
    {
        if self.position < self.tokens.len() {
            Some(&self.tokens[self.position])
        } else {
            None
        }
    }

    /// Reads the next token, if there is one.
    pub fn next_token(&mut self) -> (token: Option<Token>)
        requires
            old(self).wf(),
        ensures
            final(self).tokens == old(self).tokens,
            final(self).errors == old(self).errors,
            final(self).wf(),
            old(self).position < old(self).tokens@.len() ==> token == Some(
                old(self).tokens@[old(self).position as int],
            ) && final(self).position == old(self).position + 1,
            old(self).position >= old(self).tokens@.len() ==> token is None && final(self).position
                == old(self).position,
    {
        if self.position < self.tokens.len() {
            let token = self.tokens[self.position].clone();
            self.position += 1;
            Some(token)
        } else {
            None
        }
    }

    /// Reads the next token if it is `expected`. Fails, and reads nothing,
    /// exactly when it is not.
    pub fn expect(&mut self, expected: Token) -> (result: Result<(), ParseError>)
        requires
            old(self).wf(),
        ensures
            final(self).tokens == old(self).tokens,
            final(self).errors == old(self).errors,
            final(self).wf(),
            if old(self).position < old(self).tokens@.len()
                && old(self).tokens@[old(self).position as int]@ == expected@ {
                result is Ok && final(self).position == old(self).position + 1
            } else {
                result == Err::<(), ParseError>(ParseError::Expected(expected))
                    && final(self).position == old(self).position
            },
    {
        if self.position < self.tokens.len() && self.tokens[self.position].same_as(&expected) {
            self.position += 1;
            Ok(())
        } else {
            Err(ParseError::Expected(expected))
        }
    }

    /// Parses a block: statements between braces, the last of which may be
    /// an expression without a semicolon.
    #[verifier::loop_isolation(false)]
    pub fn parse_block(&mut self) -> (result: Result<Block, ParseError>)
        requires
            old(self).wf(),
        ensures
            read_on(*old(self), *final(self), result is Ok),
            agrees(
                result,
                final(self).position,
                parsed_block(old(self).tokens@, old(self).position as int),
            ),
            at_token(*old(self), TokenView::OpenBrace) ==>
                old(self).position < final(self).position,
        decreases old(self).remaining(), 5int,
    {
        self.expect(Token::OpenBrace)?;

        let ghost tokens = self.tokens@;
        let ghost inside = self.position as int;
        let mut body: Vec<Stmt> = Vec::new();
        let mut final_expr: Option<Box<Expr>> = None;
        let mut misplaced = false;

        while !self.peek_eq(Token::CloseBrace)
            invariant
                self.wf(),
                self.tokens == old(self).tokens,
                self.errors == old(self).errors,
                old(self).position < self.position,
                parsed_items(
                    tokens,
                    self.position as int,
                    stmts_view(body@, body@.len()),
                    boxed_view(final_expr),
                    misplaced,
                ) == parsed_items(tokens, inside, Seq::empty(), None, false),
            decreases self.remaining(),
        {
            let item = self.parse_expr_or_stmt()?;
            if final_expr.is_some() {
                misplaced = true;
            }
            match item {
                Either::Left(stmt) => {
                    proof {
                        lemma_stmts_view_push(body@, stmt, body@.len());
                    }
                    body.push(stmt);
                    final_expr = None;
                },
                Either::Right(expr) => {
                    final_expr = Some(Box::new(expr));
                },
            }
        }

        if misplaced {
            return Err(ParseError::StandaloneExpression);
        }

        self.expect(Token::CloseBrace)?;

        Ok(Block { body, final_expr })
    }

    /// Parses one branch of a conditional: its keyword, its condition
    /// unless it is an `else`, and its block.
    pub fn parse_if_branch(&mut self, branch_type: BranchType) -> (result: Result<
        IfBranch,
        ParseError,
    >)
        requires
            old(self).wf(),
        ensures
            read_on(*old(self), *final(self), result is Ok),
            agrees(
                result,
                final(self).position,
                parsed_if_branch(old(self).tokens@, old(self).position as int, branch_type),
            ),
            at_token(*old(self), branch_token(branch_type)) ==>
                old(self).position < final(self).position,
        decreases old(self).remaining(), 6int,
    {
        self.expect(Token::from_branch(branch_type))?;
        let condition = match branch_type {
            BranchType::Else => Expr::Atom(Atom::Bool(true)),
            _ => self.expr(0)?,
        };

        let body = self.parse_block()?;

        Ok(IfBranch { branch_type, condition, body })
    }

    /// Parses what may stand in a block: a statement, or an expression,
    /// which is a statement if a semicolon follows it.
    pub fn parse_expr_or_stmt(&mut self) -> (result: Result<Either<Stmt, Expr>, ParseError>)
        requires
            old(self).wf(),
        ensures
            read_on(*old(self), *final(self), result is Ok),
            final(self).position == parsed_expr_or_stmt(
                old(self).tokens@,
                old(self).position as int,
            ).1,
            match parsed_expr_or_stmt(old(self).tokens@, old(self).position as int).0 {
                Ok(value) => result matches Ok(item) && item_view(item) == value,
                Err(error) => result == Err::<Either<Stmt, Expr>, ParseError>(error),
            },
            at_any(*old(self)) ==> old(self).position < final(self).position,
        decreases old(self).remaining(), 13int,
    {
        let starts = match self.peek_token() {
            Some(token) => token.is_stmt(),
            None => {
                return Err(ParseError::UnexpectedEnd);
            },
        };
        if starts {
            Ok(Either::Left(self.stmt()?))
        } else {
            let expr = self.expr(0)?;
            if self.peek_eq(Token::Semicolon) {
                self.expect(Token::Semicolon)?;
                Ok(Either::Left(Stmt::Expr { expr }))
            } else {
                Ok(Either::Right(expr))
            }
        }
    }

    /// Parses an expression whose operators bind more strongly than `rbp`.
    #[verifier::loop_isolation(false)]
    pub fn expr(&mut self, rbp: usize) -> (result: Result<Expr, ParseError>)
        requires
            old(self).wf(),
        ensures
            read_on(*old(self), *final(self), result is Ok),
            agrees(
                result,
                final(self).position,
                parsed_expr(old(self).tokens@, old(self).position as int, rbp),
            ),
            at_any(*old(self)) ==> old(self).position < final(self).position,
        decreases old(self).remaining(), 9int,
    {
        let ghost tokens = self.tokens@;
        let mut expr = self.prefix()?;
        while self.peek_bp(Affix::Infix) > rbp
            invariant
                self.wf(),
                self.tokens == old(self).tokens,
                self.errors == old(self).errors,
                old(self).position < self.position,
                parsed_infix(tokens, self.position as int, expr@, rbp) == parsed_expr(
                    tokens,
                    old(self).position as int,
                    rbp,
                ),
            decreases self.remaining(),
        {
            expr = self.binary_expr(expr)?;
        }
        Ok(expr)
    }

    /// Parses what an expression starts with.
    pub fn prefix(&mut self) -> (result: Result<Expr, ParseError>)
        requires
            old(self).wf(),
        ensures
            read_on(*old(self), *final(self), result is Ok),
            agrees(
                result,
                final(self).position,
                parsed_prefix(old(self).tokens@, old(self).position as int),
            ),
            at_any(*old(self)) ==> old(self).position < final(self).position,
        decreases old(self).remaining(), 8int,
    {
        let token = match self.peek_token() {
            Some(token) => token,
            None => {
                return Err(ParseError::UnexpectedEnd);
            },
        };
        match token {
            Token::Minus => self.unary_expr(),
            Token::Bang => self.unary_expr(),
            Token::Identifier(_) => self.var_expr(),
            Token::OpenParenthesis => self.grouping_expr(),
            Token::OpenBrace => self.block_expr(),
            Token::If => self.if_expr(),
            Token::While => self.while_expr(),
            _ => self.atom_expr(),
        }
    }

    /// Parses a name. The name is a reference if an assignment follows it.
    pub fn var_expr(&mut self) -> (result: Result<Expr, ParseError>)
        requires
            old(self).wf(),
        ensures
            read_on(*old(self), *final(self), result is Ok),
            agrees(
                result,
                final(self).position,
                parsed_var(old(self).tokens@, old(self).position as int),
            ),
    {
        let token = match self.next_token() {
            Some(token) => token,
            None => {
                return Err(ParseError::UnexpectedEnd);
            },
        };
        if let Ok(identifier) = token.into_identifier() {
            // A name before an assignment stands for the variable itself,
            // not for its value.
            let is_ref = self.peek_eq(Token::Assign);
            Ok(Expr::Var { identifier, is_ref })
        } else {
            Err(ParseError::InvalidIdentifier)
        }
    }

    /// Parses a literal.
    pub fn atom_expr(&mut self) -> (result: Result<Expr, ParseError>)
        requires
            old(self).wf(),
        ensures
            read_on(*old(self), *final(self), result is Ok),
            agrees(
                result,
                final(self).position,
                parsed_atom(old(self).tokens@, old(self).position as int),
            ),
    {
        let token = match self.next_token() {
            Some(token) => token,
            None => {
                return Err(ParseError::UnexpectedEnd);
            },
        };
        match token {
            Token::Text(text) => Ok(Expr::Atom(Atom::Text(text))),
            Token::Number(num) => Ok(Expr::Atom(Atom::Number(num))),
            Token::False => Ok(Expr::Atom(Atom::Bool(false))),
            Token::True => Ok(Expr::Atom(Atom::Bool(true))),
            Token::Null => Ok(Expr::Atom(Atom::Null)),
            other => Err(ParseError::UnsupportedToken(other)),
        }
    }

    /// Parses an expression between parentheses.
    pub fn grouping_expr(&mut self) -> (result: Result<Expr, ParseError>)
        requires
            old(self).wf(),
        ensures
            read_on(*old(self), *final(self), result is Ok),
            agrees(
                result,
                final(self).position,
                parsed_grouping(old(self).tokens@, old(self).position as int),
            ),
            at_any(*old(self)) ==> old(self).position < final(self).position,
        decreases old(self).remaining(), 7int,
    {
        let open_paren = match self.next_token() {
            Some(token) => token,
            None => {
                return Err(ParseError::UnexpectedEnd);
            },
        };
        let bp = open_paren.bp(Affix::Prefix);
        let expr = self.expr(bp)?;

        self.expect(Token::CloseParenthesis)?;

        Ok(Expr::Grouping { expr: Box::new(expr) })
    }

    /// Parses an operator and the expression that it stands before.
    pub fn unary_expr(&mut self) -> (result: Result<Expr, ParseError>)
        requires
            old(self).wf(),
        ensures
            read_on(*old(self), *final(self), result is Ok),
            agrees(
                result,
                final(self).position,
                parsed_unary(old(self).tokens@, old(self).position as int),
            ),
            at_any(*old(self)) ==> old(self).position < final(self).position,
        decreases old(self).remaining(), 7int,
    {
        let operator = match self.next_token() {
            Some(token) => token,
            None => {
                return Err(ParseError::UnexpectedEnd);
            },
        };
        let bp = operator.bp(Affix::Prefix);
        let expr = self.expr(bp)?;

        Ok(Expr::Unary { expr: Box::new(expr), operator })
    }

    /// Parses an operator and the expression to its right; `left` is the
    /// expression to its left.
    pub fn binary_expr(&mut self, left: Expr) -> (result: Result<Expr, ParseError>)
        requires
            old(self).wf(),
        ensures
            read_on(*old(self), *final(self), result is Ok),
            agrees(
                result,
                final(self).position,
                parsed_binary(old(self).tokens@, old(self).position as int, left@),
            ),
            at_any(*old(self)) ==> old(self).position < final(self).position,
        decreases old(self).remaining(), 8int,
    {
        let operator = match self.next_token() {
            Some(token) => token,
            None => {
                return Err(ParseError::UnexpectedEnd);
            },
        };
        let right = self.expr(operator.bp(Affix::Infix))?;

        Ok(Expr::Binary { left: Box::new(left), operator, right: Box::new(right) })
    }

    /// Parses a block as an expression.
    pub fn block_expr(&mut self) -> (result: Result<Expr, ParseError>)
        requires
            old(self).wf(),
        ensures
            read_on(*old(self), *final(self), result is Ok),
            agrees(
                result,
                final(self).position,
                parsed_block_expr(old(self).tokens@, old(self).position as int),
            ),
            at_token(*old(self), TokenView::OpenBrace) ==>
                old(self).position < final(self).position,
        decreases old(self).remaining(), 7int,
    {
        Ok(Expr::Block { body: self.parse_block()? })
    }

    /// Parses a conditional: an `if` branch, any number of `else if`
    /// branches, and an `else` branch if one follows.
    #[verifier::loop_isolation(false)]
    pub fn if_expr(&mut self) -> (result: Result<Expr, ParseError>)
        requires
            old(self).wf(),
        ensures
            read_on(*old(self), *final(self), result is Ok),
            agrees(
                result,
                final(self).position,
                parsed_if(old(self).tokens@, old(self).position as int),
            ),
            at_token(*old(self), TokenView::If) ==> old(self).position < final(self).position,
        decreases old(self).remaining(), 7int,
    {
        let ghost tokens = self.tokens@;
        let mut branches: Vec<IfBranch> = Vec::new();

        let first = self.parse_if_branch(BranchType::If)?;
        proof {
            lemma_branches_view_push(branches@, first, 0);
            assert(branches_view(branches@, 0).push(first@) =~= seq![first@]);
        }
        branches.push(first);

        while self.peek_eq(Token::ElseIf)
            invariant
                self.wf(),
                self.tokens == old(self).tokens,
                self.errors == old(self).errors,
                old(self).position < self.position,
                parsed_branches(
                    tokens,
                    self.position as int,
                    branches_view(branches@, branches@.len()),
                ) == parsed_if(tokens, old(self).position as int),
            decreases self.remaining(),
        {
            let branch = self.parse_if_branch(BranchType::ElseIf)?;
            proof {
                lemma_branches_view_push(branches@, branch, branches@.len());
            }
            branches.push(branch);
        }

        if self.peek_eq(Token::Else) {
            let branch = self.parse_if_branch(BranchType::Else)?;
            proof {
                lemma_branches_view_push(branches@, branch, branches@.len());
            }
            branches.push(branch);
        }

        Ok(Expr::If { branches })
    }

    /// Parses a loop: `while`, its condition and its block.
    pub fn while_expr(&mut self) -> (result: Result<Expr, ParseError>)
        requires
            old(self).wf(),
        ensures
            read_on(*old(self), *final(self), result is Ok),
            agrees(
                result,
                final(self).position,
                parsed_while(old(self).tokens@, old(self).position as int),
            ),
            at_token(*old(self), TokenView::While) ==> old(self).position < final(self).position,
        decreases old(self).remaining(), 7int,
    {
        self.expect(Token::While)?;
        let condition = Box::new(self.expr(0)?);
        let body = self.parse_block()?;

        Ok(Expr::While { condition, body })
    }

    /// Parses a statement.
    pub fn stmt(&mut self) -> (result: Result<Stmt, ParseError>)
        requires
            old(self).wf(),
        ensures
            read_on(*old(self), *final(self), result is Ok),
            agrees(
                result,
                final(self).position,
                parsed_stmt(old(self).tokens@, old(self).position as int),
            ),
            at_any(*old(self)) ==> old(self).position < final(self).position,
        decreases old(self).remaining(), 11int,
    {
        let token = match self.peek_token() {
            Some(token) => token,
            None => {
                return Err(ParseError::UnexpectedEnd);
            },
        };
        match token {
            Token::Print => self.print_stmt(),
            Token::Var => self.var_stmt(),
            _ => self.expr_stmt(),
        }
    }

    /// Parses `print`, an expression and a semicolon.
    pub fn print_stmt(&mut self) -> (result: Result<Stmt, ParseError>)
        requires
            old(self).wf(),
        ensures
            read_on(*old(self), *final(self), result is Ok),
            agrees(
                result,
                final(self).position,
                parsed_print(old(self).tokens@, old(self).position as int),
            ),
            at_any(*old(self)) ==> old(self).position < final(self).position,
        decreases old(self).remaining(), 10int,
    {
        let _token = match self.next_token() {
            Some(token) => token,
            None => {
                return Err(ParseError::UnexpectedEnd);
            },
        };
        let expr = self.expr(0)?;
        self.expect(Token::Semicolon)?;
        Ok(Stmt::Print { expr })
    }

    /// Parses an expression and a semicolon.
    pub fn expr_stmt(&mut self) -> (result: Result<Stmt, ParseError>)
        requires
            old(self).wf(),
        ensures
            read_on(*old(self), *final(self), result is Ok),
            agrees(
                result,
                final(self).position,
                parsed_expr_stmt(old(self).tokens@, old(self).position as int),
            ),
            at_any(*old(self)) ==> old(self).position < final(self).position,
        decreases old(self).remaining(), 10int,
    {
        let expr = self.expr(0)?;
        self.expect(Token::Semicolon)?;
        Ok(Stmt::Expr { expr })
    }

    /// Parses `var`, a name, an assignment, an expression and a semicolon.
    pub fn var_stmt(&mut self) -> (result: Result<Stmt, ParseError>)
        requires
            old(self).wf(),
        ensures
            read_on(*old(self), *final(self), result is Ok),
            agrees(
                result,
                final(self).position,
                parsed_var_stmt(old(self).tokens@, old(self).position as int),
            ),
            at_any(*old(self)) ==> old(self).position < final(self).position,
        decreases old(self).remaining(), 10int,
    {
        let _token = match self.next_token() {
            Some(token) => token,
            None => {
                return Err(ParseError::UnexpectedEnd);
            },
        };
        let name = match self.next_token() {
            Some(token) => token,
            None => {
                return Err(ParseError::UnexpectedEnd);
            },
        };
        if let Ok(identifier) = name.into_identifier() {
            self.expect(Token::Assign)?;
            let expr = self.expr(0)?;
            self.expect(Token::Semicolon)?;
            Ok(Stmt::Var { expr, identifier })
        } else {
            Err(ParseError::MalformedDeclaration)
        }
    }
}

} // verus!
