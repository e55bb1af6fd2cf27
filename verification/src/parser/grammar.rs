//! What the statement parser makes of a list of tokens: for each rule of
//! the grammar the tree that it reads from a position on, or the error in
//! its way, and the position behind what was read.
use vstd::prelude::*;
use crate::parser::ast::{
    Atom, BlockView, BranchType, Either, ExprView, IfBranchView, StmtView,
};
use crate::parser::token::{
    binding_power, branch_token, starts_statement, Affix, Token, TokenView,
};
use crate::parser::ParseError;

verus! {

/// The token at `pos`, if there is one.
pub open spec fn token_at(tokens: Seq<Token>, pos: int) -> Option<Token> {
    if 0 <= pos < tokens.len() {
        Some(tokens[pos])
    } else {
        None
    }
}

/// The token at `pos` is `token`.
pub open spec fn next_is(tokens: Seq<Token>, pos: int, token: TokenView) -> bool {
    0 <= pos < tokens.len() && tokens[pos]@ == token
}

/// The binding power of the token at `pos`; zero behind the tokens.
pub open spec fn next_bp(tokens: Seq<Token>, pos: int, affix: Affix) -> usize {
    if 0 <= pos < tokens.len() {
        binding_power(tokens[pos]@, affix)
    } else {
        0
    }
}

/// Reading `expected` at `pos`.
pub open spec fn expected(tokens: Seq<Token>, pos: int, expected: Token) -> (
    Result<(), ParseError>,
    int,
) {
    if next_is(tokens, pos, expected@) {
        (Ok(()), pos + 1)
    } else {
        (Err(ParseError::Expected(expected)), pos)
    }
}

/// A literal at `pos`.
pub open spec fn parsed_atom(tokens: Seq<Token>, pos: int) -> (Result<ExprView, ParseError>, int) {
    match token_at(tokens, pos) {
        None => (Err(ParseError::UnexpectedEnd), pos),
        Some(token) => (
            match token {
                Token::Text(text) => Ok(ExprView::Atom(Atom::Text(text))),
                Token::Number(num) => Ok(ExprView::Atom(Atom::Number(num))),
                Token::False => Ok(ExprView::Atom(Atom::Bool(false))),
                Token::True => Ok(ExprView::Atom(Atom::Bool(true))),
                Token::Null => Ok(ExprView::Atom(Atom::Null)),
                other => Err(ParseError::UnsupportedToken(other)),
            },
            pos + 1,
        ),
    }
}

/// A name at `pos`. It is a reference if an assignment follows it.
pub open spec fn parsed_var(tokens: Seq<Token>, pos: int) -> (Result<ExprView, ParseError>, int) {
    match token_at(tokens, pos) {
        None => (Err(ParseError::UnexpectedEnd), pos),
        Some(Token::Identifier(identifier)) => (
            Ok(ExprView::Var { identifier, is_ref: next_is(tokens, pos + 1, TokenView::Assign) }),
            pos + 1,
        ),
        Some(_) => (Err(ParseError::InvalidIdentifier), pos + 1),
    }
}

/// An expression from `pos` on whose operators bind more strongly than
/// `rbp`: what it starts with, grown by the operators that follow.
pub open spec fn parsed_expr(tokens: Seq<Token>, pos: int, rbp: usize) -> (
    Result<ExprView, ParseError>,
    int,
)
    decreases tokens.len() - pos, 9nat,
{
    match parsed_prefix(tokens, pos) {
        (Err(error), after) => (Err(error), after),
        (Ok(left), after) => if pos < after <= tokens.len() {
            parsed_infix(tokens, after, left, rbp)
        } else {
            (Err(ParseError::UnexpectedEnd), after)
        },
    }
}

/// The expression that `left` grows into by the operators from `pos` on
/// that bind more strongly than `rbp`.
pub open spec fn parsed_infix(tokens: Seq<Token>, pos: int, left: ExprView, rbp: usize) -> (
    Result<ExprView, ParseError>,
    int,
)
    decreases tokens.len() - pos, 9nat,
{
    if next_bp(tokens, pos, Affix::Infix) > rbp {
        match parsed_binary(tokens, pos, left) {
            (Err(error), after) => (Err(error), after),
            (Ok(grown), after) => if pos < after <= tokens.len() {
                parsed_infix(tokens, after, grown, rbp)
            } else {
                (Err(ParseError::UnexpectedEnd), after)
            },
        }
    } else {
        (Ok(left), pos)
    }
}

/// The operator at `pos` with `left` to its left and the expression behind
/// it to its right.
pub open spec fn parsed_binary(tokens: Seq<Token>, pos: int, left: ExprView) -> (
    Result<ExprView, ParseError>,
    int,
)
    decreases tokens.len() - pos, 8nat,
{
    match token_at(tokens, pos) {
        None => (Err(ParseError::UnexpectedEnd), pos),
        Some(operator) => match parsed_expr(
            tokens,
            pos + 1,
            binding_power(operator@, Affix::Infix),
        ) {
            (Err(error), after) => (Err(error), after),
            (Ok(right), after) => (
                Ok(ExprView::Binary { left: Box::new(left), operator, right: Box::new(right) }),
                after,
            ),
        },
    }
}

/// What an expression starts with at `pos`.
pub open spec fn parsed_prefix(tokens: Seq<Token>, pos: int) -> (
    Result<ExprView, ParseError>,
    int,
)
    decreases tokens.len() - pos, 8nat,
{
    match token_at(tokens, pos) {
        None => (Err(ParseError::UnexpectedEnd), pos),
        Some(token) => match token {
            Token::Minus => parsed_unary(tokens, pos),
            Token::Bang => parsed_unary(tokens, pos),
            Token::Identifier(_) => parsed_var(tokens, pos),
            Token::OpenParenthesis => parsed_grouping(tokens, pos),
            Token::OpenBrace => parsed_block_expr(tokens, pos),
            Token::If => parsed_if(tokens, pos),
            Token::While => parsed_while(tokens, pos),
            _ => parsed_atom(tokens, pos),
        },
    }
}

/// The operator at `pos` before the expression behind it.
pub open spec fn parsed_unary(tokens: Seq<Token>, pos: int) -> (Result<ExprView, ParseError>, int)
    decreases tokens.len() - pos, 7nat,
{
    match token_at(tokens, pos) {
        None => (Err(ParseError::UnexpectedEnd), pos),
        Some(operator) => match parsed_expr(
            tokens,
            pos + 1,
            binding_power(operator@, Affix::Prefix),
        ) {
            (Err(error), after) => (Err(error), after),
            (Ok(expr), after) => (Ok(ExprView::Unary { expr: Box::new(expr), operator }), after),
        },
    }
}

/// An expression between the parenthesis at `pos` and the one that closes
/// it.
pub open spec fn parsed_grouping(tokens: Seq<Token>, pos: int) -> (
    Result<ExprView, ParseError>,
    int,
)
    decreases tokens.len() - pos, 7nat,
{
    match token_at(tokens, pos) {
        None => (Err(ParseError::UnexpectedEnd), pos),
        Some(open) => match parsed_expr(tokens, pos + 1, binding_power(open@, Affix::Prefix)) {
            (Err(error), after) => (Err(error), after),
            (Ok(expr), after) => match expected(tokens, after, Token::CloseParenthesis) {
                (Err(error), end) => (Err(error), end),
                (Ok(_), end) => (Ok(ExprView::Grouping { expr: Box::new(expr) }), end),
            },
        },
    }
}

/// A block as an expression.
pub open spec fn parsed_block_expr(tokens: Seq<Token>, pos: int) -> (
    Result<ExprView, ParseError>,
    int,
)
    decreases tokens.len() - pos, 7nat,
{
    match parsed_block(tokens, pos) {
        (Err(error), after) => (Err(error), after),
        (Ok(body), after) => (Ok(ExprView::Block { body }), after),
    }
}

/// A block: a brace, statements, at their end maybe an expression without
/// a semicolon, and the closing brace. An expression without a semicolon
/// that is not the last thing in the block makes the block an error, which
/// is met at the closing brace.
pub open spec fn parsed_block(tokens: Seq<Token>, pos: int) -> (Result<BlockView, ParseError>, int)
    decreases tokens.len() - pos, 5nat,
{
    match expected(tokens, pos, Token::OpenBrace) {
        (Err(error), after) => (Err(error), after),
        (Ok(_), after) => match parsed_items(tokens, after, Seq::empty(), None, false) {
            (Err(error), end) => (Err(error), end),
            (Ok((body, final_expr, misplaced)), end) => if misplaced {
                (Err(ParseError::StandaloneExpression), end)
            } else {
                match expected(tokens, end, Token::CloseBrace) {
                    (Err(error), last) => (Err(error), last),
                    (Ok(_), last) => (Ok(BlockView { body, final_expr }), last),
                }
            },
        },
    }
}

/// What stands in a block from `pos` up to the closing brace, after
/// `body`, and `last` if that is an expression without a semicolon:
/// the statements, the expression without a semicolon that is the last of
/// them, and whether such an expression stood anywhere before the end.
pub open spec fn parsed_items(
    tokens: Seq<Token>,
    pos: int,
    body: Seq<StmtView>,
    last: Option<Box<ExprView>>,
    misplaced: bool,
) -> (Result<(Seq<StmtView>, Option<Box<ExprView>>, bool), ParseError>, int)
    decreases tokens.len() - pos, 14nat,
{
    if next_is(tokens, pos, TokenView::CloseBrace) {
        (Ok((body, last, misplaced)), pos)
    } else {
        match parsed_expr_or_stmt(tokens, pos) {
            (Err(error), after) => (Err(error), after),
            (Ok(item), after) => if pos < after <= tokens.len() {
                match item {
                    Either::Left(stmt) => parsed_items(
                        tokens,
                        after,
                        body.push(stmt),
                        None,
                        misplaced || last is Some,
                    ),
                    Either::Right(expr) => parsed_items(
                        tokens,
                        after,
                        body,
                        Some(Box::new(expr)),
                        misplaced || last is Some,
                    ),
                }
            } else {
                (Err(ParseError::UnexpectedEnd), after)
            },
        }
    }
}

/// What may stand in a block at `pos`: a statement, or an expression,
/// which is a statement if a semicolon follows it.
pub open spec fn parsed_expr_or_stmt(tokens: Seq<Token>, pos: int) -> (
    Result<Either<StmtView, ExprView>, ParseError>,
    int,
)
    decreases tokens.len() - pos, 13nat,
{
    match token_at(tokens, pos) {
        None => (Err(ParseError::UnexpectedEnd), pos),
        Some(token) => if starts_statement(token@) {
            match parsed_stmt(tokens, pos) {
                (Err(error), after) => (Err(error), after),
                (Ok(stmt), after) => (Ok(Either::Left(stmt)), after),
            }
        } else {
            match parsed_expr(tokens, pos, 0) {
                (Err(error), after) => (Err(error), after),
                (Ok(expr), after) => if next_is(tokens, after, TokenView::Semicolon) {
                    (Ok(Either::Left(StmtView::Expr { expr })), after + 1)
                } else {
                    (Ok(Either::Right(expr)), after)
                },
            }
        },
    }
}

/// One branch of a conditional at `pos`: its keyword, its condition unless
/// it is an `else`, whose condition is true, and its block.
pub open spec fn parsed_if_branch(tokens: Seq<Token>, pos: int, branch_type: BranchType) -> (
    Result<IfBranchView, ParseError>,
    int,
)
    decreases tokens.len() - pos, 6nat,
{
    if !next_is(tokens, pos, branch_token(branch_type)) {
        (
            Err(
                ParseError::Expected(
                    match branch_type {
                        BranchType::If => Token::If,
                        BranchType::ElseIf => Token::ElseIf,
                        BranchType::Else => Token::Else,
                    },
                ),
            ),
            pos,
        )
    } else {
        let (condition, after) = match branch_type {
            BranchType::Else => (Ok(ExprView::Atom(Atom::Bool(true))), pos + 1),
            _ => parsed_expr(tokens, pos + 1, 0),
        };
        match condition {
            Err(error) => (Err(error), after),
            Ok(condition) => if pos < after <= tokens.len() {
                match parsed_block(tokens, after) {
                    (Err(error), end) => (Err(error), end),
                    (Ok(body), end) => (Ok(IfBranchView { branch_type, condition, body }), end),
                }
            } else {
                (Err(ParseError::UnexpectedEnd), after)
            },
        }
    }
}

/// A conditional at `pos`: an `if` branch, the `else if` branches behind
/// it, and an `else` branch if one follows.
pub open spec fn parsed_if(tokens: Seq<Token>, pos: int) -> (Result<ExprView, ParseError>, int)
    decreases tokens.len() - pos, 7nat,
{
    match parsed_if_branch(tokens, pos, BranchType::If) {
        (Err(error), after) => (Err(error), after),
        (Ok(first), after) => if pos < after <= tokens.len() {
            parsed_branches(tokens, after, seq![first])
        } else {
            (Err(ParseError::UnexpectedEnd), after)
        },
    }
}

/// The conditional that `branches` grow into by the `else if` branches
/// from `pos` on and the `else` branch behind them.
pub open spec fn parsed_branches(tokens: Seq<Token>, pos: int, branches: Seq<IfBranchView>) -> (
    Result<ExprView, ParseError>,
    int,
)
    decreases tokens.len() - pos, 15nat,
{
    if next_is(tokens, pos, TokenView::ElseIf) {
        match parsed_if_branch(tokens, pos, BranchType::ElseIf) {
            (Err(error), after) => (Err(error), after),
            (Ok(branch), after) => if pos < after <= tokens.len() {
                parsed_branches(tokens, after, branches.push(branch))
            } else {
                (Err(ParseError::UnexpectedEnd), after)
            },
        }
    } else if next_is(tokens, pos, TokenView::Else) {
        match parsed_if_branch(tokens, pos, BranchType::Else) {
            (Err(error), after) => (Err(error), after),
            (Ok(branch), after) => (Ok(ExprView::If { branches: branches.push(branch) }), after),
        }
    } else {
        (Ok(ExprView::If { branches }), pos)
    }
}

/// A loop at `pos`: `while`, its condition and its block.
pub open spec fn parsed_while(tokens: Seq<Token>, pos: int) -> (Result<ExprView, ParseError>, int)
    decreases tokens.len() - pos, 7nat,
{
    match expected(tokens, pos, Token::While) {
        (Err(error), after) => (Err(error), after),
        (Ok(_), after) => match parsed_expr(tokens, after, 0) {
            (Err(error), end) => (Err(error), end),
            (Ok(condition), end) => if pos < end <= tokens.len() {
                match parsed_block(tokens, end) {
                    (Err(error), last) => (Err(error), last),
                    (Ok(body), last) => (
                        Ok(ExprView::While { condition: Box::new(condition), body }),
                        last,
                    ),
                }
            } else {
                (Err(ParseError::UnexpectedEnd), end)
            },
        },
    }
}

/// A statement at `pos`.
pub open spec fn parsed_stmt(tokens: Seq<Token>, pos: int) -> (Result<StmtView, ParseError>, int)
    decreases tokens.len() - pos, 12nat,
{
    match token_at(tokens, pos) {
        None => (Err(ParseError::UnexpectedEnd), pos),
        Some(token) => match token {
            Token::Print => parsed_print(tokens, pos),
            Token::Var => parsed_var_stmt(tokens, pos),
            _ => parsed_expr_stmt(tokens, pos),
        },
    }
}

/// An expression and a semicolon, from `pos` on.
pub open spec fn parsed_closed(tokens: Seq<Token>, pos: int) -> (
    Result<ExprView, ParseError>,
    int,
)
    decreases tokens.len() - pos, 10nat,
{
    match parsed_expr(tokens, pos, 0) {
        (Err(error), after) => (Err(error), after),
        (Ok(expr), after) => match expected(tokens, after, Token::Semicolon) {
            (Err(error), end) => (Err(error), end),
            (Ok(_), end) => (Ok(expr), end),
        },
    }
}

/// `print`, an expression and a semicolon.
pub open spec fn parsed_print(tokens: Seq<Token>, pos: int) -> (Result<StmtView, ParseError>, int)
    decreases tokens.len() - pos, 11nat,
{
    match token_at(tokens, pos) {
        None => (Err(ParseError::UnexpectedEnd), pos),
        Some(_) => match parsed_closed(tokens, pos + 1) {
            (Err(error), after) => (Err(error), after),
            (Ok(expr), after) => (Ok(StmtView::Print { expr }), after),
        },
    }
}

/// An expression and a semicolon, as a statement.
pub open spec fn parsed_expr_stmt(tokens: Seq<Token>, pos: int) -> (
    Result<StmtView, ParseError>,
    int,
)
    decreases tokens.len() - pos, 11nat,
{
    match parsed_closed(tokens, pos) {
        (Err(error), after) => (Err(error), after),
        (Ok(expr), after) => (Ok(StmtView::Expr { expr }), after),
    }
}

/// `var`, a name, an assignment, an expression and a semicolon.
pub open spec fn parsed_var_stmt(tokens: Seq<Token>, pos: int) -> (
    Result<StmtView, ParseError>,
    int,
)
    decreases tokens.len() - pos, 11nat,
{
    match token_at(tokens, pos) {
        None => (Err(ParseError::UnexpectedEnd), pos),
        Some(_) => match token_at(tokens, pos + 1) {
            None => (Err(ParseError::UnexpectedEnd), pos + 1),
            Some(Token::Identifier(identifier)) => match expected(tokens, pos + 2, Token::Assign) {
                (Err(error), after) => (Err(error), after),
                (Ok(_), after) => match parsed_closed(tokens, after) {
                    (Err(error), end) => (Err(error), end),
                    (Ok(expr), end) => (Ok(StmtView::Var { expr, identifier }), end),
                },
            },
            Some(_) => (Err(ParseError::MalformedDeclaration), pos + 2),
        },
    }
}

/// Where the next statement starts from `pos` on: at the first token that
/// starts one, or behind the tokens.
pub open spec fn next_statement(tokens: Seq<Token>, pos: int) -> int
    decreases tokens.len() - pos,
{
    if 0 <= pos < tokens.len() && !starts_statement(tokens[pos]@) {
        next_statement(tokens, pos + 1)
    } else {
        pos
    }
}

/// The statements of a program from `pos` on, after `stmts`, and the
/// errors met, after `errors`. After an error the tokens up to the next
/// statement are skipped.
pub open spec fn parsed_program(
    tokens: Seq<Token>,
    pos: int,
    stmts: Seq<StmtView>,
    errors: Seq<ParseError>,
) -> (Seq<StmtView>, Seq<ParseError>)
    decreases tokens.len() - pos,
{
    if pos < 0 || pos >= tokens.len() {
        (stmts, errors)
    } else {
        match parsed_stmt(tokens, pos) {
            (Ok(stmt), after) => if pos < after <= tokens.len() {
                parsed_program(tokens, after, stmts.push(stmt), errors)
            } else {
                (stmts, errors)
            },
            (Err(error), after) => {
                let resumed = next_statement(tokens, after);
                if pos < resumed <= tokens.len() {
                    parsed_program(tokens, resumed, stmts, errors.push(error))
                } else {
                    (stmts, errors.push(error))
                }
            },
        }
    }
}

} // verus!
