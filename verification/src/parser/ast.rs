//! The tree that the statement parser builds.
use vstd::prelude::*;
use crate::common::Number;
use crate::parser::token::Token;

verus! {

/// A literal.
#[derive(Debug, PartialEq)]
pub enum Atom {
    Text(String),
    Number(Number),
    Bool(bool),
    Null,
}

/// Kind of a branch of a conditional.
#[derive(Debug, Clone, Copy, PartialEq, Eq, Structural)]
pub enum BranchType {
    If,
    ElseIf,
    Else,
}

/// Statements between braces, and the expression that may end them and
/// gives the block its value.
#[derive(Debug, PartialEq)]
pub struct Block {
    pub body: Vec<Stmt>,
    pub final_expr: Option<Box<Expr>>,
}

/// One branch of a conditional.
#[derive(Debug, PartialEq)]
pub struct IfBranch {
    pub branch_type: BranchType,
    pub condition: Expr,
    pub body: Block,
}

/// An expression.
#[derive(Debug, PartialEq)]
pub enum Expr {
    Atom(Atom),
    Var { identifier: String, is_ref: bool },
    Grouping { expr: Box<Expr> },
    Unary { expr: Box<Expr>, operator: Token },
    Binary { left: Box<Expr>, operator: Token, right: Box<Expr> },
    Block { body: Block },
    If { branches: Vec<IfBranch> },
    While { condition: Box<Expr>, body: Block },
}

/// A statement.
#[derive(Debug, PartialEq)]
pub enum Stmt {
    Print { expr: Expr },
    Var { expr: Expr, identifier: String },
    Expr { expr: Expr },
}

/// A program: its statements in order.
#[derive(Debug, PartialEq)]
pub struct Ast(pub Vec<Stmt>);

/// One of two things.
#[derive(Debug, PartialEq)]
pub enum Either<L, R> {
    Left(L),
    Right(R),
}

/// Mathematical value of an [`Expr`]: the same tree with sequences in
/// place of vectors.
pub enum ExprView {
    Atom(Atom),
    Var { identifier: String, is_ref: bool },
    Grouping { expr: Box<ExprView> },
    Unary { expr: Box<ExprView>, operator: Token },
    Binary { left: Box<ExprView>, operator: Token, right: Box<ExprView> },
    Block { body: BlockView },
    If { branches: Seq<IfBranchView> },
    While { condition: Box<ExprView>, body: BlockView },
}

/// Mathematical value of a [`Block`].
pub struct BlockView {
    pub body: Seq<StmtView>,
    pub final_expr: Option<Box<ExprView>>,
}

/// Mathematical value of an [`IfBranch`].
pub struct IfBranchView {
    pub branch_type: BranchType,
    pub condition: ExprView,
    pub body: BlockView,
}

/// Mathematical value of a [`Stmt`].
pub enum StmtView {
    Print { expr: ExprView },
    Var { expr: ExprView, identifier: String },
    Expr { expr: ExprView },
}

/// The mathematical value of an expression.
pub open spec fn expr_view(expr: Expr) -> ExprView
    decreases expr, 0nat,
{
    match expr {
        Expr::Atom(atom) => ExprView::Atom(atom),
        Expr::Var { identifier, is_ref } => ExprView::Var { identifier, is_ref },
        Expr::Grouping { expr } => ExprView::Grouping { expr: Box::new(expr_view(*expr)) },
        Expr::Unary { expr, operator } => ExprView::Unary {
            expr: Box::new(expr_view(*expr)),
            operator,
        },
        Expr::Binary { left, operator, right } => ExprView::Binary {
            left: Box::new(expr_view(*left)),
            operator,
            right: Box::new(expr_view(*right)),
        },
        Expr::Block { body } => ExprView::Block { body: block_view(body) },
        Expr::If { branches } => ExprView::If {
            branches: branches_view(branches@, branches@.len()),
        },
        Expr::While { condition, body } => ExprView::While {
            condition: Box::new(expr_view(*condition)),
            body: block_view(body),
        },
    }
}

/// The mathematical value of a block.
pub open spec fn block_view(block: Block) -> BlockView
    decreases block, 0nat,
{
    BlockView {
        body: stmts_view(block.body@, block.body@.len()),
        final_expr: match block.final_expr {
            Some(expr) => Some(Box::new(expr_view(*expr))),
            None => None,
        },
    }
}

/// The mathematical value of a branch.
pub open spec fn branch_view(branch: IfBranch) -> IfBranchView
    decreases branch, 0nat,
{
    IfBranchView {
        branch_type: branch.branch_type,
        condition: expr_view(branch.condition),
        body: block_view(branch.body),
    }
}

/// The mathematical value of a statement.
pub open spec fn stmt_view(stmt: Stmt) -> StmtView
    decreases stmt, 0nat,
{
    match stmt {
        Stmt::Print { expr } => StmtView::Print { expr: expr_view(expr) },
        Stmt::Var { expr, identifier } => StmtView::Var { expr: expr_view(expr), identifier },
        Stmt::Expr { expr } => StmtView::Expr { expr: expr_view(expr) },
    }
}

/// The mathematical values of the first `count` statements.
pub open spec fn stmts_view(stmts: Seq<Stmt>, count: nat) -> Seq<StmtView>
    decreases stmts, count,
{
    if count == 0 || count > stmts.len() {
        Seq::empty()
    } else {
        stmts_view(stmts, (count - 1) as nat).push(stmt_view(stmts[count - 1]))
    }
}

/// The mathematical values of the first `count` branches.
pub open spec fn branches_view(branches: Seq<IfBranch>, count: nat) -> Seq<IfBranchView>
    decreases branches, count,
{
    if count == 0 || count > branches.len() {
        Seq::empty()
    } else {
        branches_view(branches, (count - 1) as nat).push(branch_view(branches[count - 1]))
    }
}

/// The values of the first statements do not depend on the statements
/// behind them.
pub proof fn lemma_stmts_view_push(stmts: Seq<Stmt>, stmt: Stmt, count: nat)
    requires
        count <= stmts.len(),
    ensures
        stmts_view(stmts.push(stmt), count) == stmts_view(stmts, count),
        count == stmts.len() ==> stmts_view(stmts.push(stmt), count + 1) == stmts_view(
            stmts,
            count,
        ).push(stmt_view(stmt)),
    decreases count,
{
    if count > 0 {
        lemma_stmts_view_push(stmts, stmt, (count - 1) as nat);
    }
}

/// The values of the first branches do not depend on the branches behind
/// them.
pub proof fn lemma_branches_view_push(branches: Seq<IfBranch>, branch: IfBranch, count: nat)
    requires
        count <= branches.len(),
    ensures
        branches_view(branches.push(branch), count) == branches_view(branches, count),
        count == branches.len() ==> branches_view(branches.push(branch), count + 1)
            == branches_view(branches, count).push(branch_view(branch)),
    decreases count,
{
    if count > 0 {
        lemma_branches_view_push(branches, branch, (count - 1) as nat);
    }
}

impl View for Expr {
    type V = ExprView;

    open spec fn view(&self) -> ExprView {
        expr_view(*self)
    }
}

impl View for Block {
    type V = BlockView;

    open spec fn view(&self) -> BlockView {
        block_view(*self)
    }
}

impl View for IfBranch {
    type V = IfBranchView;

    open spec fn view(&self) -> IfBranchView {
        branch_view(*self)
    }
}

impl View for Stmt {
    type V = StmtView;

    open spec fn view(&self) -> StmtView {
        stmt_view(*self)
    }
}

impl View for Ast {
    type V = Seq<StmtView>;

    open spec fn view(&self) -> Seq<StmtView> {
        stmts_view(self.0@, self.0@.len())
    }
}

} // verus!
