//! The tree that source text spells.
use vstd::prelude::*;
use vstd::string::StringExecFns;
use crate::common::Number;
use crate::syntax::token::{Operator, Span};

verus! {

/// A value with the place in the text where it was written.
#[derive(Debug, PartialEq)]
pub struct Spanned<T> {
    pub val: T,
    pub span: Span,
}

/// What stands alone: a literal or a name.
#[derive(Debug, PartialEq)]
pub enum AtomicValue {
    Number(Number),
    Boolean(bool),
    Text(String),
    Identifier(String),
    Null,
}

/// An operator between two expressions.
#[derive(Debug, Clone, Copy, PartialEq, Eq, Structural)]
pub enum BinaryOperator {
    Addition,
    Subtraction,
    Multiplication,
    Division,
    Modulo,
    Power,
    Equals,
    BangEquals,
    LesserThan,
    LesserEquals,
    GreaterThan,
    GreaterEquals,
    Or,
    And,
}

/// An operator before an expression.
#[derive(Debug, Clone, Copy, PartialEq, Eq, Structural)]
pub enum UnaryOperator {
    Negate,
    Not,
}

/// The operator that a written operator is between two expressions; none
/// if it cannot stand there.
pub open spec fn binary_operator(operator: Operator) -> Option<BinaryOperator> {
    match operator {
        Operator::Plus => Some(BinaryOperator::Addition),
        Operator::Minus => Some(BinaryOperator::Subtraction),
        Operator::Multiply => Some(BinaryOperator::Multiplication),
        Operator::Divide => Some(BinaryOperator::Division),
        Operator::Modulo => Some(BinaryOperator::Modulo),
        Operator::Exponent => Some(BinaryOperator::Power),
        Operator::Compare => Some(BinaryOperator::Equals),
        Operator::BangCompare => Some(BinaryOperator::BangEquals),
        Operator::Less => Some(BinaryOperator::LesserThan),
        Operator::LessEqual => Some(BinaryOperator::LesserEquals),
        Operator::Greater => Some(BinaryOperator::GreaterThan),
        Operator::GreaterEqual => Some(BinaryOperator::GreaterEquals),
        Operator::Or => Some(BinaryOperator::Or),
        Operator::And => Some(BinaryOperator::And),
        _ => None,
    }
}

/// The operator that a written operator is before an expression; none if it
/// cannot stand there.
pub open spec fn unary_operator(operator: Operator) -> Option<UnaryOperator> {
    match operator {
        Operator::Minus => Some(UnaryOperator::Negate),
        Operator::Bang => Some(UnaryOperator::Not),
        _ => None,
    }
}

impl BinaryOperator {
    /// The operator that a written operator is between two expressions.
    pub fn try_from_operator(operator: Operator) -> (result: Option<Self>)
        ensures
            result == binary_operator(operator),
    {
        match operator {
            Operator::Plus => Some(BinaryOperator::Addition),
            Operator::Minus => Some(BinaryOperator::Subtraction),
            Operator::Multiply => Some(BinaryOperator::Multiplication),
            Operator::Divide => Some(BinaryOperator::Division),
            Operator::Modulo => Some(BinaryOperator::Modulo),
            Operator::Exponent => Some(BinaryOperator::Power),
            Operator::Compare => Some(BinaryOperator::Equals),
            Operator::BangCompare => Some(BinaryOperator::BangEquals),
            Operator::Less => Some(BinaryOperator::LesserThan),
            Operator::LessEqual => Some(BinaryOperator::LesserEquals),
            Operator::Greater => Some(BinaryOperator::GreaterThan),
            Operator::GreaterEqual => Some(BinaryOperator::GreaterEquals),
            Operator::Or => Some(BinaryOperator::Or),
            Operator::And => Some(BinaryOperator::And),
            _ => None,
        }
    }

    /// How the operator is written.
    pub open spec fn text(self) -> Seq<char> {
        match self {
            BinaryOperator::Addition => "+"@,
            BinaryOperator::Subtraction => "-"@,
            BinaryOperator::Multiplication => "*"@,
            BinaryOperator::Division => "/"@,
            BinaryOperator::Modulo => "%"@,
            BinaryOperator::Power => "**"@,
            BinaryOperator::Equals => "=="@,
            BinaryOperator::BangEquals => "!="@,
            BinaryOperator::LesserThan => "<"@,
            BinaryOperator::LesserEquals => "<="@,
            BinaryOperator::GreaterThan => ">"@,
            BinaryOperator::GreaterEquals => ">="@,
            BinaryOperator::Or => "or"@,
            BinaryOperator::And => "and"@,
        }
    }

    /// How the operator is written.
    pub fn as_str(&self) -> (text: &'static str)
        ensures
            text@ == self.text(),
    {
        match self {
            BinaryOperator::Addition => "+",
            BinaryOperator::Subtraction => "-",
            BinaryOperator::Multiplication => "*",
            BinaryOperator::Division => "/",
            BinaryOperator::Modulo => "%",
            BinaryOperator::Power => "**",
            BinaryOperator::Equals => "==",
            BinaryOperator::BangEquals => "!=",
            BinaryOperator::LesserThan => "<",
            BinaryOperator::LesserEquals => "<=",
            BinaryOperator::GreaterThan => ">",
            BinaryOperator::GreaterEquals => ">=",
            BinaryOperator::Or => "or",
            BinaryOperator::And => "and",
        }
    }
}

impl UnaryOperator {
    /// The operator that a written operator is before an expression.
    pub fn try_from_operator(operator: Operator) -> (result: Option<Self>)
        ensures
            result == unary_operator(operator),
    {
        match operator {
            Operator::Minus => Some(UnaryOperator::Negate),
            Operator::Bang => Some(UnaryOperator::Not),
            _ => None,
        }
    }

    /// How the operator is written.
    pub open spec fn text(self) -> Seq<char> {
        match self {
            UnaryOperator::Negate => "-"@,
            UnaryOperator::Not => "!"@,
        }
    }

    /// How the operator is written.
    pub fn as_str(&self) -> (text: &'static str)
        ensures
            text@ == self.text(),
    {
        match self {
            UnaryOperator::Negate => "-",
            UnaryOperator::Not => "!",
        }
    }
}

/// An expression.
#[derive(Debug, PartialEq)]
#[allow(inconsistent_fields)]
pub enum Expr {
    Atom(Spanned<AtomicValue>),
    Binary { lhs: Box<Expr>, op: Spanned<BinaryOperator>, rhs: Box<Expr> },
    Unary { op: Spanned<UnaryOperator>, rhs: Box<Expr> },
    If { condition: Box<Expr>, body: Box<Expr>, else_expr: Option<Box<Expr>> },
    While { condition: Box<Expr>, body: Box<Expr> },
    Block { stmts: Vec<Stmt>, return_expr: Option<Box<Expr>> },
    Assignment { target: String, value: Box<Expr> },
    Closure { params: Vec<String>, body: Box<Expr> },
    Call { callee: Box<Expr>, args: Vec<Expr> },
    Return { value: Option<Box<Expr>> },
}

/// A statement.
#[derive(Debug, PartialEq)]
pub enum Stmt {
    Expression { expr: Expr },
    VariableDeclaration { name: String, expr: Expr },
    FunctionDeclaration { name: String, params: Vec<String>, body: Expr },
}

/// A program: its statements in order.
pub type Ast = Vec<Stmt>;

/// The character that stands for a digit.
pub open spec fn digit_char(digit: int) -> char {
    if digit == 0 {
        '0'
    } else if digit == 1 {
        '1'
    } else if digit == 2 {
        '2'
    } else if digit == 3 {
        '3'
    } else if digit == 4 {
        '4'
    } else if digit == 5 {
        '5'
    } else if digit == 6 {
        '6'
    } else if digit == 7 {
        '7'
    } else if digit == 8 {
        '8'
    } else {
        '9'
    }
}

/// A natural number in decimal digits.
pub open spec fn decimal(n: nat) -> Seq<char>
    decreases n,
{
    if n < 10 {
        seq![digit_char(n as int)]
    } else {
        decimal(n / 10).push(digit_char((n % 10) as int))
    }
}

/// An integer in decimal digits, with a minus before it if it is
/// negative.
pub open spec fn integer_text(n: int) -> Seq<char> {
    if n < 0 {
        seq!['-'] + decimal((-n) as nat)
    } else {
        decimal(n as nat)
    }
}

/// A natural number in decimal digits.
pub fn decimal_text(n: u64) -> (text: String)
    ensures
        text@ == decimal(n as nat),
    decreases n,
{
    let mut text = if n < 10 {
        String::new()
    } else {
        decimal_text(n / 10)
    };
    let digit = n % 10;
    proof {
        reveal_strlit("0");
        reveal_strlit("1");
        reveal_strlit("2");
        reveal_strlit("3");
        reveal_strlit("4");
        reveal_strlit("5");
        reveal_strlit("6");
        reveal_strlit("7");
        reveal_strlit("8");
        reveal_strlit("9");
    }
    let ghost before = text@;
    text.append(
        if digit == 0 {
            "0"
        } else if digit == 1 {
            "1"
        } else if digit == 2 {
            "2"
        } else if digit == 3 {
            "3"
        } else if digit == 4 {
            "4"
        } else if digit == 5 {
            "5"
        } else if digit == 6 {
            "6"
        } else if digit == 7 {
            "7"
        } else if digit == 8 {
            "8"
        } else {
            "9"
        },
    );
    proof {
        assert(text@ =~= before.push(digit_char(digit as int)));
        if n < 10 {
            assert(before =~= Seq::<char>::empty());
            assert(text@ =~= seq![digit_char(n as int)]);
        }
    }
    text
}

/// A number of the language in decimal digits.
pub fn number_text(n: Number) -> (text: String)
    ensures
        text@ == integer_text(n as int),
{
    if n < 0 {
        let magnitude: u64 = if n == i64::MIN {
            0x8000_0000_0000_0000
        } else {
            (-n) as u64
        };
        let digits = decimal_text(magnitude);
        let mut text = String::new();
        proof {
            reveal_strlit("-");
        }
        text.append("-");
        text.append(digits.as_str());
        proof {
            assert(text@ =~= seq!['-'] + decimal((-n) as nat));
        }
        text
    } else {
        decimal_text(n as u64)
    }
}

impl AtomicValue {
    /// How the value is written.
    pub open spec fn text(self) -> Seq<char> {
        match self {
            AtomicValue::Number(n) => integer_text(n as int),
            AtomicValue::Boolean(b) => if b {
                "true"@
            } else {
                "false"@
            },
            AtomicValue::Text(t) => t@,
            AtomicValue::Identifier(name) => name@,
            AtomicValue::Null => "null"@,
        }
    }

    /// How the value is written.
    pub fn to_string(&self) -> (text: String)
        ensures
            text@ == self.text(),
    {
        match self {
            AtomicValue::Number(n) => number_text(*n),
            AtomicValue::Boolean(b) => if *b {
                String::from_str("true")
            } else {
                String::from_str("false")
            },
            AtomicValue::Text(t) => t.clone(),
            AtomicValue::Identifier(name) => name.clone(),
            AtomicValue::Null => String::from_str("null"),
        }
    }
}

/// An expression written with its operators in front and every operation
/// between parentheses.
pub open spec fn expr_text(expr: Expr) -> Seq<char>
    decreases expr, 0nat,
{
    match expr {
        Expr::Atom(value) => value.val.text(),
        Expr::Binary { lhs, op, rhs } => "("@ + op.val.text() + " "@ + expr_text(*lhs) + " "@
            + expr_text(*rhs) + ")"@,
        Expr::Unary { op, rhs } => "("@ + op.val.text() + " "@ + expr_text(*rhs) + ")"@,
        Expr::If { condition, body, else_expr } => "(if "@ + expr_text(*condition) + " "@
            + expr_text(*body) + match else_expr {
            Some(other) => " "@ + expr_text(*other),
            None => Seq::empty(),
        } + ")"@,
        Expr::While { condition, body } => "(while "@ + expr_text(*condition) + " "@ + expr_text(
            *body,
        ) + ")"@,
        Expr::Block { stmts, return_expr } => "(block"@ + stmts_text(stmts@, stmts@.len())
            + match return_expr {
            Some(last) => " "@ + expr_text(*last),
            None => Seq::empty(),
        } + ")"@,
        Expr::Assignment { target, value } => "(= "@ + target@ + " "@ + expr_text(*value) + ")"@,
        Expr::Closure { params, body } => "(fn"@ + names_text(params@, params@.len()) + " -> "@
            + expr_text(*body) + ")"@,
        Expr::Call { callee, args } => "(call "@ + expr_text(*callee) + exprs_text(
            args@,
            args@.len(),
        ) + ")"@,
        Expr::Return { value } => "(return"@ + match value {
            Some(value) => " "@ + expr_text(*value),
            None => Seq::empty(),
        } + ")"@,
    }
}

/// The first `count` names, each written after a blank.
pub open spec fn names_text(names: Seq<String>, count: nat) -> Seq<char>
    decreases count,
{
    if count == 0 || count > names.len() {
        Seq::empty()
    } else {
        names_text(names, (count - 1) as nat) + " "@ + names[count - 1]@
    }
}

/// The first `count` expressions, each written after a blank.
pub open spec fn exprs_text(exprs: Seq<Expr>, count: nat) -> Seq<char>
    decreases exprs, count,
{
    if count == 0 || count > exprs.len() {
        Seq::empty()
    } else {
        exprs_text(exprs, (count - 1) as nat) + " "@ + expr_text(exprs[count - 1])
    }
}

/// A statement written like an expression.
pub open spec fn stmt_text(stmt: Stmt) -> Seq<char>
    decreases stmt, 0nat,
{
    match stmt {
        Stmt::Expression { expr } => "(expr "@ + expr_text(expr) + ")"@,
        Stmt::VariableDeclaration { name, expr } => "(var "@ + name@ + " "@ + expr_text(expr)
            + ")"@,
        Stmt::FunctionDeclaration { name, params, body } => "(def "@ + name@ + names_text(
            params@,
            params@.len(),
        ) + " -> "@ + expr_text(body) + ")"@,
    }
}

/// The first `count` statements, each written after a blank.
pub open spec fn stmts_text(stmts: Seq<Stmt>, count: nat) -> Seq<char>
    decreases stmts, count,
{
    if count == 0 || count > stmts.len() {
        Seq::empty()
    } else {
        stmts_text(stmts, (count - 1) as nat) + " "@ + stmt_text(stmts[count - 1])
    }
}

/// Names, each written after a blank.
pub fn names_to_string(names: &Vec<String>) -> (text: String)
    ensures
        text@ == names_text(names@, names@.len()),
{
    let mut text = String::new();
    let mut i: usize = 0;
    while i < names.len()
        invariant
            i <= names@.len(),
            text@ == names_text(names@, i as nat),
        decreases names@.len() - i,
    {
        text.append(" ");
        text.append(names[i].as_str());
        i += 1;
    }
    text
}

impl Expr {
    /// The expression written with its operators in front and every
    /// operation between parentheses.
    #[verifier::loop_isolation(false)]
    pub fn to_string(&self) -> (text: String)
        ensures
            text@ == expr_text(*self),
        decreases *self,
    {
        match self {
            Expr::Atom(value) => value.val.to_string(),
            Expr::Binary { lhs, op, rhs } => {
                let mut text = String::from_str("(");
                text.append(op.val.as_str());
                text.append(" ");
                text.append(lhs.to_string().as_str());
                text.append(" ");
                text.append(rhs.to_string().as_str());
                text.append(")");
                text
            },
            Expr::Unary { op, rhs } => {
                let mut text = String::from_str("(");
                text.append(op.val.as_str());
                text.append(" ");
                text.append(rhs.to_string().as_str());
                text.append(")");
                text
            },
            Expr::If { condition, body, else_expr } => {
                let mut text = String::from_str("(if ");
                text.append(condition.to_string().as_str());
                text.append(" ");
                text.append(body.to_string().as_str());
                match else_expr {
                    Some(other) => {
                        text.append(" ");
                        text.append(other.to_string().as_str());
                    },
                    None => {
                        assert(text@ + Seq::<char>::empty() =~= text@);
                    },
                }
                text.append(")");
                text
            },
            Expr::While { condition, body } => {
                let mut text = String::from_str("(while ");
                text.append(condition.to_string().as_str());
                text.append(" ");
                text.append(body.to_string().as_str());
                text.append(")");
                text
            },
            Expr::Block { stmts, return_expr } => {
                let mut text = String::from_str("(block");
                let mut i: usize = 0;
                assert(text@ + stmts_text(stmts@, 0) =~= text@);
                while i < stmts.len()
                    invariant
                        i <= stmts@.len(),
                        text@ == "(block"@ + stmts_text(stmts@, i as nat),
                    decreases stmts@.len() - i,
                {
                    text.append(" ");
                    text.append(stmts[i].to_string().as_str());
                    i += 1;
                }
                match return_expr {
                    Some(last) => {
                        text.append(" ");
                        text.append(last.to_string().as_str());
                    },
                    None => {
                        assert(text@ + Seq::<char>::empty() =~= text@);
                    },
                }
                text.append(")");
                text
            },
            Expr::Assignment { target, value } => {
                let mut text = String::from_str("(= ");
                text.append(target.as_str());
                text.append(" ");
                text.append(value.to_string().as_str());
                text.append(")");
                text
            },
            Expr::Closure { params, body } => {
                let mut text = String::from_str("(fn");
                text.append(names_to_string(params).as_str());
                text.append(" -> ");
                text.append(body.to_string().as_str());
                text.append(")");
                text
            },
            Expr::Call { callee, args } => {
                let mut text = String::from_str("(call ");
                text.append(callee.to_string().as_str());
                let ghost head = text@;
                let mut i: usize = 0;
                assert(text@ + exprs_text(args@, 0) =~= text@);
                while i < args.len()
                    invariant
                        i <= args@.len(),
                        text@ == head + exprs_text(args@, i as nat),
                    decreases args@.len() - i,
                {
                    text.append(" ");
                    text.append(args[i].to_string().as_str());
                    i += 1;
                }
                text.append(")");
                text
            },
            Expr::Return { value } => {
                let mut text = String::from_str("(return");
                match value {
                    Some(value) => {
                        text.append(" ");
                        text.append(value.to_string().as_str());
                    },
                    None => {
                        assert(text@ + Seq::<char>::empty() =~= text@);
                    },
                }
                text.append(")");
                text
            },
        }
    }
}

impl Stmt {
    /// The statement written like an expression.
    pub fn to_string(&self) -> (text: String)
        ensures
            text@ == stmt_text(*self),
        decreases *self,
    {
        match self {
            Stmt::Expression { expr } => {
                let mut text = String::from_str("(expr ");
                text.append(expr.to_string().as_str());
                text.append(")");
                text
            },
            Stmt::VariableDeclaration { name, expr } => {
                let mut text = String::from_str("(var ");
                text.append(name.as_str());
                text.append(" ");
                text.append(expr.to_string().as_str());
                text.append(")");
                text
            },
            Stmt::FunctionDeclaration { name, params, body } => {
                let mut text = String::from_str("(def ");
                text.append(name.as_str());
                text.append(names_to_string(params).as_str());
                text.append(" -> ");
                text.append(body.to_string().as_str());
                text.append(")");
                text
            },
        }
    }
}

} // verus!
