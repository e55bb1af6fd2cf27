use gravitas::parser::{Atom, Block, Expr, Parser, Stmt, Token};

fn number(value: f64) -> i64 {
    value as i64
}

// EXPRESSIONS
#[test]
fn number_atom() {
    let mut parser = Parser::new(vec![Token::Number(number(60.0))]);
    assert_eq!(parser.expr(0).unwrap(), Expr::Atom(Atom::Number(number(60.0))));
}

#[test]
fn string_atom() {
    let mut parser = Parser::new(vec![Token::Text(String::from("hello"))]);
    assert_eq!(
        parser.expr(0).unwrap(),
        Expr::Atom(Atom::Text(String::from("hello")))
    );
}

#[test]
fn grouping_expr() {
    let mut parser = Parser::new(vec![
        Token::OpenParenthesis,
        Token::Number(number(10.0)),
        Token::CloseParenthesis,
    ]);

    assert_eq!(
        parser.expr(0).unwrap(),
        Expr::Grouping {
            expr: Box::new(Expr::Atom(Atom::Number(number(10.0))))
        }
    )
}

#[test]
fn unary_expr() {
    let mut parser = Parser::new(vec![
        Token::Minus,
        Token::OpenParenthesis,
        Token::Number(number(10.0)),
        Token::CloseParenthesis,
    ]);

    assert_eq!(
        parser.expr(0).unwrap(),
        Expr::Unary {
            operator: Token::Minus,
            expr: Box::new(Expr::Grouping {
                expr: Box::new(Expr::Atom(Atom::Number(number(10.0))))
            }),
        }
    )
}

#[test]
fn binary_expr() {
    let mut parser = Parser::new(vec![
        Token::Number(number(10.0)),
        Token::Plus,
        Token::Number(number(20.0)),
    ]);

    assert_eq!(
        parser.expr(0).unwrap(),
        Expr::Binary {
            left: Box::new(Expr::Atom(Atom::Number(number(10.0)))),
            operator: Token::Plus,
            right: Box::new(Expr::Atom(Atom::Number(number(20.0)))),
        }
    )
}

/// Assignment is just a simple binary operation
#[test]
fn binary_assignment_expr() {
    let mut parser = Parser::new(vec![
        Token::Identifier(String::from("var")),
        Token::Assign,
        Token::Number(number(20.0)),
    ]);

    assert_eq!(
        parser.expr(0).expect("Couldn't parse expression"),
        Expr::Binary {
            left: Box::new(Expr::Var {
                identifier: String::from("var"),
                is_ref: true,
            }),
            operator: Token::Assign,
            right: Box::new(Expr::Atom(Atom::Number(number(20.0)))),
        }
    )
}

#[test]
fn complicated_binary_expr() {
    let mut parser = Parser::new(vec![
        Token::OpenParenthesis,
        Token::Number(number(-1.0)),
        Token::Plus,
        Token::Number(number(2.0)),
        Token::CloseParenthesis,
        Token::Star,
        Token::Number(number(3.0)),
        Token::Minus,
        Token::Number(number(-4.0)),
    ]);

    assert_eq!(
        parser.expr(0).unwrap(),
        Expr::Binary {
            left: Box::new(Expr::Binary {
                left: Box::new(Expr::Grouping {
                    expr: Box::new(Expr::Binary {
                        left: Box::new(Expr::Atom(Atom::Number(number(-1.0)))),
                        operator: Token::Plus,
                        right: Box::new(Expr::Atom(Atom::Number(number(2.0)))),
                    })
                }),
                operator: Token::Star,
                right: Box::new(Expr::Atom(Atom::Number(number(3.0)))),
            },),
            operator: Token::Minus,
            right: Box::new(Expr::Atom(Atom::Number(number(-4.0)))),
        }
    )
}

/// The parser goes by the binding power of infix and prefix operators, so
/// that they are parsed in the correct order.
/// E.g 2 + 8 * 10 is parsed as Binary<2 + Binary<8 * 10>>, instead of Binary<10 * Binary<2 +8>>
#[test]
fn handle_binding_power() {
    let mut parser = Parser::new(vec![
        Token::Number(number(2.0)),
        Token::Plus,
        Token::Number(number(8.0)),
        Token::Star,
        Token::Number(number(10.0)),
    ]);

    assert_eq!(
        parser.expr(0).unwrap(),
        Expr::Binary {
            left: Box::new(Expr::Atom(Atom::Number(number(2.0)))),
            operator: Token::Plus,
            right: Box::new(Expr::Binary {
                left: Box::new(Expr::Atom(Atom::Number(number(8.0)))),
                operator: Token::Star,
                right: Box::new(Expr::Atom(Atom::Number(number(10.0)))),
            }),
        }
    )
}

#[test]
fn var_expr() {
    let mut parser = Parser::new(vec![Token::Identifier(String::from("variable"))]);

    assert_eq!(
        parser.expr(0).unwrap(),
        Expr::Var {
            is_ref: false,
            identifier: String::from("variable"),
        }
    )
}

#[test]
fn block_expr() {
    let mut parser = Parser::new(vec![
        Token::OpenBrace,
        Token::Var,
        Token::Identifier(String::from("var")),
        Token::Assign,
        Token::Number(number(10.0)),
        Token::Semicolon,
        Token::CloseBrace,
    ]);

    assert_eq!(
        parser
            .block_expr()
            .expect("Failed to parse block expression"),
        Expr::Block {
            body: Block {
                body: vec![Stmt::Var {
                    identifier: String::from("var"),
                    expr: Expr::Atom(Atom::Number(number(10.0))),
                }],
                final_expr: None,
            }
        }
    )
}

// STATEMENTS

#[test]
fn print_stmt() {
    assert_eq!(
        Parser::new(vec![
            Token::Print,
            Token::Identifier(String::from("variable")),
            Token::Semicolon,
        ])
        .stmt()
        .unwrap(),
        Stmt::Print {
            expr: Expr::Var {
                is_ref: false,
                identifier: String::from("variable"),
            }
        }
    );
    assert_eq!(
        Parser::new(vec![
            Token::Print,
            Token::Number(number(10.0)),
            Token::Plus,
            Token::Number(number(20.0)),
            Token::Semicolon,
        ])
        .stmt()
        .unwrap(),
        Stmt::Print {
            expr: Expr::Binary {
                left: Box::new(Expr::Atom(Atom::Number(number(10.0)))),
                operator: Token::Plus,
                right: Box::new(Expr::Atom(Atom::Number(number(20.0)))),
            }
        }
    )
}

#[test]
fn var_stmt() {
    assert_eq!(
        Parser::new(vec![
            Token::Var,
            Token::Identifier(String::from("variable")),
            Token::Assign,
            Token::Number(number(10.0)),
            Token::Semicolon,
        ])
        .stmt()
        .unwrap(),
        Stmt::Var {
            identifier: String::from("variable"),
            expr: Expr::Atom(Atom::Number(number(10.0))),
        }
    );
}

use gravitas::parser::{Affix, Ast, BranchType, IfBranch, ParseError};

#[test]
fn operators_bind_by_their_power() {
    assert!(Token::Star.bp(Affix::Infix) > Token::Plus.bp(Affix::Infix));
    assert!(Token::Plus.bp(Affix::Infix) > Token::Less.bp(Affix::Infix));
    assert!(Token::Less.bp(Affix::Infix) > Token::Equal.bp(Affix::Infix));
    assert!(Token::Equal.bp(Affix::Infix) > Token::Assign.bp(Affix::Infix));
    assert!(Token::Minus.bp(Affix::Prefix) > Token::Star.bp(Affix::Infix));
    assert_eq!(Token::Semicolon.bp(Affix::Infix), 0);
    assert_eq!(Token::OpenParenthesis.bp(Affix::Prefix), 0);
    assert_eq!(Token::Bang.bp(Affix::Infix), 0);
    assert!(Token::Print.is_stmt() && Token::Var.is_stmt() && !Token::If.is_stmt());
    assert_eq!(Token::from_branch(BranchType::ElseIf), Token::ElseIf);
    assert_eq!(Token::Identifier("a".to_owned()).into_identifier(), Ok("a".to_owned()));
    assert_eq!(Token::Plus.into_identifier(), Err(Token::Plus));
}

#[test]
fn a_program_is_its_statements() {
    let parser = Parser::new(vec![
        Token::Var,
        Token::Identifier("a".to_owned()),
        Token::Assign,
        Token::Number(1),
        Token::Semicolon,
        Token::Print,
        Token::Identifier("a".to_owned()),
        Token::Semicolon,
        Token::Identifier("a".to_owned()),
        Token::Assign,
        Token::Number(2),
        Token::Semicolon,
    ]);
    let Ast(statements) = parser.parse().unwrap();
    assert_eq!(statements.len(), 3);
    assert_eq!(
        statements[2],
        Stmt::Expr {
            expr: Expr::Binary {
                left: Box::new(Expr::Var { identifier: "a".to_owned(), is_ref: true }),
                operator: Token::Assign,
                right: Box::new(Expr::Atom(Atom::Number(2))),
            }
        }
    );
    assert_eq!(Parser::new(vec![]).parse(), Ok(Ast(vec![])));
}

#[test]
fn after_an_error_the_parser_goes_on_with_the_next_statement() {
    let parser = Parser::new(vec![
        Token::Print,
        Token::Semicolon,
        Token::Number(1),
        Token::Var,
        Token::Number(1),
        Token::Print,
        Token::Number(1),
        Token::Semicolon,
        Token::Number(2),
    ]);
    assert_eq!(
        parser.parse(),
        Err(vec![
            ParseError::UnsupportedToken(Token::Semicolon),
            ParseError::MalformedDeclaration,
            ParseError::Expected(Token::Semicolon),
        ])
    );
}

#[test]
fn a_conditional_has_its_branches_in_order() {
    let branch = |keyword: Token, condition: Option<bool>, value: i64| {
        let mut tokens = vec![keyword];
        if let Some(condition) = condition {
            tokens.push(if condition { Token::True } else { Token::False });
        }
        tokens.extend([Token::OpenBrace, Token::Number(value), Token::CloseBrace]);
        tokens
    };
    let mut tokens = branch(Token::If, Some(false), 1);
    tokens.extend(branch(Token::ElseIf, Some(true), 2));
    tokens.extend(branch(Token::Else, None, 3));
    let body = |value| Block {
        body: vec![],
        final_expr: Some(Box::new(Expr::Atom(Atom::Number(value)))),
    };
    assert_eq!(
        Parser::new(tokens).expr(0),
        Ok(Expr::If {
            branches: vec![
                IfBranch {
                    branch_type: BranchType::If,
                    condition: Expr::Atom(Atom::Bool(false)),
                    body: body(1),
                },
                IfBranch {
                    branch_type: BranchType::ElseIf,
                    condition: Expr::Atom(Atom::Bool(true)),
                    body: body(2),
                },
                IfBranch {
                    branch_type: BranchType::Else,
                    condition: Expr::Atom(Atom::Bool(true)),
                    body: body(3),
                },
            ]
        })
    );
}

#[test]
fn a_loop_has_a_condition_and_a_block() {
    let mut parser = Parser::new(vec![
        Token::While,
        Token::Identifier("a".to_owned()),
        Token::Less,
        Token::Number(3),
        Token::OpenBrace,
        Token::Identifier("a".to_owned()),
        Token::Semicolon,
        Token::Null,
        Token::CloseBrace,
    ]);
    assert_eq!(
        parser.expr(0),
        Ok(Expr::While {
            condition: Box::new(Expr::Binary {
                left: Box::new(Expr::Var { identifier: "a".to_owned(), is_ref: false }),
                operator: Token::Less,
                right: Box::new(Expr::Atom(Atom::Number(3))),
            }),
            body: Block {
                body: vec![Stmt::Expr {
                    expr: Expr::Var { identifier: "a".to_owned(), is_ref: false }
                }],
                final_expr: Some(Box::new(Expr::Atom(Atom::Null))),
            },
        })
    );
    assert_eq!(parser.position, 9);
}

#[test]
fn what_is_no_statement_is_refused() {
    let refused = |tokens: Vec<Token>| Parser::new(tokens).stmt().unwrap_err();
    assert_eq!(refused(vec![]), ParseError::UnexpectedEnd);
    assert_eq!(refused(vec![Token::Minus]), ParseError::UnexpectedEnd);
    assert_eq!(refused(vec![Token::Number(1)]), ParseError::Expected(Token::Semicolon));
    assert_eq!(
        refused(vec![Token::OpenParenthesis, Token::Number(1), Token::Semicolon]),
        ParseError::Expected(Token::CloseParenthesis)
    );
    assert_eq!(refused(vec![Token::Var, Token::Plus]), ParseError::MalformedDeclaration);
    assert_eq!(
        refused(vec![Token::CloseBrace]),
        ParseError::UnsupportedToken(Token::CloseBrace)
    );
    assert_eq!(
        refused(vec![
            Token::OpenBrace,
            Token::Number(1),
            Token::Number(2),
            Token::CloseBrace
        ]),
        ParseError::StandaloneExpression
    );
    assert_eq!(
        refused(vec![Token::While, Token::True, Token::Number(1)]),
        ParseError::Expected(Token::OpenBrace)
    );
    let mut parser = Parser::new(vec![Token::Plus]);
    assert_eq!(parser.var_expr(), Err(ParseError::InvalidIdentifier));
    assert!(!parser.peek_eq(Token::Plus));
    assert_eq!(parser.peek_bp(Affix::Infix), 0);
    assert_eq!(parser.peek_token(), None);
    assert_eq!(parser.next_token(), None);
    assert_eq!(parser.expect(Token::Plus), Err(ParseError::Expected(Token::Plus)));
}
