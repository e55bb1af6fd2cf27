use gravitas::syntax::lexer::lex;
use gravitas::syntax::parse::Parser;
use gravitas::syntax::token::{Operator, Token};
use gravitas::syntax::tree::Expr;

fn expr(input: &str) -> Expr {
    let mut parser = Parser::new(input);
    parser.parse_expression().unwrap()
}

fn assert_expr(input: &str, expected: &str) {
    assert_eq!(expr(input).to_string(), expected)
}

fn assert_token(input: &str, expected: Token) {
    let tokens = lex(input);
    assert_eq!(tokens.len(), 2);
    assert_eq!(tokens[0].token, expected);
    assert_eq!(tokens[1].token, Token::Eof);
}

#[test]
fn parses_simple_binary_expression() {
    assert_expr("1 + 2", "(+ 1 2)");
    assert_expr("1 - 2", "(- 1 2)");
    assert_expr("1 * 2", "(* 1 2)");
    assert_expr("1 / 2", "(/ 1 2)");
    assert_expr("1 % 2", "(% 1 2)");
    assert_expr("1 ** 2", "(** 1 2)");
    assert_expr("1 == 2", "(== 1 2)");
    assert_expr("1 != 2", "(!= 1 2)");
    assert_expr("1 < 2", "(< 1 2)");
    assert_expr("1 <= 2", "(<= 1 2)");
    assert_expr("1 > 2", "(> 1 2)");
    assert_expr("1 >= 2", "(>= 1 2)");
    assert_expr("1 or 2", "(or 1 2)");
    assert_expr("1 and 2", "(and 1 2)");
}

#[test]
fn parses_binary_expressions_with_equal_precedence() {
    // logical
    assert_expr("1 or 2 or 3", "(or (or 1 2) 3)");
    assert_expr("1 and 2 and 3", "(and (and 1 2) 3)");
    // comparison, this will get discarded during static analysis,
    // but we want to ensure that parser doesn't surprise us
    assert_expr("1 == 2 == 3", "(== (== 1 2) 3)");
    assert_expr("1 != 2 != 3", "(!= (!= 1 2) 3)");
    assert_expr("1 < 2 < 3", "(< (< 1 2) 3)");
    assert_expr("1 <= 2 <= 3", "(<= (<= 1 2) 3)");
    assert_expr("1 > 2 > 3", "(> (> 1 2) 3)");
    assert_expr("1 >= 2 >= 3", "(>= (>= 1 2) 3)");
    // addition and subtraction
    assert_expr("1 + 2 + 3", "(+ (+ 1 2) 3)");
    assert_expr("1 + 2 + 3 + 4", "(+ (+ (+ 1 2) 3) 4)");
    assert_expr("1 + 2 - 3", "(- (+ 1 2) 3)");
    assert_expr("1 - 2 + 3", "(+ (- 1 2) 3)");
    // multiplication, division, modulo
    assert_expr("1 * 2 * 3", "(* (* 1 2) 3)");
    assert_expr("1 / 2 * 3", "(* (/ 1 2) 3)");
    assert_expr("1 * 2 / 3", "(/ (* 1 2) 3)");
    assert_expr("1 % 2 % 3", "(% (% 1 2) 3)");
    assert_expr("1 * 2 / 3 % 4", "(% (/ (* 1 2) 3) 4)");
    // exponent
    assert_expr("1 ** 2 ** 3", "(** (** 1 2) 3)");
}

#[test]
fn parses_binary_expressions_with_bigger_precedence() {
    // logical operators precedes comparison
    assert_expr("1 and 2 < 3", "(and 1 (< 2 3))");
    assert_expr("1 < 2 and 3", "(and (< 1 2) 3)");
    assert_expr("1 or 2 < 3", "(or 1 (< 2 3))");
    assert_expr("1 < 2 or 3", "(or (< 1 2) 3)");
    // comparison precedes addition and subtraction
    assert_expr("1 + 2 > 3", "(> (+ 1 2) 3)");
    assert_expr("1 > 2 + 3", "(> 1 (+ 2 3))");
    assert_expr("1 > 2 - 3", "(> 1 (- 2 3))");
    assert_expr("1 - 2 > 3", "(> (- 1 2) 3)");
    // addition and subtraction precedes multiplication, division and modulo
    assert_expr("1 + 2 * 3", "(+ 1 (* 2 3))");
    assert_expr("1 * 2 + 3", "(+ (* 1 2) 3)");
    assert_expr("1 - 2 / 3", "(- 1 (/ 2 3))");
    assert_expr("1 / 2 - 3", "(- (/ 1 2) 3)");
    assert_expr("1 + 2 % 3", "(+ 1 (% 2 3))");
    assert_expr("1 % 2 - 3", "(- (% 1 2) 3)");
    // multiplication, division and modulo precedes exponent
    assert_expr("1 * 2 ** 3", "(* 1 (** 2 3))");
    assert_expr("1 ** 2 / 3", "(/ (** 1 2) 3)");
    assert_expr("1 % 2 ** 3", "(% 1 (** 2 3))");
}

#[test]
fn parses_unary_expressions() {
    assert_expr("- -1", "(- -1)");
    assert_expr("- 2 + 2", "(- (+ 2 2))");
    assert_expr("!true", "(! true)");
    assert_expr("!!true", "(! (! true))");
    assert_expr("!!!true", "(! (! (! true)))");
    assert_expr("!!!!true", "(! (! (! (! true))))");

    assert_expr("--5", "(- -5)");
    assert_expr("---5", "(- (- -5))");
    assert_expr("----5", "(- (- (- -5)))");
}

#[test]
fn parses_combined_expression() {
    assert_expr("!true == false", "(== (! true) false)");
    assert_expr("!!true == !false", "(== (! (! true)) (! false))");
    assert_expr("2 >= 10 + 3", "(>= 2 (+ 10 3))");
    assert_expr("2 + 2 ** 3 >= 10 + 3", "(>= (+ 2 (** 2 3)) (+ 10 3))");
}

#[test]
fn lex_all_operators() {
    assert_token("+", Token::Operator(Operator::Plus));
    assert_token("-", Token::Operator(Operator::Minus));
    assert_token("*", Token::Operator(Operator::Multiply));
    assert_token("/", Token::Operator(Operator::Divide));
    assert_token("%", Token::Operator(Operator::Modulo));
    assert_token("**", Token::Operator(Operator::Exponent));
    assert_token("=", Token::Operator(Operator::Assign));
    assert_token("==", Token::Operator(Operator::Compare));
    assert_token("!=", Token::Operator(Operator::BangCompare));
    assert_token("<", Token::Operator(Operator::Less));
    assert_token("<=", Token::Operator(Operator::LessEqual));
    assert_token(">", Token::Operator(Operator::Greater));
    assert_token(">=", Token::Operator(Operator::GreaterEqual));
    assert_token("or", Token::Operator(Operator::Or));
    assert_token("and", Token::Operator(Operator::And));
    assert_token("!", Token::Operator(Operator::Bang));
    assert_token(".", Token::Operator(Operator::Dot));
}

use codespan_reporting::diagnostic::Severity;
use gravitas::syntax::error::{ParseError, ParseErrorCause};
use gravitas::syntax::token::{lex_operator, LexError, Lexeme, Span};
use gravitas::syntax::tree::{decimal_text, number_text, AtomicValue, Spanned};

fn tokens(input: &str) -> Vec<Token> {
    lex(input).into_iter().map(|lexeme| lexeme.token).collect()
}

#[test]
fn tokens_know_their_place() {
    assert_eq!(
        lex(" 12 +x"),
        vec![
            Lexeme { token: Token::Number(12), span: Span { start: 1, end: 3 } },
            Lexeme { token: Token::Operator(Operator::Plus), span: Span { start: 4, end: 5 } },
            Lexeme { token: Token::Identifier("x".to_owned()), span: Span { start: 5, end: 6 } },
            Lexeme { token: Token::Eof, span: Span { start: 6, end: 6 } },
        ]
    );
    assert_eq!(lex(""), vec![Lexeme { token: Token::Eof, span: Span { start: 0, end: 0 } }]);
    assert_eq!(tokens(" \t\r\n"), vec![Token::Eof]);
}

#[test]
fn words_are_operators_literals_or_names() {
    assert_eq!(
        tokens("or and true false null orange _a1 And"),
        vec![
            Token::Operator(Operator::Or),
            Token::Operator(Operator::And),
            Token::Bool(true),
            Token::Bool(false),
            Token::Null,
            Token::Identifier("orange".to_owned()),
            Token::Identifier("_a1".to_owned()),
            Token::Identifier("And".to_owned()),
            Token::Eof,
        ]
    );
}

#[test]
fn the_longest_operator_is_taken() {
    assert_eq!(
        tokens("***<==!==!"),
        vec![
            Token::Operator(Operator::Exponent),
            Token::Operator(Operator::Multiply),
            Token::Operator(Operator::LessEqual),
            Token::Operator(Operator::Assign),
            Token::Operator(Operator::BangCompare),
            Token::Operator(Operator::Assign),
            Token::Operator(Operator::Bang),
            Token::Eof,
        ]
    );
    assert_eq!(lex_operator("<="), Some(Operator::LessEqual));
    assert_eq!(lex_operator("=<"), None);
    assert_eq!(lex_operator(""), None);
    assert_eq!(lex_operator("+ "), None);
}

#[test]
fn numbers_are_whole_and_fit() {
    assert_eq!(tokens("0"), vec![Token::Number(0), Token::Eof]);
    assert_eq!(tokens("007"), vec![Token::Number(7), Token::Eof]);
    assert_eq!(tokens("-12"), vec![Token::Number(-12), Token::Eof]);
    assert_eq!(
        tokens("1 -2"),
        vec![Token::Number(1), Token::Number(-2), Token::Eof]
    );
    assert_eq!(
        tokens("1 - 2"),
        vec![Token::Number(1), Token::Operator(Operator::Minus), Token::Number(2), Token::Eof]
    );
    assert_eq!(
        tokens("9223372036854775807 -9223372036854775808"),
        vec![Token::Number(i64::MAX), Token::Number(i64::MIN), Token::Eof]
    );
    assert_eq!(
        tokens("9223372036854775808"),
        vec![Token::Error(LexError::InvalidNumber), Token::Eof]
    );
    assert_eq!(
        tokens("-9223372036854775809"),
        vec![Token::Error(LexError::InvalidNumber), Token::Eof]
    );
    assert_eq!(
        tokens("99999999999999999999999999"),
        vec![Token::Error(LexError::InvalidNumber), Token::Eof]
    );
    assert_eq!(tokens("1.5"), vec![Token::Error(LexError::InvalidNumber), Token::Eof]);
    assert_eq!(tokens("1.2.3"), vec![Token::Error(LexError::TooMuchDots), Token::Eof]);
    assert_eq!(
        tokens("1.x"),
        vec![
            Token::Number(1),
            Token::Operator(Operator::Dot),
            Token::Identifier("x".to_owned()),
            Token::Eof
        ]
    );
}

#[test]
fn texts_stand_between_quotes() {
    assert_eq!(tokens("\"a b\""), vec![Token::Text("a b".to_owned()), Token::Eof]);
    assert_eq!(tokens("\"\""), vec![Token::Text(String::new()), Token::Eof]);
    assert_eq!(tokens("\"ab"), vec![Token::Error(LexError::UnterminatedText), Token::Eof]);
    assert_eq!(
        tokens("#é"),
        vec![
            Token::Error(LexError::UnknownCharacter),
            Token::Error(LexError::UnknownCharacter),
            Token::Eof
        ]
    );
    assert_eq!(
        lex("é1")[1],
        Lexeme { token: Token::Number(1), span: Span { start: 1, end: 2 } }
    );
}

fn parse(input: &str) -> Result<Expr, ParseErrorCause> {
    Parser::new(input).parse_expression()
}

#[test]
fn what_is_no_expression_is_refused() {
    assert_eq!(parse(""), Err(ParseErrorCause::EndOfInput));
    assert_eq!(parse("1 +"), Err(ParseErrorCause::EndOfInput));
    assert_eq!(parse("1 2"), Err(ParseErrorCause::UnexpectedToken));
    assert_eq!(parse("* 2"), Err(ParseErrorCause::UnexpectedToken));
    assert_eq!(parse("1 ! 2"), Err(ParseErrorCause::UnexpectedToken));
    assert_eq!(parse("1 = 2"), Err(ParseErrorCause::UnexpectedToken));
    assert_eq!(parse("1 + #"), Err(ParseErrorCause::UnexpectedToken));
    assert_eq!(parse("1.5"), Err(ParseErrorCause::InvalidNumber));
    assert_eq!(parse("1.2.3 + 1"), Err(ParseErrorCause::TooMuchDots));
    assert_eq!(parse("\"open"), Err(ParseErrorCause::EndOfInput));
}

#[test]
fn atoms_carry_the_place_of_their_token() {
    assert_eq!(
        parse("  abc"),
        Ok(Expr::Atom(Spanned {
            val: AtomicValue::Identifier("abc".to_owned()),
            span: Span { start: 2, end: 5 }
        }))
    );
    let mut parser = Parser::new("1 + 2");
    assert_eq!(parser.peek(), Token::Number(1));
    assert_eq!(parser.advance(), Ok(Span { start: 0, end: 1 }));
    assert_eq!(
        parser.construct_spanned(5u8),
        Ok(Spanned { val: 5u8, span: Span { start: 2, end: 3 } })
    );
    assert!(parser.parse_atom().is_ok());
    assert_eq!(parser.parse_atom(), Err(ParseErrorCause::EndOfInput));
    assert_eq!(parser.advance(), Ok(Span { start: 5, end: 5 }));
    assert_eq!(parser.advance(), Err(ParseErrorCause::EndOfInput));
    assert_eq!(parser.peek(), Token::Eof);
}

#[test]
fn numbers_are_written_in_decimal() {
    assert_eq!(decimal_text(0), "0");
    assert_eq!(decimal_text(9), "9");
    assert_eq!(decimal_text(10), "10");
    assert_eq!(decimal_text(1234567890), "1234567890");
    assert_eq!(decimal_text(u64::MAX), "18446744073709551615");
    assert_eq!(number_text(0), "0");
    assert_eq!(number_text(-1), "-1");
    assert_eq!(number_text(i64::MAX), "9223372036854775807");
    assert_eq!(number_text(i64::MIN), "-9223372036854775808");
    assert_eq!(AtomicValue::Text("x y".to_owned()).to_string(), "x y");
    assert_eq!(AtomicValue::Null.to_string(), "null");
}

#[test]
fn errors_are_reported_as_diagnostics() {
    let error = |cause| ParseError { span: Span { start: 0, end: 1 }, cause };
    let report = error(ParseErrorCause::EndOfInput).report();
    assert_eq!(report.severity, Severity::Error);
    assert_eq!(report.message, "unexpected end of input");
    assert_eq!(report.code, None);
    assert!(report.labels.is_empty());
    assert!(report.notes.is_empty());
    let unexpected = error(ParseErrorCause::UnexpectedToken).report();
    assert_eq!(unexpected.severity, Severity::Error);
    assert_eq!(unexpected.message, "unexpected token");
    let silent = error(ParseErrorCause::InvalidNumber).report();
    assert_eq!(silent.severity, Severity::Error);
    assert_eq!(silent.message, "");
    assert_eq!(silent.code, None);
    assert!(silent.labels.is_empty());
    assert!(silent.notes.is_empty());
    assert_eq!(error(ParseErrorCause::ExpectedIdentifier).report(), silent);
    assert_eq!(ParseErrorCause::EndOfInput.message(), Some("unexpected end of input"));
    assert_eq!(ParseErrorCause::TooMuchDots.message(), None);
    assert_eq!(
        ParseErrorCause::from_lex_error(LexError::UnknownCharacter),
        ParseErrorCause::UnexpectedToken
    );
}
