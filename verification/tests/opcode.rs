use gravitas::opcode::Opcode;
use gravitas::parser::Token;

// It's possible to instantiate few opcodes from Token
#[test]
fn opcode_from_token() {
    assert_eq!(Opcode::from(Token::Plus), Opcode::Add);
    assert_eq!(Opcode::from(Token::Minus), Opcode::Subtract);
    assert_eq!(Opcode::from(Token::Star), Opcode::Multiply);
    assert_eq!(Opcode::from(Token::Divide), Opcode::Divide);
    assert_eq!(Opcode::from(Token::BangEqual), Opcode::BangEqual);
    assert_eq!(Opcode::from(Token::Equal), Opcode::Equal);
    assert_eq!(Opcode::from(Token::Less), Opcode::Less);
    assert_eq!(Opcode::from(Token::LessEqual), Opcode::LessEqual);
    assert_eq!(Opcode::from(Token::Greater), Opcode::Greater);
    assert_eq!(Opcode::from(Token::GreaterEqual), Opcode::GreaterEqual);
    assert_eq!(Opcode::from(Token::Assign), Opcode::Assign);
}

#[test]
fn booleans_have_their_codes() {
    let yes: Opcode = true.into();
    let no: Opcode = false.into();
    assert_eq!(yes, Opcode::True);
    assert_eq!(no, Opcode::False);
}

#[test]
fn only_operators_stand_for_codes() {
    assert_eq!(Opcode::of_token(&Token::Plus), Some(Opcode::Add));
    assert_eq!(Opcode::of_token(&Token::Assign), Some(Opcode::Assign));
    assert_eq!(Opcode::of_token(&Token::OpenBrace), None);
    assert_eq!(Opcode::of_token(&Token::Bang), None);
}
