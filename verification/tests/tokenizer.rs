use proofcheck::operator::Operator;
use proofcheck::repeats_no_whitespace::RepeatsNoWhiteSpace;
use proofcheck::tokenizer::{tokenize, Token, TokenKind};

#[test]
fn integer() {
    let reader = RepeatsNoWhiteSpace::new("420");
    assert_eq!(tokenize(reader), [Token::new(TokenKind::Z(420), 0, 3)])
}

#[test]
fn multiple_integers() {
    let reader = RepeatsNoWhiteSpace::new("420 69");
    assert_eq!(
        tokenize(reader),
        [
            Token::new(TokenKind::Z(420), 0, 3),
            Token::new(TokenKind::Z(69), 4, 6)
        ]
    )
}

#[test]
fn operator() {
    let reader = RepeatsNoWhiteSpace::new("+");
    assert_eq!(tokenize(reader), [Token::new(TokenKind::Plus, 0, 1)])
}

#[test]
fn integers_and_operators() {
    let reader = RepeatsNoWhiteSpace::new("420+69");
    assert_eq!(
        tokenize(reader),
        [
            Token::new(TokenKind::Z(420), 0, 3),
            Token::new(TokenKind::Plus, 3, 4),
            Token::new(TokenKind::Z(69), 4, 6)
        ]
    )
}

#[test]
fn repeats_no_whitespace_base_case() {
    let mut reader = RepeatsNoWhiteSpace::new("bar");
    assert_eq!(reader.get(), Some('b'));
    assert_eq!(reader.next(), Some('b'));

    assert_eq!(reader.get(), Some('a'));
    assert_eq!(reader.next(), Some('a'));

    assert_eq!(reader.get(), Some('r'));
    assert_eq!(reader.next(), Some('r'));

    assert_eq!(reader.get(), None);
    assert_eq!(reader.next(), None);
    assert_eq!(reader.next(), None);
}

#[test]
fn repeats_no_whitespace_spaces() {
    let mut reader = RepeatsNoWhiteSpace::new("b   ar");
    assert_eq!(reader.get(), Some('b'));
    assert_eq!(reader.next(), Some('b'));

    assert_eq!(reader.get(), Some(' '));
    assert_eq!(reader.next(), Some(' '));

    assert_eq!(reader.get(), Some('a'));
    assert_eq!(reader.next(), Some('a'));

    assert_eq!(reader.get(), Some('r'));
    assert_eq!(reader.next(), Some('r'));

    assert_eq!(reader.get(), None);
    assert_eq!(reader.next(), None);
    assert_eq!(reader.next(), None);
}

#[test]
fn repeats_no_whitespace_new_lines() {
    let mut reader = RepeatsNoWhiteSpace::new("b\n\n\nar");
    assert_eq!(reader.get(), Some('b'));
    assert_eq!(reader.next(), Some('b'));

    assert_eq!(reader.get(), Some('\n'));
    assert_eq!(reader.next(), Some('\n'));

    assert_eq!(reader.get(), Some('a'));
    assert_eq!(reader.next(), Some('a'));

    assert_eq!(reader.get(), Some('r'));
    assert_eq!(reader.next(), Some('r'));

    assert_eq!(reader.get(), None);
    assert_eq!(reader.next(), None);
    assert_eq!(reader.next(), None);
}

#[test]
fn operator_token_queries() {
    let and = Token::new(TokenKind::And, 0, 1);
    let or = Token::new(TokenKind::Or, 0, 1);
    let not = Token::new(TokenKind::Not, 0, 1);
    let le = Token::new(TokenKind::LessEquals, 0, 2);
    assert!(and.is_operator());
    assert!(!Token::new(TokenKind::Z(3), 0, 1).is_operator());
    assert_eq!(and.operator_precedence(), 1);
    assert_eq!(or.operator_precedence(), 0);
    assert_eq!(and.precedes(&or), std::cmp::Ordering::Greater);
    assert_eq!(or.precedes(&and), std::cmp::Ordering::Less);
    assert_eq!(and.precedes(&and), std::cmp::Ordering::Equal);
    assert!(not.is_unary());
    assert!(!and.is_unary());
    assert!(le.is_double_width());
    assert!(!and.is_double_width());
}

#[test]
fn operator_queries() {
    assert_eq!(Operator::Or.precedence(), 0);
    assert_eq!(Operator::And.precedence(), 1);
    assert_eq!(Operator::Negate.precedence(), 6);
    assert_eq!(Operator::Multiply.precedence(), 5);
    assert_eq!(
        Operator::And.precedes(&Operator::Or),
        std::cmp::Ordering::Greater
    );
    assert_eq!(
        Operator::Plus.precedes(&Operator::Minus),
        std::cmp::Ordering::Equal
    );
    assert!(Operator::Not.is_unary());
    assert!(Operator::Negate.is_unary());
    assert!(!Operator::Plus.is_unary());
    assert!(Operator::Equals.is_double_width());
    assert!(!Operator::Or.is_double_width());
}
