use fentc::ast::{BinaryOperator, Mutability, NotABinaryOperator, NotAUnaryOperator, Program};
use fentc::identifier::Identifier;
use fentc::operator::Operator;
use fentc::span::{Span, Spanned};
use fentc::token::{Token, TokenKind};

#[test]
fn operator_spellings() {
    let all = [
        (Operator::Add, "+"),
        (Operator::Sub, "-"),
        (Operator::Mul, "*"),
        (Operator::Div, "/"),
        (Operator::Mod, "mod"),
        (Operator::And, "and"),
        (Operator::Not, "not"),
        (Operator::Or, "or"),
        (Operator::Nor, "nor"),
        (Operator::Less, "<"),
        (Operator::LessOrEqual, "<="),
        (Operator::Greater, ">"),
        (Operator::GreaterOrEqual, ">="),
        (Operator::Equals, "=="),
        (Operator::NotEquals, "!="),
        (Operator::Assign, "="),
    ];
    for (operator, text) in all {
        assert_eq!(operator.to_string(), text);
    }
}

#[test]
fn binary_operator_from_token() {
    let all = [
        (Token::Add, BinaryOperator::Add, "+"),
        (Token::Sub, BinaryOperator::Sub, "-"),
        (Token::Mul, BinaryOperator::Mul, "*"),
        (Token::Div, BinaryOperator::Div, "/"),
        (Token::Mod, BinaryOperator::Mod, "mod"),
        (Token::And, BinaryOperator::And, "and"),
        (Token::Or, BinaryOperator::Or, "or"),
        (Token::Nor, BinaryOperator::Nor, "nor"),
        (Token::Less, BinaryOperator::Less, "<"),
        (Token::LessOrEqual, BinaryOperator::LessOrEqual, "<="),
        (Token::Greater, BinaryOperator::Greater, ">"),
        (Token::GreaterOrEqual, BinaryOperator::GreaterOrEqual, ">="),
        (Token::Equals, BinaryOperator::Equals, "=="),
        (Token::NotEquals, BinaryOperator::NotEquals, "!="),
    ];
    for (token, operator, text) in all {
        assert_eq!(BinaryOperator::try_from(token), Ok(operator));
        assert_eq!(operator.to_string(), text);
        assert_eq!(operator.kind().text(), Some(text));
    }
}

#[test]
fn other_tokens_are_no_binary_operators() {
    for token in [
        Token::Not,
        Token::Assign,
        Token::Nil,
        Token::Integer(1),
        Token::Identifier("a"),
        Token::Error,
        Token::FatArrow,
    ] {
        assert_eq!(BinaryOperator::try_from(token), Err(NotABinaryOperator));
    }
}

#[test]
fn messages() {
    assert_eq!(NotABinaryOperator.to_string(), "Operator is not a binary operator");
    assert_eq!(NotAUnaryOperator.to_string(), "Operator is not a unary operator");
    assert_eq!(Mutability::Mutable.to_string(), "Value can be reassigned");
    assert_eq!(Mutability::Immutable.to_string(), "Value cannot be reassigned");
}

#[test]
fn identifiers_compare_by_content() {
    let a = Identifier::new("name".to_string());
    let b = Identifier::new(String::from("na") + "me");
    assert_eq!(a, b);
    assert_ne!(a, Identifier::new("other".to_string()));
    assert_eq!(a.name(), "name");
}

#[test]
fn spans_and_programs() {
    let span = Span::new(2, 5);
    assert_eq!(span, Span { start: 2, end: 5 });
    assert_eq!(span.len(), 3);
    let spanned = Spanned::new(7, span);
    assert_eq!(spanned.value, 7);
    assert_eq!(spanned.span, span);
    let program = Program::new(Vec::new());
    assert!(program.functions().is_empty());
}

#[test]
fn kinds_of_tokens() {
    assert_eq!(Token::Identifier("a").kind(), TokenKind::Identifier);
    assert_eq!(Token::Bool(false).kind(), TokenKind::Bool);
    assert_eq!(TokenKind::Identifier.text(), None);
    assert_eq!(TokenKind::Fn.text(), Some("fn"));
    assert_eq!(TokenKind::Fn.to_token(), Token::Fn);
}
