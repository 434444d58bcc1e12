use fentc::lexer::{lex, Lexer};
use fentc::token::Token;

fn kinds(source: &str) -> Vec<Token<'_>> {
    lex(source).into_iter().map(|token| token.value).collect()
}

#[test]
fn nil() {
    let mut lexer = Token::lexer("nil");
    assert_eq!(lexer.next().map(|token| token.value), Some(Token::Nil));

    let mut lexer = Token::lexer("nil nil nil");
    assert_eq!(lexer.next().map(|token| token.value), Some(Token::Nil));
    assert_eq!(lexer.next().map(|token| token.value), Some(Token::Nil));
    assert_eq!(lexer.next().map(|token| token.value), Some(Token::Nil));
}

#[test]
fn whitespace() {
    let mut lexer = Token::lexer("  \n  \t\t");
    assert_eq!(lexer.next(), None);
}

#[test]
fn comments() {
    let mut lexer = Token::lexer("// bruh moment\n\n");
    assert_eq!(lexer.next(), None);

    let mut lexer = Token::lexer("// bruh moment\n\nnil // hello world \nnil");
    assert_eq!(lexer.next().map(|token| token.value), Some(Token::Nil));
    assert_eq!(lexer.next().map(|token| token.value), Some(Token::Nil));
}

#[test]
fn bool() {
    assert_eq!(kinds("true false"), &[Token::Bool(true), Token::Bool(false)]);
}

#[test]
fn general() {
    let toks = kinds(
        r#"
            if true {
                a = (a + 1 + 0.5)
            } else {
                b.what = "huh"
            }
        "#,
    );

    assert_eq!(
        toks,
        &[
            Token::If,
            Token::Bool(true),
            Token::CurlyBraceOpen,
            Token::Identifier("a"),
            Token::Assign,
            Token::ParenOpen,
            Token::Identifier("a"),
            Token::Add,
            Token::Integer(1),
            Token::Add,
            Token::Float("0.5"),
            Token::ParenClosed,
            Token::CurlyBraceClose,
            Token::Else,
            Token::CurlyBraceOpen,
            Token::Identifier("b"),
            Token::Dot,
            Token::Identifier("what"),
            Token::Assign,
            Token::String("huh"),
            Token::CurlyBraceClose,
        ]
    );
}

fn spanned(source: &str) -> Vec<(Token<'_>, usize, usize)> {
    lex(source).into_iter().map(|t| (t.value, t.span.start, t.span.end)).collect()
}

#[test]
fn keyword_and_identifier_boundary() {
    assert_eq!(kinds("if"), &[Token::If]);
    assert_eq!(kinds("iffy"), &[Token::Identifier("iffy")]);
    assert_eq!(kinds("modulo mod"), &[Token::Identifier("modulo"), Token::Mod]);
    assert_eq!(kinds("truest true"), &[Token::Identifier("truest"), Token::Bool(true)]);
    assert_eq!(kinds("If"), &[Token::Identifier("If")]);
}

#[test]
fn string_literal_keeps_its_raw_text() {
    assert_eq!(kinds("\"huh\""), &[Token::String("huh")]);
    assert_eq!(kinds(r#""a\n\"b\\ é""#), &[Token::String(r#"a\n\"b\\ é"#)]);
    assert_eq!(kinds("\"\""), &[Token::String("")]);
    assert_eq!(kinds("\"é ∀\""), &[Token::String("é ∀")]);
}

#[test]
fn malformed_string_is_an_error_token() {
    assert_eq!(
        spanned("\"abc"),
        &[(Token::Error, 0, 1), (Token::Identifier("abc"), 1, 4)]
    );
    assert_eq!(kinds(r#""\q""#)[0], Token::Error);
    assert_eq!(kinds(r#""\u12""#)[0], Token::Error);
}

#[test]
fn numeric_disambiguation() {
    assert_eq!(kinds("0.5"), &[Token::Float("0.5")]);
    assert_eq!("0.5".parse::<f64>().unwrap(), 0.5);
    assert_eq!(kinds("10"), &[Token::Integer(10)]);
    assert_eq!(kinds("-3"), &[Token::Integer(-3)]);
    assert_eq!(kinds("-3.25"), &[Token::Float("-3.25")]);
    assert_eq!(kinds("- 3"), &[Token::Sub, Token::Integer(3)]);
    assert_eq!(kinds("a-3"), &[Token::Identifier("a"), Token::Integer(-3)]);
    assert_eq!(kinds("1."), &[Token::Integer(1), Token::Dot]);
    assert_eq!(kinds("1.5.2"), &[Token::Float("1.5"), Token::Dot, Token::Integer(2)]);
    assert_eq!(kinds("007"), &[Token::Integer(0), Token::Integer(0), Token::Integer(7)]);
    assert_eq!(kinds("0.50"), &[Token::Float("0.50")]);
    assert_eq!(kinds("1e5"), &[Token::Integer(1), Token::Identifier("e5")]);
}

#[test]
fn integer_limits() {
    assert_eq!(kinds("9223372036854775807"), &[Token::Integer(i64::MAX)]);
    assert_eq!(kinds("-9223372036854775808"), &[Token::Integer(i64::MIN)]);
    assert_eq!(spanned("9223372036854775808"), &[(Token::Error, 0, 19)]);
    assert_eq!(spanned("-9223372036854775809 nil"), &[(Token::Error, 0, 20), (Token::Nil, 21, 24)]);
    assert_eq!(kinds("99999999999999999999999999"), &[Token::Error]);
    assert_eq!(kinds("-0"), &[Token::Integer(0)]);
}

#[test]
fn spans_are_byte_offsets() {
    assert_eq!(
        spanned("  let é = \"ü\" // c\n  x"),
        &[
            (Token::Let, 2, 5),
            (Token::Identifier("é"), 6, 8),
            (Token::Assign, 9, 10),
            (Token::String("ü"), 11, 15),
            (Token::Identifier("x"), 23, 24),
        ]
    );
}

#[test]
fn longest_symbol_wins() {
    assert_eq!(
        kinds("<= < >= > == = => != ="),
        &[
            Token::LessOrEqual,
            Token::Less,
            Token::GreaterOrEqual,
            Token::Greater,
            Token::Equals,
            Token::Assign,
            Token::FatArrow,
            Token::NotEquals,
            Token::Assign,
        ]
    );
    assert_eq!(kinds("==="), &[Token::Equals, Token::Assign]);
    assert_eq!(kinds("<=>"), &[Token::LessOrEqual, Token::Greater]);
}

#[test]
fn unrecognized_input_is_an_error_token_and_lexing_goes_on() {
    assert_eq!(
        spanned("a @ b"),
        &[(Token::Identifier("a"), 0, 1), (Token::Error, 2, 3), (Token::Identifier("b"), 4, 5)]
    );
    assert_eq!(kinds("!"), &[Token::Error]);
    assert_eq!(kinds("#$"), &[Token::Error, Token::Error]);
}

#[test]
fn block_comments_and_line_ends() {
    assert_eq!(kinds("nil /* a */ nil /* b\n c */ nil"), &[Token::Nil, Token::Nil, Token::Nil]);
    assert_eq!(kinds("/**/nil"), &[Token::Nil]);
    assert_eq!(kinds("/*/ nil"), &[Token::Div, Token::Mul, Token::Div, Token::Nil]);
    assert_eq!(kinds("nil // to the end"), &[Token::Nil]);
    assert_eq!(kinds("a\r\nb\x0bc\x0cd"), &[
        Token::Identifier("a"),
        Token::Identifier("b"),
        Token::Identifier("c"),
        Token::Identifier("d"),
    ]);
    assert_eq!(kinds("a / b"), &[Token::Identifier("a"), Token::Div, Token::Identifier("b")]);
}

#[test]
fn every_fixed_spelling_lexes_to_its_token() {
    let all = [
        Token::Add, Token::Sub, Token::Mul, Token::Div, Token::Mod, Token::And, Token::Not,
        Token::Or, Token::Nor, Token::Less, Token::LessOrEqual, Token::Greater,
        Token::GreaterOrEqual, Token::Equals, Token::NotEquals, Token::Assign,
        Token::CurlyBraceOpen, Token::CurlyBraceClose, Token::BracketOpen, Token::BracketClose,
        Token::ParenOpen, Token::ParenClosed, Token::Colon, Token::Comma, Token::Dot,
        Token::Semicolon, Token::FatArrow, Token::Fn, Token::Nil, Token::Return, Token::If,
        Token::Unless, Token::Else, Token::While, Token::Until, Token::For, Token::In, Token::Do,
        Token::Let, Token::Var, Token::Bool(true), Token::Bool(false),
    ];
    for token in all {
        let text = token.to_string();
        assert_eq!(spanned(&text), &[(token.clone(), 0, text.len())], "{text}");
    }
}

#[test]
fn token_text() {
    assert_eq!(Token::Or.to_string(), "or");
    assert_eq!(Token::FatArrow.to_string(), "=>");
    assert_eq!(Token::Integer(-120).to_string(), "-120");
    assert_eq!(Token::Integer(0).to_string(), "0");
    assert_eq!(Token::Integer(i64::MIN).to_string(), "-9223372036854775808");
    assert_eq!(Token::Integer(i64::MAX).to_string(), "9223372036854775807");
    assert_eq!(Token::Float("0.5").to_string(), "0.5");
    assert_eq!(Token::String("huh").to_string(), "\"huh\"");
    assert_eq!(Token::Identifier("iffy").to_string(), "iffy");
    assert_eq!(Token::Bool(true).to_string(), "true");
    assert_eq!(Token::Error.to_string(), "[Error]");
}

#[test]
fn lexer_is_lazy_and_restartable() {
    let source = "let x = 1";
    let mut lexer = Lexer::new(source);
    assert_eq!(lexer.position(), 0);
    assert_eq!(lexer.next().map(|t| t.value), Some(Token::Let));
    assert_eq!(lexer.position(), 3);
    let mut again = Lexer::new(source);
    assert_eq!(again.next().map(|t| t.value), Some(Token::Let));
    assert_eq!(lexer.next().map(|t| t.value), Some(Token::Identifier("x")));
    assert_eq!(lexer.next().map(|t| t.value), Some(Token::Assign));
    assert_eq!(lexer.next().map(|t| t.value), Some(Token::Integer(1)));
    assert_eq!(lexer.next(), None);
    assert_eq!(lexer.next(), None);
    assert_eq!(lexer.position(), 9);
}
