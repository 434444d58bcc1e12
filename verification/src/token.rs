//! Tokens: the lexical units of the language, their kinds and their
//! canonical spellings.

use vstd::prelude::*;
use vstd::string::StringExecFns;
use crate::decimal::{integer_text, render_integer};

verus! {

/// The kind of a token, without any payload.
#[derive(Debug, Clone, Copy, PartialEq, Eq, Hash, Structural)]
pub enum TokenKind {
    Add,
    Sub,
    Mul,
    Div,
    Mod,
    And,
    Not,
    Or,
    Nor,
    Less,
    LessOrEqual,
    Greater,
    GreaterOrEqual,
    Equals,
    NotEquals,
    Assign,
    CurlyBraceOpen,
    CurlyBraceClose,
    BracketOpen,
    BracketClose,
    ParenOpen,
    ParenClosed,
    Colon,
    Comma,
    Dot,
    Semicolon,
    FatArrow,
    Bool,
    Float,
    Integer,
    String,
    Identifier,
    Fn,
    Nil,
    Return,
    If,
    Unless,
    Else,
    While,
    Until,
    For,
    In,
    Do,
    Let,
    Var,
    Error,
}

/// A token as produced by the lexer. Literal and identifier tokens borrow
/// their text from the source buffer.
#[derive(Debug, Clone, PartialEq)]
pub enum Token<'a> {
    Add,
    Sub,
    Mul,
    Div,
    Mod,
    And,
    Not,
    Or,
    Nor,
    Less,
    LessOrEqual,
    Greater,
    GreaterOrEqual,
    Equals,
    NotEquals,
    Assign,
    CurlyBraceOpen,
    CurlyBraceClose,
    BracketOpen,
    BracketClose,
    ParenOpen,
    ParenClosed,
    Colon,
    Comma,
    Dot,
    Semicolon,
    FatArrow,
    /// `true` or `false`.
    Bool(bool),
    /// The text of a numeric literal with a fractional part.
    Float(&'a str),
    /// The value of a numeric literal without a fractional part.
    Integer(i64),
    /// The raw text between the quotes of a string literal; escape
    /// sequences are left as written.
    String(&'a str),
    /// A name.
    Identifier(&'a str),
    Fn,
    Nil,
    Return,
    If,
    Unless,
    Else,
    While,
    Until,
    For,
    In,
    Do,
    Let,
    Var,
    /// Input that matches no token.
    Error,
}

/// The mathematical model of a token: text payloads are character sequences.
pub enum TokenView {
    Add,
    Sub,
    Mul,
    Div,
    Mod,
    And,
    Not,
    Or,
    Nor,
    Less,
    LessOrEqual,
    Greater,
    GreaterOrEqual,
    Equals,
    NotEquals,
    Assign,
    CurlyBraceOpen,
    CurlyBraceClose,
    BracketOpen,
    BracketClose,
    ParenOpen,
    ParenClosed,
    Colon,
    Comma,
    Dot,
    Semicolon,
    FatArrow,
    Bool(bool),
    Float(Seq<char>),
    Integer(i64),
    String(Seq<char>),
    Identifier(Seq<char>),
    Fn,
    Nil,
    Return,
    If,
    Unless,
    Else,
    While,
    Until,
    For,
    In,
    Do,
    Let,
    Var,
    Error,
}

impl<'a> View for Token<'a> {
    type V = TokenView;

    open spec fn view(&self) -> TokenView {
        match *self {
            Token::Add => TokenView::Add,
            Token::Sub => TokenView::Sub,
            Token::Mul => TokenView::Mul,
            Token::Div => TokenView::Div,
            Token::Mod => TokenView::Mod,
            Token::And => TokenView::And,
            Token::Not => TokenView::Not,
            Token::Or => TokenView::Or,
            Token::Nor => TokenView::Nor,
            Token::Less => TokenView::Less,
            Token::LessOrEqual => TokenView::LessOrEqual,
            Token::Greater => TokenView::Greater,
            Token::GreaterOrEqual => TokenView::GreaterOrEqual,
            Token::Equals => TokenView::Equals,
            Token::NotEquals => TokenView::NotEquals,
            Token::Assign => TokenView::Assign,
            Token::CurlyBraceOpen => TokenView::CurlyBraceOpen,
            Token::CurlyBraceClose => TokenView::CurlyBraceClose,
            Token::BracketOpen => TokenView::BracketOpen,
            Token::BracketClose => TokenView::BracketClose,
            Token::ParenOpen => TokenView::ParenOpen,
            Token::ParenClosed => TokenView::ParenClosed,
            Token::Colon => TokenView::Colon,
            Token::Comma => TokenView::Comma,
            Token::Dot => TokenView::Dot,
            Token::Semicolon => TokenView::Semicolon,
            Token::FatArrow => TokenView::FatArrow,
            Token::Bool(value) => TokenView::Bool(value),
            Token::Float(text) => TokenView::Float(text@),
            Token::Integer(value) => TokenView::Integer(value),
            Token::String(text) => TokenView::String(text@),
            Token::Identifier(text) => TokenView::Identifier(text@),
            Token::Fn => TokenView::Fn,
            Token::Nil => TokenView::Nil,
            Token::Return => TokenView::Return,
            Token::If => TokenView::If,
            Token::Unless => TokenView::Unless,
            Token::Else => TokenView::Else,
            Token::While => TokenView::While,
            Token::Until => TokenView::Until,
            Token::For => TokenView::For,
            Token::In => TokenView::In,
            Token::Do => TokenView::Do,
            Token::Let => TokenView::Let,
            Token::Var => TokenView::Var,
            Token::Error => TokenView::Error,
        }
    }
}

impl TokenView {
    /// The kind of this token.
    pub open spec fn kind(self) -> TokenKind {
        match self {
            TokenView::Add => TokenKind::Add,
            TokenView::Sub => TokenKind::Sub,
            TokenView::Mul => TokenKind::Mul,
            TokenView::Div => TokenKind::Div,
            TokenView::Mod => TokenKind::Mod,
            TokenView::And => TokenKind::And,
            TokenView::Not => TokenKind::Not,
            TokenView::Or => TokenKind::Or,
            TokenView::Nor => TokenKind::Nor,
            TokenView::Less => TokenKind::Less,
            TokenView::LessOrEqual => TokenKind::LessOrEqual,
            TokenView::Greater => TokenKind::Greater,
            TokenView::GreaterOrEqual => TokenKind::GreaterOrEqual,
            TokenView::Equals => TokenKind::Equals,
            TokenView::NotEquals => TokenKind::NotEquals,
            TokenView::Assign => TokenKind::Assign,
            TokenView::CurlyBraceOpen => TokenKind::CurlyBraceOpen,
            TokenView::CurlyBraceClose => TokenKind::CurlyBraceClose,
            TokenView::BracketOpen => TokenKind::BracketOpen,
            TokenView::BracketClose => TokenKind::BracketClose,
            TokenView::ParenOpen => TokenKind::ParenOpen,
            TokenView::ParenClosed => TokenKind::ParenClosed,
            TokenView::Colon => TokenKind::Colon,
            TokenView::Comma => TokenKind::Comma,
            TokenView::Dot => TokenKind::Dot,
            TokenView::Semicolon => TokenKind::Semicolon,
            TokenView::FatArrow => TokenKind::FatArrow,
            TokenView::Bool(_) => TokenKind::Bool,
            TokenView::Float(_) => TokenKind::Float,
            TokenView::Integer(_) => TokenKind::Integer,
            TokenView::String(_) => TokenKind::String,
            TokenView::Identifier(_) => TokenKind::Identifier,
            TokenView::Fn => TokenKind::Fn,
            TokenView::Nil => TokenKind::Nil,
            TokenView::Return => TokenKind::Return,
            TokenView::If => TokenKind::If,
            TokenView::Unless => TokenKind::Unless,
            TokenView::Else => TokenKind::Else,
            TokenView::While => TokenKind::While,
            TokenView::Until => TokenKind::Until,
            TokenView::For => TokenKind::For,
            TokenView::In => TokenKind::In,
            TokenView::Do => TokenKind::Do,
            TokenView::Let => TokenKind::Let,
            TokenView::Var => TokenKind::Var,
            TokenView::Error => TokenKind::Error,
        }
    }
}

impl<'a> Token<'a> {
    /// The kind of this token.
    pub fn kind(&self) -> (kind: TokenKind)
        ensures
            kind == self@.kind(),
    {
        match self {
            Token::Add => TokenKind::Add,
            Token::Sub => TokenKind::Sub,
            Token::Mul => TokenKind::Mul,
            Token::Div => TokenKind::Div,
            Token::Mod => TokenKind::Mod,
            Token::And => TokenKind::And,
            Token::Not => TokenKind::Not,
            Token::Or => TokenKind::Or,
            Token::Nor => TokenKind::Nor,
            Token::Less => TokenKind::Less,
            Token::LessOrEqual => TokenKind::LessOrEqual,
            Token::Greater => TokenKind::Greater,
            Token::GreaterOrEqual => TokenKind::GreaterOrEqual,
            Token::Equals => TokenKind::Equals,
            Token::NotEquals => TokenKind::NotEquals,
            Token::Assign => TokenKind::Assign,
            Token::CurlyBraceOpen => TokenKind::CurlyBraceOpen,
            Token::CurlyBraceClose => TokenKind::CurlyBraceClose,
            Token::BracketOpen => TokenKind::BracketOpen,
            Token::BracketClose => TokenKind::BracketClose,
            Token::ParenOpen => TokenKind::ParenOpen,
            Token::ParenClosed => TokenKind::ParenClosed,
            Token::Colon => TokenKind::Colon,
            Token::Comma => TokenKind::Comma,
            Token::Dot => TokenKind::Dot,
            Token::Semicolon => TokenKind::Semicolon,
            Token::FatArrow => TokenKind::FatArrow,
            Token::Bool(_) => TokenKind::Bool,
            Token::Float(_) => TokenKind::Float,
            Token::Integer(_) => TokenKind::Integer,
            Token::String(_) => TokenKind::String,
            Token::Identifier(_) => TokenKind::Identifier,
            Token::Fn => TokenKind::Fn,
            Token::Nil => TokenKind::Nil,
            Token::Return => TokenKind::Return,
            Token::If => TokenKind::If,
            Token::Unless => TokenKind::Unless,
            Token::Else => TokenKind::Else,
            Token::While => TokenKind::While,
            Token::Until => TokenKind::Until,
            Token::For => TokenKind::For,
            Token::In => TokenKind::In,
            Token::Do => TokenKind::Do,
            Token::Let => TokenKind::Let,
            Token::Var => TokenKind::Var,
            Token::Error => TokenKind::Error,
        }
    }
}

impl TokenKind {
    /// Whether every token of this kind is spelled the same way. Operators,
    /// punctuation and keywords are; literals, identifiers and errors are not.
    pub open spec fn is_fixed(self) -> bool {
        match self {
            TokenKind::Bool
            | TokenKind::Float
            | TokenKind::Integer
            | TokenKind::String
            | TokenKind::Identifier
            | TokenKind::Error => false,
            _ => true,
        }
    }

    /// The canonical spelling of a fixed kind; empty for the other kinds.
    pub open spec fn spelling(self) -> Seq<char> {
        match self {
            TokenKind::Add => "+"@,
            TokenKind::Sub => "-"@,
            TokenKind::Mul => "*"@,
            TokenKind::Div => "/"@,
            TokenKind::Mod => "mod"@,
            TokenKind::And => "and"@,
            TokenKind::Not => "not"@,
            TokenKind::Or => "or"@,
            TokenKind::Nor => "nor"@,
            TokenKind::Less => "<"@,
            TokenKind::LessOrEqual => "<="@,
            TokenKind::Greater => ">"@,
            TokenKind::GreaterOrEqual => ">="@,
            TokenKind::Equals => "=="@,
            TokenKind::NotEquals => "!="@,
            TokenKind::Assign => "="@,
            TokenKind::CurlyBraceOpen => "{"@,
            TokenKind::CurlyBraceClose => "}"@,
            TokenKind::BracketOpen => "["@,
            TokenKind::BracketClose => "]"@,
            TokenKind::ParenOpen => "("@,
            TokenKind::ParenClosed => ")"@,
            TokenKind::Colon => ":"@,
            TokenKind::Comma => ","@,
            TokenKind::Dot => "."@,
            TokenKind::Semicolon => ";"@,
            TokenKind::FatArrow => "=>"@,
            TokenKind::Fn => "fn"@,
            TokenKind::Nil => "nil"@,
            TokenKind::Return => "return"@,
            TokenKind::If => "if"@,
            TokenKind::Unless => "unless"@,
            TokenKind::Else => "else"@,
            TokenKind::While => "while"@,
            TokenKind::Until => "until"@,
            TokenKind::For => "for"@,
            TokenKind::In => "in"@,
            TokenKind::Do => "do"@,
            TokenKind::Let => "let"@,
            TokenKind::Var => "var"@,
            _ => Seq::empty(),
        }
    }

    /// The token of a fixed kind.
    pub open spec fn token(self) -> TokenView {
        match self {
            TokenKind::Add => TokenView::Add,
            TokenKind::Sub => TokenView::Sub,
            TokenKind::Mul => TokenView::Mul,
            TokenKind::Div => TokenView::Div,
            TokenKind::Mod => TokenView::Mod,
            TokenKind::And => TokenView::And,
            TokenKind::Not => TokenView::Not,
            TokenKind::Or => TokenView::Or,
            TokenKind::Nor => TokenView::Nor,
            TokenKind::Less => TokenView::Less,
            TokenKind::LessOrEqual => TokenView::LessOrEqual,
            TokenKind::Greater => TokenView::Greater,
            TokenKind::GreaterOrEqual => TokenView::GreaterOrEqual,
            TokenKind::Equals => TokenView::Equals,
            TokenKind::NotEquals => TokenView::NotEquals,
            TokenKind::Assign => TokenView::Assign,
            TokenKind::CurlyBraceOpen => TokenView::CurlyBraceOpen,
            TokenKind::CurlyBraceClose => TokenView::CurlyBraceClose,
            TokenKind::BracketOpen => TokenView::BracketOpen,
            TokenKind::BracketClose => TokenView::BracketClose,
            TokenKind::ParenOpen => TokenView::ParenOpen,
            TokenKind::ParenClosed => TokenView::ParenClosed,
            TokenKind::Colon => TokenView::Colon,
            TokenKind::Comma => TokenView::Comma,
            TokenKind::Dot => TokenView::Dot,
            TokenKind::Semicolon => TokenView::Semicolon,
            TokenKind::FatArrow => TokenView::FatArrow,
            TokenKind::Fn => TokenView::Fn,
            TokenKind::Nil => TokenView::Nil,
            TokenKind::Return => TokenView::Return,
            TokenKind::If => TokenView::If,
            TokenKind::Unless => TokenView::Unless,
            TokenKind::Else => TokenView::Else,
            TokenKind::While => TokenView::While,
            TokenKind::Until => TokenView::Until,
            TokenKind::For => TokenView::For,
            TokenKind::In => TokenView::In,
            TokenKind::Do => TokenView::Do,
            TokenKind::Let => TokenView::Let,
            TokenKind::Var => TokenView::Var,
            _ => TokenView::Error,
        }
    }

    /// The canonical spelling of a fixed kind, `None` for the other kinds.
    pub fn text(self) -> (text: Option<&'static str>)
        ensures
            text is Some == self.is_fixed(),
            text matches Some(t) ==> t@ == self.spelling(),
    {
        match self {
            TokenKind::Add => Some("+"),
            TokenKind::Sub => Some("-"),
            TokenKind::Mul => Some("*"),
            TokenKind::Div => Some("/"),
            TokenKind::Mod => Some("mod"),
            TokenKind::And => Some("and"),
            TokenKind::Not => Some("not"),
            TokenKind::Or => Some("or"),
            TokenKind::Nor => Some("nor"),
            TokenKind::Less => Some("<"),
            TokenKind::LessOrEqual => Some("<="),
            TokenKind::Greater => Some(">"),
            TokenKind::GreaterOrEqual => Some(">="),
            TokenKind::Equals => Some("=="),
            TokenKind::NotEquals => Some("!="),
            TokenKind::Assign => Some("="),
            TokenKind::CurlyBraceOpen => Some("{"),
            TokenKind::CurlyBraceClose => Some("}"),
            TokenKind::BracketOpen => Some("["),
            TokenKind::BracketClose => Some("]"),
            TokenKind::ParenOpen => Some("("),
            TokenKind::ParenClosed => Some(")"),
            TokenKind::Colon => Some(":"),
            TokenKind::Comma => Some(","),
            TokenKind::Dot => Some("."),
            TokenKind::Semicolon => Some(";"),
            TokenKind::FatArrow => Some("=>"),
            TokenKind::Fn => Some("fn"),
            TokenKind::Nil => Some("nil"),
            TokenKind::Return => Some("return"),
            TokenKind::If => Some("if"),
            TokenKind::Unless => Some("unless"),
            TokenKind::Else => Some("else"),
            TokenKind::While => Some("while"),
            TokenKind::Until => Some("until"),
            TokenKind::For => Some("for"),
            TokenKind::In => Some("in"),
            TokenKind::Do => Some("do"),
            TokenKind::Let => Some("let"),
            TokenKind::Var => Some("var"),
            _ => None,
        }
    }

    /// The token of a fixed kind; the error token for the other kinds.
    pub fn to_token(self) -> (token: Token<'static>)
        ensures
            token@ == self.token(),
    {
        match self {
            TokenKind::Add => Token::Add,
            TokenKind::Sub => Token::Sub,
            TokenKind::Mul => Token::Mul,
            TokenKind::Div => Token::Div,
            TokenKind::Mod => Token::Mod,
            TokenKind::And => Token::And,
            TokenKind::Not => Token::Not,
            TokenKind::Or => Token::Or,
            TokenKind::Nor => Token::Nor,
            TokenKind::Less => Token::Less,
            TokenKind::LessOrEqual => Token::LessOrEqual,
            TokenKind::Greater => Token::Greater,
            TokenKind::GreaterOrEqual => Token::GreaterOrEqual,
            TokenKind::Equals => Token::Equals,
            TokenKind::NotEquals => Token::NotEquals,
            TokenKind::Assign => Token::Assign,
            TokenKind::CurlyBraceOpen => Token::CurlyBraceOpen,
            TokenKind::CurlyBraceClose => Token::CurlyBraceClose,
            TokenKind::BracketOpen => Token::BracketOpen,
            TokenKind::BracketClose => Token::BracketClose,
            TokenKind::ParenOpen => Token::ParenOpen,
            TokenKind::ParenClosed => Token::ParenClosed,
            TokenKind::Colon => Token::Colon,
            TokenKind::Comma => Token::Comma,
            TokenKind::Dot => Token::Dot,
            TokenKind::Semicolon => Token::Semicolon,
            TokenKind::FatArrow => Token::FatArrow,
            TokenKind::Fn => Token::Fn,
            TokenKind::Nil => Token::Nil,
            TokenKind::Return => Token::Return,
            TokenKind::If => Token::If,
            TokenKind::Unless => Token::Unless,
            TokenKind::Else => Token::Else,
            TokenKind::While => Token::While,
            TokenKind::Until => Token::Until,
            TokenKind::For => Token::For,
            TokenKind::In => Token::In,
            TokenKind::Do => Token::Do,
            TokenKind::Let => Token::Let,
            TokenKind::Var => Token::Var,
            _ => Token::Error,
        }
    }
}

impl TokenView {
    /// The text of the token as it is shown to a reader: the canonical
    /// spelling of a fixed kind, the content of a literal or name (a string
    /// between quotes), and `[Error]` for an error token.
    pub open spec fn text(self) -> Seq<char> {
        match self {
            TokenView::Bool(value) => if value {
                "true"@
            } else {
                "false"@
            },
            TokenView::Float(text) => text,
            TokenView::Integer(value) => integer_text(value as int),
            TokenView::String(text) => "\""@ + text + "\""@,
            TokenView::Identifier(name) => name,
            TokenView::Error => "[Error]"@,
            _ => self.kind().spelling(),
        }
    }
}

impl<'a> Token<'a> {
    /// The text of the token as it is shown to a reader.
    pub fn to_string(&self) -> (text: String)
        ensures
            text@ == self@.text(),
    {
        match self {
            Token::Bool(value) => if *value {
                String::from_str("true")
            } else {
                String::from_str("false")
            },
            Token::Float(text) => String::from_str(text),
            Token::Integer(value) => render_integer(*value),
            Token::String(text) => {
                let mut quoted = String::from_str("\"");
                quoted.append(text);
                quoted.append("\"");
                quoted
            },
            Token::Identifier(name) => String::from_str(name),
            Token::Error => String::from_str("[Error]"),
            _ => match self.kind().text() {
                Some(text) => String::from_str(text),
                None => String::new(),
            },
        }
    }
}

} // verus!
