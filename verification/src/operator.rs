//! The operators of the language, with their canonical spellings.

use vstd::prelude::*;
use vstd::string::StringExecFns;
use crate::token::TokenKind;

verus! {

/// Every operator of the language: the binary ones, `not` and `=`.
#[derive(Debug, PartialEq, Eq, Hash, Clone, Copy, Structural)]
pub enum Operator {
    Add,
    Sub,
    Mul,
    Div,
    Mod,
    And,
    Not,
    Or,
    Nor,
    Less,
    LessOrEqual,
    Greater,
    GreaterOrEqual,
    Equals,
    NotEquals,
    Assign,
}

impl Operator {
    /// The kind of the token that spells the operator.
    pub open spec fn token_kind(self) -> TokenKind {
        match self {
            Operator::Add => TokenKind::Add,
            Operator::Sub => TokenKind::Sub,
            Operator::Mul => TokenKind::Mul,
            Operator::Div => TokenKind::Div,
            Operator::Mod => TokenKind::Mod,
            Operator::And => TokenKind::And,
            Operator::Not => TokenKind::Not,
            Operator::Or => TokenKind::Or,
            Operator::Nor => TokenKind::Nor,
            Operator::Less => TokenKind::Less,
            Operator::LessOrEqual => TokenKind::LessOrEqual,
            Operator::Greater => TokenKind::Greater,
            Operator::GreaterOrEqual => TokenKind::GreaterOrEqual,
            Operator::Equals => TokenKind::Equals,
            Operator::NotEquals => TokenKind::NotEquals,
            Operator::Assign => TokenKind::Assign,
        }
    }

    /// The kind of the token that spells the operator.
    pub fn kind(self) -> (kind: TokenKind)
        ensures
            kind == self.token_kind(),
            kind.is_fixed(),
    {
        match self {
            Operator::Add => TokenKind::Add,
            Operator::Sub => TokenKind::Sub,
            Operator::Mul => TokenKind::Mul,
            Operator::Div => TokenKind::Div,
            Operator::Mod => TokenKind::Mod,
            Operator::And => TokenKind::And,
            Operator::Not => TokenKind::Not,
            Operator::Or => TokenKind::Or,
            Operator::Nor => TokenKind::Nor,
            Operator::Less => TokenKind::Less,
            Operator::LessOrEqual => TokenKind::LessOrEqual,
            Operator::Greater => TokenKind::Greater,
            Operator::GreaterOrEqual => TokenKind::GreaterOrEqual,
            Operator::Equals => TokenKind::Equals,
            Operator::NotEquals => TokenKind::NotEquals,
            Operator::Assign => TokenKind::Assign,
        }
    }

    /// The canonical spelling of the operator.
    pub fn to_string(&self) -> (text: String)
        ensures
            text@ == self.token_kind().spelling(),
    {
        match self.kind().text() {
            Some(text) => String::from_str(text),
            None => String::new(),
        }
    }
}

} // verus!
