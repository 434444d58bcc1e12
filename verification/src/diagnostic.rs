//! What a diagnostic tells: the token kinds that were expected and the
//! construct that was being read.

use vstd::prelude::*;
use crate::grammar::{operand_kinds, operator_kinds, statement_kinds, Diagnostic, Expectation};
use crate::token::TokenKind;

verus! {

/// The kinds of the binary operator tokens.
fn operators() -> (kinds: Vec<TokenKind>)
    ensures
        kinds@ == operator_kinds(),
{
    let kinds = vec![
        TokenKind::Or,
        TokenKind::Nor,
        TokenKind::And,
        TokenKind::Equals,
        TokenKind::NotEquals,
        TokenKind::Less,
        TokenKind::LessOrEqual,
        TokenKind::Greater,
        TokenKind::GreaterOrEqual,
        TokenKind::Add,
        TokenKind::Sub,
        TokenKind::Mul,
        TokenKind::Div,
        TokenKind::Mod,
    ];
    assert(kinds@ =~= operator_kinds());
    kinds
}

/// The kinds of the tokens that can start an expression.
fn operands() -> (kinds: Vec<TokenKind>)
    ensures
        kinds@ == operand_kinds(),
{
    let kinds = vec![
        TokenKind::Nil,
        TokenKind::Bool,
        TokenKind::Integer,
        TokenKind::Float,
        TokenKind::Identifier,
        TokenKind::ParenOpen,
        TokenKind::If,
        TokenKind::While,
        TokenKind::CurlyBraceOpen,
    ];
    assert(kinds@ =~= operand_kinds());
    kinds
}

/// `first`, then `second`.
fn joined(first: Vec<TokenKind>, second: Vec<TokenKind>) -> (kinds: Vec<TokenKind>)
    ensures
        kinds@ == first@ + second@,
{
    let mut kinds = first;
    let mut tail = second;
    kinds.append(&mut tail);
    kinds
}

/// The kinds of the tokens that can start a statement or close a block.
fn statements() -> (kinds: Vec<TokenKind>)
    ensures
        kinds@ == statement_kinds(),
{
    let kinds = joined(
        joined(vec![TokenKind::Let, TokenKind::Var], operands()),
        vec![TokenKind::CurlyBraceClose],
    );
    assert(kinds@ =~= statement_kinds());
    kinds
}

impl Expectation {
    /// The token kinds that would have been accepted.
    pub fn expected_kinds(self) -> (kinds: Vec<TokenKind>)
        ensures
            kinds@ == self.expected(),
    {
        let kinds = match self {
            Expectation::Function => vec![TokenKind::Fn],
            Expectation::ParameterList => vec![TokenKind::ParenOpen],
            Expectation::FirstParameter => vec![TokenKind::Identifier, TokenKind::ParenClosed],
            Expectation::NextParameter => vec![TokenKind::Identifier],
            Expectation::ParameterColon => vec![TokenKind::Colon],
            Expectation::ParameterType => vec![TokenKind::Identifier],
            Expectation::ParameterEnd => vec![TokenKind::Comma, TokenKind::ParenClosed],
            Expectation::ReturnOrBody => vec![TokenKind::FatArrow, TokenKind::CurlyBraceOpen],
            Expectation::ReturnType => vec![TokenKind::Identifier],
            Expectation::Body => vec![TokenKind::CurlyBraceOpen],
            Expectation::Operand => operands(),
            Expectation::ClosingParenthesis => joined(operators(), vec![TokenKind::ParenClosed]),
            Expectation::ConditionBlock => joined(operators(), vec![TokenKind::CurlyBraceOpen]),
            Expectation::Else => vec![TokenKind::Else],
            Expectation::ElseBlock => vec![TokenKind::CurlyBraceOpen],
            Expectation::FirstStatement => statements(),
            Expectation::NextStatement => joined(operators(), statements()),
            Expectation::NextStatementOrAssign => joined(
                joined(vec![TokenKind::Assign], operators()),
                statements(),
            ),
            Expectation::LetName => vec![TokenKind::Identifier],
            Expectation::LetAssign => vec![TokenKind::Assign],
            Expectation::Nesting => Vec::new(),
        };
        assert(kinds@ =~= self.expected());
        kinds
    }

    /// The name of the construct that was being read.
    pub fn context(self) -> (label: &'static str)
        ensures
            label@ == self.label(),
    {
        match self {
            Expectation::Function | Expectation::ParameterList | Expectation::ReturnOrBody =>
                "function",
            Expectation::FirstParameter
            | Expectation::NextParameter
            | Expectation::ParameterColon
            | Expectation::ParameterEnd => "parameters",
            Expectation::ParameterType | Expectation::ReturnType => "Type",
            Expectation::Body
            | Expectation::ConditionBlock
            | Expectation::ElseBlock
            | Expectation::FirstStatement
            | Expectation::NextStatement
            | Expectation::NextStatementOrAssign => "block",
            Expectation::Operand | Expectation::ClosingParenthesis => "expression",
            Expectation::Else => "if",
            Expectation::LetName | Expectation::LetAssign => "let",
            Expectation::Nesting => "nesting",
        }
    }
}

impl Diagnostic {
    /// The token kinds that would have been accepted in place of the
    /// refused token.
    pub fn expected(&self) -> (kinds: Vec<TokenKind>)
        ensures
            kinds@ == self.expectation.expected(),
    {
        self.expectation.expected_kinds()
    }

    /// The name of the construct that was being read.
    pub fn label(&self) -> (label: &'static str)
        ensures
            label@ == self.expectation.label(),
    {
        self.expectation.context()
    }
}

} // verus!
