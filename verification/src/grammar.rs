//! The grammar of the language, as `spec` functions from a token
//! sequence to the tree or the failure that parsing it yields.
//!
//! ```text
//! Program    := Function*
//! Function   := 'fn' '(' ParamList? ')' ('=>' Type)? Block
//! ParamList  := Param (',' Param)*
//! Param      := Identifier ':' Type
//! Type       := Identifier
//! Block      := '{' Statement* Expression? '}'
//! Statement  := Let | Assignment | Expression
//! Let        := ('let' | 'var') Identifier '=' Expression
//! Assignment := Identifier '=' Expression
//! Expression := binary operators over Atom, all left-associative, binding
//!               from loosest to tightest: or nor; and; == !=; < <= > >=;
//!               + -; * / mod
//! Atom       := 'nil' | Bool | Integer | Float | Identifier
//!             | '(' Expression ')'
//!             | 'if' Expression Block 'else' Block
//!             | 'while' Expression Block
//!             | Block
//! ```
//!
//! An expression directly before the closing brace of a block is the value
//! of the block; every other expression in a block is a statement.

use vstd::prelude::*;
use crate::ast::{
    BinaryOperator, ExpressionView, FunctionView, Mutability, NumberView, ParameterView,
    StatementView, TypeView,
};
use crate::span::{Span, Spanned};
use crate::token::{TokenKind, TokenView};

verus! {

/// How deeply parentheses, blocks, `if` and `while` may nest.
pub const MAX_DEPTH: usize = 128;

/// The number of precedence tiers of binary operators.
pub const TIERS: usize = 6;

/// A place in the grammar at which a token can be refused. It determines
/// the token kinds that would have been accepted there.
#[derive(Debug, Clone, Copy, PartialEq, Eq, Structural)]
pub enum Expectation {
    /// The `fn` that starts a function.
    Function,
    /// The `(` that opens a parameter list.
    ParameterList,
    /// After `(`: a parameter name or `)`.
    FirstParameter,
    /// After `,`: a parameter name.
    NextParameter,
    /// After a parameter name: `:`.
    ParameterColon,
    /// After `:`: the name of the parameter's type.
    ParameterType,
    /// After a parameter: `,` or `)`.
    ParameterEnd,
    /// After the parameter list: `=>` or the `{` of the body.
    ReturnOrBody,
    /// After `=>`: the name of the return type.
    ReturnType,
    /// After the return type: the `{` of the body.
    Body,
    /// Where an expression must start.
    Operand,
    /// After an expression in parentheses: an operator or `)`.
    ClosingParenthesis,
    /// After the condition of `if` or `while`: an operator or `{`.
    ConditionBlock,
    /// After the first block of `if`: `else`.
    Else,
    /// After `else`: `{`.
    ElseBlock,
    /// After `{`: the start of a statement or `}`.
    FirstStatement,
    /// After a statement: an operator, the start of a statement or `}`.
    NextStatement,
    /// After a statement that is a lone name: as `NextStatement`, or `=`.
    NextStatementOrAssign,
    /// After `let` or `var`: the name to bind.
    LetName,
    /// After the name of a binding: `=`.
    LetAssign,
    /// Nesting went deeper than `MAX_DEPTH`; no token is accepted.
    Nesting,
}

/// The kinds of the binary operator tokens.
pub open spec fn operator_kinds() -> Seq<TokenKind> {
    seq![
        TokenKind::Or,
        TokenKind::Nor,
        TokenKind::And,
        TokenKind::Equals,
        TokenKind::NotEquals,
        TokenKind::Less,
        TokenKind::LessOrEqual,
        TokenKind::Greater,
        TokenKind::GreaterOrEqual,
        TokenKind::Add,
        TokenKind::Sub,
        TokenKind::Mul,
        TokenKind::Div,
        TokenKind::Mod,
    ]
}

/// The kinds of the tokens that can start an expression.
pub open spec fn operand_kinds() -> Seq<TokenKind> {
    seq![
        TokenKind::Nil,
        TokenKind::Bool,
        TokenKind::Integer,
        TokenKind::Float,
        TokenKind::Identifier,
        TokenKind::ParenOpen,
        TokenKind::If,
        TokenKind::While,
        TokenKind::CurlyBraceOpen,
    ]
}

/// The kinds of the tokens that can start a statement or close a block.
pub open spec fn statement_kinds() -> Seq<TokenKind> {
    seq![TokenKind::Let, TokenKind::Var] + operand_kinds() + seq![TokenKind::CurlyBraceClose]
}

impl Expectation {
    /// The token kinds that would have been accepted.
    pub open spec fn expected(self) -> Seq<TokenKind> {
        match self {
            Expectation::Function => seq![TokenKind::Fn],
            Expectation::ParameterList => seq![TokenKind::ParenOpen],
            Expectation::FirstParameter => seq![TokenKind::Identifier, TokenKind::ParenClosed],
            Expectation::NextParameter => seq![TokenKind::Identifier],
            Expectation::ParameterColon => seq![TokenKind::Colon],
            Expectation::ParameterType => seq![TokenKind::Identifier],
            Expectation::ParameterEnd => seq![TokenKind::Comma, TokenKind::ParenClosed],
            Expectation::ReturnOrBody => seq![TokenKind::FatArrow, TokenKind::CurlyBraceOpen],
            Expectation::ReturnType => seq![TokenKind::Identifier],
            Expectation::Body => seq![TokenKind::CurlyBraceOpen],
            Expectation::Operand => operand_kinds(),
            Expectation::ClosingParenthesis => operator_kinds() + seq![TokenKind::ParenClosed],
            Expectation::ConditionBlock => operator_kinds() + seq![TokenKind::CurlyBraceOpen],
            Expectation::Else => seq![TokenKind::Else],
            Expectation::ElseBlock => seq![TokenKind::CurlyBraceOpen],
            Expectation::FirstStatement => statement_kinds(),
            Expectation::NextStatement => operator_kinds() + statement_kinds(),
            Expectation::NextStatementOrAssign => seq![TokenKind::Assign] + operator_kinds()
                + statement_kinds(),
            Expectation::LetName => seq![TokenKind::Identifier],
            Expectation::LetAssign => seq![TokenKind::Assign],
            Expectation::Nesting => Seq::empty(),
        }
    }

    /// The name of the construct that was being read.
    pub open spec fn label(self) -> Seq<char> {
        match self {
            Expectation::Function | Expectation::ParameterList | Expectation::ReturnOrBody =>
                "function"@,
            Expectation::FirstParameter
            | Expectation::NextParameter
            | Expectation::ParameterColon
            | Expectation::ParameterEnd => "parameters"@,
            Expectation::ParameterType | Expectation::ReturnType => "Type"@,
            Expectation::Body
            | Expectation::ConditionBlock
            | Expectation::ElseBlock
            | Expectation::FirstStatement
            | Expectation::NextStatement
            | Expectation::NextStatementOrAssign => "block"@,
            Expectation::Operand | Expectation::ClosingParenthesis => "expression"@,
            Expectation::Else => "if"@,
            Expectation::LetName | Expectation::LetAssign => "let"@,
            Expectation::Nesting => "nesting"@,
        }
    }
}

/// Why and where parsing stopped: the index of the refused token (the number
/// of tokens when the input ended too early) and what was expected there.
pub struct Failure {
    pub at: int,
    pub expectation: Expectation,
}

/// What parsing one construct from a given token yields. A construct is
/// never empty: `more` counts the tokens it holds beyond its first.
pub enum Parsed<T> {
    Done { value: T, more: nat },
    Failed(Failure),
}

/// A failure at token `at`.
pub open spec fn refuse<T>(at: int, expectation: Expectation) -> Parsed<T> {
    Parsed::Failed(Failure { at, expectation })
}

/// The kind of the token at index `at`, if there is one.
pub open spec fn kind_at(tokens: Seq<Spanned<TokenView>>, at: int) -> Option<TokenKind> {
    if 0 <= at < tokens.len() {
        Some(tokens[at].value.kind())
    } else {
        None
    }
}

/// The binary operator that a token kind denotes, if any.
pub open spec fn operator_of(kind: TokenKind) -> Option<BinaryOperator> {
    match kind {
        TokenKind::Add => Some(BinaryOperator::Add),
        TokenKind::Sub => Some(BinaryOperator::Sub),
        TokenKind::Mul => Some(BinaryOperator::Mul),
        TokenKind::Div => Some(BinaryOperator::Div),
        TokenKind::Mod => Some(BinaryOperator::Mod),
        TokenKind::And => Some(BinaryOperator::And),
        TokenKind::Or => Some(BinaryOperator::Or),
        TokenKind::Nor => Some(BinaryOperator::Nor),
        TokenKind::Less => Some(BinaryOperator::Less),
        TokenKind::LessOrEqual => Some(BinaryOperator::LessOrEqual),
        TokenKind::Greater => Some(BinaryOperator::Greater),
        TokenKind::GreaterOrEqual => Some(BinaryOperator::GreaterOrEqual),
        TokenKind::Equals => Some(BinaryOperator::Equals),
        TokenKind::NotEquals => Some(BinaryOperator::NotEquals),
        _ => None,
    }
}

/// The precedence tier of an operator: 0 binds loosest, 5 tightest.
pub open spec fn tier_of(operator: BinaryOperator) -> nat {
    match operator {
        BinaryOperator::Or | BinaryOperator::Nor => 0,
        BinaryOperator::And => 1,
        BinaryOperator::Equals | BinaryOperator::NotEquals => 2,
        BinaryOperator::Less
        | BinaryOperator::LessOrEqual
        | BinaryOperator::Greater
        | BinaryOperator::GreaterOrEqual => 3,
        BinaryOperator::Add | BinaryOperator::Sub => 4,
        BinaryOperator::Mul | BinaryOperator::Div | BinaryOperator::Mod => 5,
    }
}

/// The operator of tier `tier` at index `at`, if there is one.
pub open spec fn operator_at(tokens: Seq<Spanned<TokenView>>, at: int, tier: nat) -> Option<
    BinaryOperator,
> {
    match kind_at(tokens, at) {
        Some(kind) => match operator_of(kind) {
            Some(operator) if tier_of(operator) == tier => Some(operator),
            _ => None,
        },
        None => None,
    }
}

/// Whether a token of this kind can start an expression.
pub open spec fn starts_operand(kind: TokenKind) -> bool {
    match kind {
        TokenKind::Nil
        | TokenKind::Bool
        | TokenKind::Integer
        | TokenKind::Float
        | TokenKind::Identifier
        | TokenKind::ParenOpen
        | TokenKind::If
        | TokenKind::While
        | TokenKind::CurlyBraceOpen => true,
        _ => false,
    }
}

/// The number of tokens from index `at` to the end of the input.
pub open spec fn rest(tokens: Seq<Spanned<TokenView>>, at: int) -> nat {
    if 0 <= at < tokens.len() {
        (tokens.len() - at) as nat
    } else {
        0
    }
}

/// The span from the start of `first` to the end of `last`.
pub open spec fn cover(first: Span, last: Span) -> Span {
    Span { start: first.start, end: last.end }
}

/// The empty span at offset `at`.
pub open spec fn empty_span(at: usize) -> Span {
    Span { start: at, end: at }
}

/// The statements and the value of a block, and the span of its closing
/// brace.
pub struct BlockBody {
    pub statements: Seq<Spanned<StatementView>>,
    pub eval: Spanned<ExpressionView>,
    pub close: Span,
}

/// One step through the inside of a block.
pub enum Item {
    /// A statement, and what to report if the token after it is refused.
    Statement { statement: Spanned<StatementView>, next: Expectation },
    /// The end of the block: its value and the span of its closing brace.
    Close { eval: Spanned<ExpressionView>, close: Span },
}

/// The expression that starts at token `at`, with `depth` levels of nesting
/// still allowed.
#[verifier::opaque]
pub open spec fn expression(tokens: Seq<Spanned<TokenView>>, at: int, depth: nat) -> Parsed<
    Spanned<ExpressionView>,
>
    decreases rest(tokens, at), 50nat,
{
    binary(tokens, at, depth, 0)
}

/// The expression of precedence tier `tier` or tighter that starts at `at`:
/// an operand of the next tier, then every operator of this tier with its
/// right operand, folded to the left.
#[verifier::opaque]
pub open spec fn binary(tokens: Seq<Spanned<TokenView>>, at: int, depth: nat, tier: nat) -> Parsed<
    Spanned<ExpressionView>,
>
    decreases rest(tokens, at), if tier < TIERS { 20 + 2 * (TIERS - tier) } else { 20 },
{
    if at < 0 || at >= tokens.len() {
        refuse(at, Expectation::Operand)
    } else if tier >= TIERS {
        atom(tokens, at, depth)
    } else {
        match binary(tokens, at, depth, tier + 1) {
            Parsed::Done { value, more } => binary_tail(tokens, at, depth, tier, value, more),
            Parsed::Failed(failure) => Parsed::Failed(failure),
        }
    }
}

/// The node for `lhs operator rhs`.
pub open spec fn binary_node(
    lhs: Spanned<ExpressionView>,
    operator: BinaryOperator,
    rhs: Spanned<ExpressionView>,
) -> Spanned<ExpressionView> {
    Spanned {
        value: ExpressionView::Binary { lhs: Box::new(lhs), operator, rhs: Box::new(rhs) },
        span: cover(lhs.span, rhs.span),
    }
}

/// Continues the expression of tier `tier` that started at `start` and holds
/// `lhs` so far, which ends `more` tokens after `start`.
#[verifier::opaque]
pub open spec fn binary_tail(
    tokens: Seq<Spanned<TokenView>>,
    start: int,
    depth: nat,
    tier: nat,
    lhs: Spanned<ExpressionView>,
    more: nat,
) -> Parsed<Spanned<ExpressionView>>
    decreases rest(tokens, start + 1 + more), 0nat,
{
    let at = start + 1 + more;
    match operator_at(tokens, at, tier) {
        Some(operator) => match binary(tokens, at + 1, depth, tier + 1) {
            Parsed::Done { value: rhs, more: rhs_more } => binary_tail(
                tokens,
                start,
                depth,
                tier,
                binary_node(lhs, operator, rhs),
                more + 2 + rhs_more,
            ),
            Parsed::Failed(failure) => Parsed::Failed(failure),
        },
        None => Parsed::Done { value: lhs, more },
    }
}

/// The expression that a single literal or name token denotes, if any.
pub open spec fn leaf(token: TokenView) -> Option<ExpressionView> {
    match token {
        TokenView::Nil => Some(ExpressionView::Nil),
        TokenView::Bool(value) => Some(ExpressionView::Bool(value)),
        TokenView::Integer(value) => Some(ExpressionView::Number(NumberView::Integer(value))),
        TokenView::Float(text) => Some(ExpressionView::Number(NumberView::Decimal(text))),
        TokenView::Identifier(name) => Some(ExpressionView::Ident(name)),
        _ => None,
    }
}

/// The operand that starts at `at`: a literal, a name, an expression in
/// parentheses, an `if`, a `while` or a block.
#[verifier::opaque]
pub open spec fn atom(tokens: Seq<Spanned<TokenView>>, at: int, depth: nat) -> Parsed<
    Spanned<ExpressionView>,
>
    decreases rest(tokens, at), 10nat,
{
    if at < 0 || at >= tokens.len() {
        refuse(at, Expectation::Operand)
    } else if leaf(tokens[at].value) is Some {
        Parsed::Done {
            value: Spanned { value: leaf(tokens[at].value)->0, span: tokens[at].span },
            more: 0,
        }
    } else {
        match tokens[at].value.kind() {
            TokenKind::ParenOpen => parenthesized(tokens, at, depth),
            TokenKind::If => conditional(tokens, at, depth),
            TokenKind::While => repetition(tokens, at, depth),
            TokenKind::CurlyBraceOpen => block(tokens, at, depth, Expectation::Operand),
            _ => refuse(at, Expectation::Operand),
        }
    }
}

/// The expression in parentheses whose `(` is at `at`. Its span is that of
/// the expression inside.
#[verifier::opaque]
pub open spec fn parenthesized(tokens: Seq<Spanned<TokenView>>, at: int, depth: nat) -> Parsed<
    Spanned<ExpressionView>,
>
    decreases rest(tokens, at), 8nat,
{
    if at < 0 || at >= tokens.len() {
        refuse(at, Expectation::Operand)
    } else if depth == 0 {
        refuse(at, Expectation::Nesting)
    } else {
        match expression(tokens, at + 1, (depth - 1) as nat) {
            Parsed::Done { value, more } => if kind_at(tokens, at + 2 + more) == Some(
                TokenKind::ParenClosed,
            ) {
                Parsed::Done { value, more: more + 2 }
            } else {
                refuse(at + 2 + more, Expectation::ClosingParenthesis)
            },
            Parsed::Failed(failure) => Parsed::Failed(failure),
        }
    }
}

/// The `if` expression whose `if` is at `at`.
#[verifier::opaque]
pub open spec fn conditional(tokens: Seq<Spanned<TokenView>>, at: int, depth: nat) -> Parsed<
    Spanned<ExpressionView>,
>
    decreases rest(tokens, at), 8nat,
{
    if at < 0 || at >= tokens.len() {
        refuse(at, Expectation::Operand)
    } else if depth == 0 {
        refuse(at, Expectation::Nesting)
    } else {
        let inner = (depth - 1) as nat;
        match expression(tokens, at + 1, inner) {
            Parsed::Done { value: condition, more: c } => match block(
                tokens,
                at + 2 + c,
                inner,
                Expectation::ConditionBlock,
            ) {
                Parsed::Done { value: then, more: t } => if kind_at(tokens, at + 3 + c + t)
                    != Some(TokenKind::Else) {
                    refuse(at + 3 + c + t, Expectation::Else)
                } else {
                    match block(tokens, at + 4 + c + t, inner, Expectation::ElseBlock) {
                        Parsed::Done { value: or_else, more: e } => Parsed::Done {
                            value: Spanned {
                                value: ExpressionView::If {
                                    condition: Box::new(condition),
                                    then: Box::new(then),
                                    or_else: Box::new(or_else),
                                },
                                span: cover(tokens[at].span, or_else.span),
                            },
                            more: 4 + c + t + e,
                        },
                        Parsed::Failed(failure) => Parsed::Failed(failure),
                    }
                },
                Parsed::Failed(failure) => Parsed::Failed(failure),
            },
            Parsed::Failed(failure) => Parsed::Failed(failure),
        }
    }
}

/// The `while` expression whose `while` is at `at`.
#[verifier::opaque]
pub open spec fn repetition(tokens: Seq<Spanned<TokenView>>, at: int, depth: nat) -> Parsed<
    Spanned<ExpressionView>,
>
    decreases rest(tokens, at), 8nat,
{
    if at < 0 || at >= tokens.len() {
        refuse(at, Expectation::Operand)
    } else if depth == 0 {
        refuse(at, Expectation::Nesting)
    } else {
        let inner = (depth - 1) as nat;
        match expression(tokens, at + 1, inner) {
            Parsed::Done { value: condition, more: c } => match block(
                tokens,
                at + 2 + c,
                inner,
                Expectation::ConditionBlock,
            ) {
                Parsed::Done { value: then, more: t } => Parsed::Done {
                    value: Spanned {
                        value: ExpressionView::While {
                            condition: Box::new(condition),
                            then: Box::new(then),
                        },
                        span: cover(tokens[at].span, then.span),
                    },
                    more: 2 + c + t,
                },
                Parsed::Failed(failure) => Parsed::Failed(failure),
            },
            Parsed::Failed(failure) => Parsed::Failed(failure),
        }
    }
}

/// The block that starts at `at`. `expectation` names what is reported when
/// the token there is no `{`.
#[verifier::opaque]
pub open spec fn block(
    tokens: Seq<Spanned<TokenView>>,
    at: int,
    depth: nat,
    expectation: Expectation,
) -> Parsed<Spanned<ExpressionView>>
    decreases rest(tokens, at), 5nat,
{
    if kind_at(tokens, at) != Some(TokenKind::CurlyBraceOpen) {
        refuse(at, expectation)
    } else if depth == 0 {
        refuse(at, Expectation::Nesting)
    } else {
        match block_items(
            tokens,
            at,
            (depth - 1) as nat,
            Seq::empty(),
            0,
            Expectation::FirstStatement,
        ) {
            Parsed::Done { value: body, more } => Parsed::Done {
                value: Spanned {
                    value: ExpressionView::Block {
                        statements: body.statements,
                        eval: Box::new(body.eval),
                    },
                    span: cover(tokens[at].span, body.close),
                },
                more,
            },
            Parsed::Failed(failure) => Parsed::Failed(failure),
        }
    }
}

/// Continues the block whose `{` is at `open` and that holds `statements` so
/// far, `more` tokens after the brace. `expectation` names what is reported
/// when the next token can neither start a statement nor close the block.
#[verifier::opaque]
pub open spec fn block_items(
    tokens: Seq<Spanned<TokenView>>,
    open: int,
    depth: nat,
    statements: Seq<Spanned<StatementView>>,
    more: nat,
    expectation: Expectation,
) -> Parsed<BlockBody>
    decreases rest(tokens, open + 1 + more), 70nat,
{
    let at = open + 1 + more;
    if at < 0 || at >= tokens.len() {
        refuse(at, expectation)
    } else {
        match item(tokens, at, depth, expectation) {
            Parsed::Done { value: Item::Close { eval, close }, more: m } => Parsed::Done {
                value: BlockBody { statements, eval, close },
                more: more + 1 + m,
            },
            Parsed::Done { value: Item::Statement { statement, next }, more: m } => block_items(
                tokens,
                open,
                depth,
                statements.push(statement),
                more + 1 + m,
                next,
            ),
            Parsed::Failed(failure) => Parsed::Failed(failure),
        }
    }
}

/// The value of a block without a trailing expression: the unit value, with
/// the empty span right before the closing brace.
pub open spec fn unit_before(close: Span) -> Spanned<ExpressionView> {
    Spanned { value: ExpressionView::Unit, span: empty_span(close.start) }
}

/// The next step through a block, from token `at`: its closing brace; a
/// binding; an assignment; or an expression, which is the value of the
/// block when the closing brace follows it and a statement otherwise.
#[verifier::opaque]
pub open spec fn item(
    tokens: Seq<Spanned<TokenView>>,
    at: int,
    depth: nat,
    expectation: Expectation,
) -> Parsed<Item>
    decreases rest(tokens, at), 60nat,
{
    if at < 0 || at >= tokens.len() {
        refuse(at, expectation)
    } else {
        let kind = tokens[at].value.kind();
        if kind == TokenKind::CurlyBraceClose {
            Parsed::Done {
                value: Item::Close { eval: unit_before(tokens[at].span), close: tokens[at].span },
                more: 0,
            }
        } else if kind == TokenKind::Let || kind == TokenKind::Var {
            match binding(tokens, at, depth) {
                Parsed::Done { value, more } => Parsed::Done {
                    value: Item::Statement { statement: value, next: Expectation::NextStatement },
                    more,
                },
                Parsed::Failed(failure) => Parsed::Failed(failure),
            }
        } else if kind == TokenKind::Identifier && kind_at(tokens, at + 1) == Some(
            TokenKind::Assign,
        ) {
            match assignment(tokens, at, depth) {
                Parsed::Done { value, more } => Parsed::Done {
                    value: Item::Statement { statement: value, next: Expectation::NextStatement },
                    more,
                },
                Parsed::Failed(failure) => Parsed::Failed(failure),
            }
        } else if !starts_operand(kind) {
            refuse(at, expectation)
        } else {
            match expression(tokens, at, depth) {
                Parsed::Done { value, more } => if kind_at(tokens, at + 1 + more) == Some(
                    TokenKind::CurlyBraceClose,
                ) {
                    Parsed::Done {
                        value: Item::Close { eval: value, close: tokens[at + 1 + more].span },
                        more: more + 1,
                    }
                } else {
                    Parsed::Done {
                        value: Item::Statement {
                            statement: Spanned {
                                value: StatementView::Expression(value.value),
                                span: value.span,
                            },
                            next: if kind == TokenKind::Identifier && more == 0 {
                                Expectation::NextStatementOrAssign
                            } else {
                                Expectation::NextStatement
                            },
                        },
                        more,
                    }
                },
                Parsed::Failed(failure) => Parsed::Failed(failure),
            }
        }
    }
}

/// The binding whose `let` or `var` is at `at`.
#[verifier::opaque]
pub open spec fn binding(tokens: Seq<Spanned<TokenView>>, at: int, depth: nat) -> Parsed<
    Spanned<StatementView>,
>
    decreases rest(tokens, at), 55nat,
{
    if at < 0 || at >= tokens.len() {
        refuse(at, Expectation::FirstStatement)
    } else if kind_at(tokens, at + 1) != Some(TokenKind::Identifier) {
        refuse(at + 1, Expectation::LetName)
    } else if kind_at(tokens, at + 2) != Some(TokenKind::Assign) {
        refuse(at + 2, Expectation::LetAssign)
    } else {
        match expression(tokens, at + 3, depth) {
            Parsed::Done { value: initializer, more } => Parsed::Done {
                value: Spanned {
                    value: StatementView::Let {
                        identifier: tokens[at + 1].value->Identifier_0,
                        mutability: if tokens[at].value.kind() == TokenKind::Var {
                            Mutability::Mutable
                        } else {
                            Mutability::Immutable
                        },
                        initializer,
                    },
                    span: cover(tokens[at].span, initializer.span),
                },
                more: more + 3,
            },
            Parsed::Failed(failure) => Parsed::Failed(failure),
        }
    }
}

/// The assignment whose name is at `at` and whose `=` is right after it.
#[verifier::opaque]
pub open spec fn assignment(tokens: Seq<Spanned<TokenView>>, at: int, depth: nat) -> Parsed<
    Spanned<StatementView>,
>
    decreases rest(tokens, at), 55nat,
{
    if at < 0 || at >= tokens.len() {
        refuse(at, Expectation::FirstStatement)
    } else {
        match expression(tokens, at + 2, depth) {
            Parsed::Done { value: rhs, more } => Parsed::Done {
                value: Spanned {
                    value: StatementView::Assignment {
                        lhs: tokens[at].value->Identifier_0,
                        rhs,
                    },
                    span: cover(tokens[at].span, rhs.span),
                },
                more: more + 2,
            },
            Parsed::Failed(failure) => Parsed::Failed(failure),
        }
    }
}

/// Continues the parameter list whose `(` is at `open` and that holds
/// `parameters` so far, `more` tokens after the parenthesis. `expectation`
/// is `FirstParameter` right after `(`, where the list may end, and
/// `NextParameter` after a comma, where a parameter must follow.
#[verifier::opaque]
pub open spec fn parameter_list(
    tokens: Seq<Spanned<TokenView>>,
    open: int,
    parameters: Seq<ParameterView>,
    more: nat,
    expectation: Expectation,
) -> Parsed<Seq<ParameterView>>
    decreases rest(tokens, open + 1 + more),
{
    let at = open + 1 + more;
    if expectation == Expectation::FirstParameter && kind_at(tokens, at) == Some(
        TokenKind::ParenClosed,
    ) {
        Parsed::Done { value: parameters, more: more + 1 }
    } else if kind_at(tokens, at) != Some(TokenKind::Identifier) {
        refuse(at, expectation)
    } else if kind_at(tokens, at + 1) != Some(TokenKind::Colon) {
        refuse(at + 1, Expectation::ParameterColon)
    } else if kind_at(tokens, at + 2) != Some(TokenKind::Identifier) {
        refuse(at + 2, Expectation::ParameterType)
    } else {
        let parameter = ParameterView {
            name: Spanned { value: tokens[at].value->Identifier_0, span: tokens[at].span },
            ty: Spanned {
                value: TypeView::Named(tokens[at + 2].value->Identifier_0),
                span: tokens[at + 2].span,
            },
        };
        match kind_at(tokens, at + 3) {
            Some(TokenKind::ParenClosed) => Parsed::Done {
                value: parameters.push(parameter),
                more: more + 4,
            },
            Some(TokenKind::Comma) => parameter_list(
                tokens,
                open,
                parameters.push(parameter),
                more + 4,
                Expectation::NextParameter,
            ),
            _ => refuse(at + 3, Expectation::ParameterEnd),
        }
    }
}

/// The return type of a function that declares none: the type named `unit`,
/// with the empty span at the end of the parameter list.
pub open spec fn default_return(close: Span) -> Spanned<TypeView> {
    Spanned { value: TypeView::Named("unit"@), span: empty_span(close.end) }
}

/// The function whose `fn` is at `at`.
#[verifier::opaque]
pub open spec fn function(tokens: Seq<Spanned<TokenView>>, at: int) -> Parsed<FunctionView> {
    if kind_at(tokens, at) != Some(TokenKind::Fn) {
        refuse(at, Expectation::Function)
    } else if kind_at(tokens, at + 1) != Some(TokenKind::ParenOpen) {
        refuse(at + 1, Expectation::ParameterList)
    } else {
        match parameter_list(tokens, at + 1, Seq::empty(), 0, Expectation::FirstParameter) {
            Parsed::Done { value: parameters, more } => {
                let after = at + 2 + more;
                if kind_at(tokens, after) == Some(TokenKind::FatArrow) {
                    if kind_at(tokens, after + 1) != Some(TokenKind::Identifier) {
                        refuse(after + 1, Expectation::ReturnType)
                    } else {
                        function_body(
                            tokens,
                            at,
                            parameters,
                            Spanned {
                                value: TypeView::Named(tokens[after + 1].value->Identifier_0),
                                span: tokens[after + 1].span,
                            },
                            after + 2,
                            Expectation::Body,
                        )
                    }
                } else {
                    function_body(
                        tokens,
                        at,
                        parameters,
                        default_return(tokens[after - 1].span),
                        after,
                        Expectation::ReturnOrBody,
                    )
                }
            },
            Parsed::Failed(failure) => Parsed::Failed(failure),
        }
    }
}

/// Completes the function whose `fn` is at `at` with the body that starts at
/// `body_at`.
#[verifier::opaque]
pub open spec fn function_body(
    tokens: Seq<Spanned<TokenView>>,
    at: int,
    parameters: Seq<ParameterView>,
    return_type: Spanned<TypeView>,
    body_at: int,
    expectation: Expectation,
) -> Parsed<FunctionView> {
    match block(tokens, body_at, MAX_DEPTH as nat, expectation) {
        Parsed::Done { value: body, more } => Parsed::Done {
            value: FunctionView {
                parameters,
                returns: return_type,
                body,
                span: cover(tokens[at].span, body.span),
            },
            more: (body_at + more - at) as nat,
        },
        Parsed::Failed(failure) => Parsed::Failed(failure),
    }
}

/// A report of one syntax error: the span of the refused token (the empty
/// span at the end of the input when the input ended too early) and what
/// was expected in its place.
#[derive(Debug, Clone, Copy, PartialEq, Eq, Structural)]
pub struct Diagnostic {
    pub span: Span,
    pub expectation: Expectation,
}

/// The empty span at the end of the last token.
pub open spec fn end_of_input(tokens: Seq<Spanned<TokenView>>) -> Span {
    if tokens.len() == 0 {
        empty_span(0)
    } else {
        empty_span(tokens.last().span.end)
    }
}

/// The diagnostic that reports `failure`.
pub open spec fn diagnostic(tokens: Seq<Spanned<TokenView>>, failure: Failure) -> Diagnostic {
    Diagnostic {
        span: if 0 <= failure.at < tokens.len() {
            tokens[failure.at].span
        } else {
            end_of_input(tokens)
        },
        expectation: failure.expectation,
    }
}

/// The index of the first `fn` at or after `from`, or the number of tokens
/// when there is none: where parsing resumes after a failure.
pub open spec fn resume(tokens: Seq<Spanned<TokenView>>, from: int) -> int
    decreases rest(tokens, from),
{
    if 0 <= from < tokens.len() && tokens[from].value.kind() != TokenKind::Fn {
        resume(tokens, from + 1)
    } else {
        from
    }
}

/// What parsing a token sequence yields: the functions that were read in
/// full and a diagnostic for each stretch of input that was not, both in
/// source order.
pub struct Outcome {
    pub functions: Seq<FunctionView>,
    pub diagnostics: Seq<Diagnostic>,
}

/// The larger of two indices.
pub open spec fn later(a: int, b: int) -> int {
    if a >= b {
        a
    } else {
        b
    }
}

/// Parses the functions from token `at` on. A function that is read in full
/// is kept. Where one fails, the failure is reported and parsing resumes at
/// the next `fn` at or after the refused token, skipping at least one token.
#[verifier::opaque]
pub open spec fn functions_from(tokens: Seq<Spanned<TokenView>>, at: int) -> Outcome
    decreases rest(tokens, at),
{
    if at < 0 || at >= tokens.len() {
        Outcome { functions: Seq::empty(), diagnostics: Seq::empty() }
    } else {
        match function(tokens, at) {
            Parsed::Done { value, more } => {
                let rest = functions_from(tokens, at + 1 + more);
                Outcome {
                    functions: seq![value] + rest.functions,
                    diagnostics: rest.diagnostics,
                }
            },
            Parsed::Failed(failure) => {
                proof {
                    lemma_resume_bounds(tokens, later(failure.at, at + 1));
                }
                let rest = functions_from(tokens, resume(tokens, later(failure.at, at + 1)));
                Outcome {
                    functions: rest.functions,
                    diagnostics: seq![diagnostic(tokens, failure)] + rest.diagnostics,
                }
            },
        }
    }
}

/// What parsing a whole token sequence yields.
pub open spec fn parse(tokens: Seq<Spanned<TokenView>>) -> Outcome {
    functions_from(tokens, 0)
}

/// Resuming never moves backwards, and stops at a `fn` or at the end.
pub proof fn lemma_resume_bounds(tokens: Seq<Spanned<TokenView>>, from: int)
    ensures
        from <= resume(tokens, from),
        0 <= from <= tokens.len() ==> resume(tokens, from) <= tokens.len(),
        kind_at(tokens, resume(tokens, from)) is Some ==> kind_at(tokens, resume(tokens, from))
            == Some(TokenKind::Fn),
    decreases rest(tokens, from),
{
    if 0 <= from < tokens.len() && tokens[from].value.kind() != TokenKind::Fn {
        lemma_resume_bounds(tokens, from + 1);
    }
}

/// One step of `block_items`: what it is in terms of the next item.
pub proof fn lemma_block_items_step(
    tokens: Seq<Spanned<TokenView>>,
    open: int,
    depth: nat,
    statements: Seq<Spanned<StatementView>>,
    more: nat,
    expectation: Expectation,
)
    requires
        0 <= open + 1 + more < tokens.len(),
    ensures
        block_items(tokens, open, depth, statements, more, expectation) == match item(
            tokens,
            open + 1 + more,
            depth,
            expectation,
        ) {
            Parsed::Done { value: Item::Close { eval, close }, more: m } => Parsed::Done {
                value: BlockBody { statements, eval, close },
                more: more + 1 + m,
            },
            Parsed::Done { value: Item::Statement { statement, next }, more: m } => block_items(
                tokens,
                open,
                depth,
                statements.push(statement),
                more + 1 + m,
                next,
            ),
            Parsed::Failed(failure) => Parsed::<BlockBody>::Failed(failure),
        },
{
    reveal(block_items);
    reveal(item);
}

/// At the end of the input `block_items` reports what was expected.
pub proof fn lemma_block_items_end(
    tokens: Seq<Spanned<TokenView>>,
    open: int,
    depth: nat,
    statements: Seq<Spanned<StatementView>>,
    more: nat,
    expectation: Expectation,
)
    requires
        open + 1 + more >= tokens.len(),
    ensures
        block_items(tokens, open, depth, statements, more, expectation) == refuse::<BlockBody>(
            open + 1 + more,
            expectation,
        ),
{
    reveal(block_items);
}

/// What `block` is in terms of `block_items`.
pub proof fn lemma_block(
    tokens: Seq<Spanned<TokenView>>,
    at: int,
    depth: nat,
    expectation: Expectation,
)
    ensures
        block(tokens, at, depth, expectation) == if kind_at(tokens, at) != Some(
            TokenKind::CurlyBraceOpen,
        ) {
            refuse::<Spanned<ExpressionView>>(at, expectation)
        } else if depth == 0 {
            refuse::<Spanned<ExpressionView>>(at, Expectation::Nesting)
        } else {
            match block_items(
                tokens,
                at,
                (depth - 1) as nat,
                Seq::empty(),
                0,
                Expectation::FirstStatement,
            ) {
                Parsed::Done { value: body, more } => Parsed::Done {
                    value: Spanned {
                        value: ExpressionView::Block {
                            statements: body.statements,
                            eval: Box::new(body.eval),
                        },
                        span: cover(tokens[at].span, body.close),
                    },
                    more,
                },
                Parsed::Failed(failure) => Parsed::<Spanned<ExpressionView>>::Failed(failure),
            }
        },
{
    reveal(block);
    reveal(block_items);
}

/// What `conditional` is in terms of `expression` and `block`.
pub proof fn lemma_conditional(tokens: Seq<Spanned<TokenView>>, at: int, depth: nat)
    ensures
        conditional(tokens, at, depth) == ({
            if at < 0 || at >= tokens.len() {
                refuse(at, Expectation::Operand)
            } else if depth == 0 {
                refuse(at, Expectation::Nesting)
            } else {
                let inner = (depth - 1) as nat;
                match expression(tokens, at + 1, inner) {
                    Parsed::Done { value: condition, more: c } => match block(
                        tokens,
                        at + 2 + c,
                        inner,
                        Expectation::ConditionBlock,
                    ) {
                        Parsed::Done { value: then, more: t } => if kind_at(tokens, at + 3 + c + t)
                            != Some(TokenKind::Else) {
                            refuse(at + 3 + c + t, Expectation::Else)
                        } else {
                            match block(tokens, at + 4 + c + t, inner, Expectation::ElseBlock) {
                                Parsed::Done { value: or_else, more: e } => Parsed::Done {
                                    value: Spanned {
                                        value: ExpressionView::If {
                                            condition: Box::new(condition),
                                            then: Box::new(then),
                                            or_else: Box::new(or_else),
                                        },
                                        span: cover(tokens[at].span, or_else.span),
                                    },
                                    more: 4 + c + t + e,
                                },
                                Parsed::Failed(failure) => Parsed::Failed(failure),
                            }
                        },
                        Parsed::Failed(failure) => Parsed::Failed(failure),
                    },
                    Parsed::Failed(failure) => Parsed::Failed(failure),
                }
            }
}),
{
    reveal(conditional);
    reveal(expression);
    reveal(block);
}

/// What `item` is in terms of `binding`, `assignment` and `expression`.
pub proof fn lemma_item(
    tokens: Seq<Spanned<TokenView>>,
    at: int,
    depth: nat,
    expectation: Expectation,
)
    ensures
        item(tokens, at, depth, expectation) == ({
            if at < 0 || at >= tokens.len() {
                refuse(at, expectation)
            } else {
                let kind = tokens[at].value.kind();
                if kind == TokenKind::CurlyBraceClose {
                    Parsed::Done {
                        value: Item::Close { eval: unit_before(tokens[at].span), close: tokens[at].span },
                        more: 0,
                    }
                } else if kind == TokenKind::Let || kind == TokenKind::Var {
                    match binding(tokens, at, depth) {
                        Parsed::Done { value, more } => Parsed::Done {
                            value: Item::Statement { statement: value, next: Expectation::NextStatement },
                            more,
                        },
                        Parsed::Failed(failure) => Parsed::Failed(failure),
                    }
                } else if kind == TokenKind::Identifier && kind_at(tokens, at + 1) == Some(
                    TokenKind::Assign,
                ) {
                    match assignment(tokens, at, depth) {
                        Parsed::Done { value, more } => Parsed::Done {
                            value: Item::Statement { statement: value, next: Expectation::NextStatement },
                            more,
                        },
                        Parsed::Failed(failure) => Parsed::Failed(failure),
                    }
                } else if !starts_operand(kind) {
                    refuse(at, expectation)
                } else {
                    match expression(tokens, at, depth) {
                        Parsed::Done { value, more } => if kind_at(tokens, at + 1 + more) == Some(
                            TokenKind::CurlyBraceClose,
                        ) {
                            Parsed::Done {
                                value: Item::Close { eval: value, close: tokens[at + 1 + more].span },
                                more: more + 1,
                            }
                        } else {
                            Parsed::Done {
                                value: Item::Statement {
                                    statement: Spanned {
                                        value: StatementView::Expression(value.value),
                                        span: value.span,
                                    },
                                    next: if kind == TokenKind::Identifier && more == 0 {
                                        Expectation::NextStatementOrAssign
                                    } else {
                                        Expectation::NextStatement
                                    },
                                },
                                more,
                            }
                        },
                        Parsed::Failed(failure) => Parsed::Failed(failure),
                    }
                }
            }
        }),
{
    reveal(item);
    reveal(binding);
    reveal(assignment);
    reveal(expression);
}

} // verus!
