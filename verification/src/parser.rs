//! The parser: from spanned tokens to a program and a batch of diagnostics.
//!
//! Every function here is proved to compute what the grammar says of the
//! same tokens.

use vstd::prelude::*;
use vstd::string::{StringExecFns, StringSliceAdditionalSpecFns};
use crate::ast::{
    expression_view, spanned_expression_view, spanned_statement_view, statement_views,
    BinaryOperator, Expression, ExpressionView, Function, FunctionView, Mutability, Number,
    Parameter, ParameterView, Program, ProgramView, Statement, StatementView, Type,
};
use crate::grammar::{
    assignment, atom, binary, binary_node, binary_tail, binding, block, block_items, conditional,
    cover, diagnostic, expression, function, function_body, functions_from, item, kind_at, later,
    leaf, lemma_block, lemma_block_items_end, lemma_block_items_step, lemma_conditional,
    operator_at, operator_of, parameter_list, parenthesized, parse, repetition, resume,
    starts_operand, tier_of, Diagnostic, Expectation, Failure, Item, Parsed, MAX_DEPTH, TIERS,
};
use crate::identifier::Identifier;
use crate::lexer::{lex, token_views, tokenization};
use crate::span::{Span, Spanned};
use crate::token::{Token, TokenKind};

verus! {

/// Where and why parsing stopped: the index of the refused token and what
/// was expected there.
#[derive(Debug, Clone, Copy, PartialEq, Eq, Structural)]
pub struct Refusal {
    pub at: usize,
    pub expectation: Expectation,
}

impl View for Refusal {
    type V = Failure;

    open spec fn view(&self) -> Failure {
        Failure { at: self.at as int, expectation: self.expectation }
    }
}

/// Whether the outcome of parsing an expression from token `at` is what the
/// grammar gives.
pub open spec fn agrees(
    outcome: Result<(Spanned<Expression>, usize), Refusal>,
    at: int,
    parsed: Parsed<Spanned<ExpressionView>>,
) -> bool {
    match outcome {
        Ok((value, end)) => parsed == (Parsed::Done {
            value: spanned_expression_view(value),
            more: (end - at - 1) as nat,
        }) && at < end,
        Err(refusal) => parsed == Parsed::<Spanned<ExpressionView>>::Failed(refusal@),
    }
}

/// The kind of the token at index `at`, if there is one.
pub fn kind_of(tokens: &[Spanned<Token>], at: usize) -> (kind: Option<TokenKind>)
    ensures
        kind == kind_at(token_views(tokens@), at as int),
{
    if at < tokens.len() {
        Some(tokens[at].value.kind())
    } else {
        None
    }
}

/// Whether the token at index `at` exists and is of kind `kind`.
pub fn kind_is(tokens: &[Spanned<Token>], at: usize, kind: TokenKind) -> (same: bool)
    ensures
        same == (kind_at(token_views(tokens@), at as int) == Some(kind)),
{
    match kind_of(tokens, at) {
        Some(found) => found == kind,
        None => false,
    }
}

/// The binary operator that a token kind denotes, if any.
pub fn operator(kind: TokenKind) -> (operator: Option<BinaryOperator>)
    ensures
        operator == operator_of(kind),
{
    match kind {
        TokenKind::Add => Some(BinaryOperator::Add),
        TokenKind::Sub => Some(BinaryOperator::Sub),
        TokenKind::Mul => Some(BinaryOperator::Mul),
        TokenKind::Div => Some(BinaryOperator::Div),
        TokenKind::Mod => Some(BinaryOperator::Mod),
        TokenKind::And => Some(BinaryOperator::And),
        TokenKind::Or => Some(BinaryOperator::Or),
        TokenKind::Nor => Some(BinaryOperator::Nor),
        TokenKind::Less => Some(BinaryOperator::Less),
        TokenKind::LessOrEqual => Some(BinaryOperator::LessOrEqual),
        TokenKind::Greater => Some(BinaryOperator::Greater),
        TokenKind::GreaterOrEqual => Some(BinaryOperator::GreaterOrEqual),
        TokenKind::Equals => Some(BinaryOperator::Equals),
        TokenKind::NotEquals => Some(BinaryOperator::NotEquals),
        _ => None,
    }
}

/// The precedence tier of an operator: 0 binds loosest, 5 tightest.
pub fn tier(operator: BinaryOperator) -> (tier: usize)
    ensures
        tier == tier_of(operator),
{
    match operator {
        BinaryOperator::Or | BinaryOperator::Nor => 0,
        BinaryOperator::And => 1,
        BinaryOperator::Equals | BinaryOperator::NotEquals => 2,
        BinaryOperator::Less
        | BinaryOperator::LessOrEqual
        | BinaryOperator::Greater
        | BinaryOperator::GreaterOrEqual => 3,
        BinaryOperator::Add | BinaryOperator::Sub => 4,
        BinaryOperator::Mul | BinaryOperator::Div | BinaryOperator::Mod => 5,
    }
}

/// The operator of tier `level` at index `at`, if there is one.
pub fn operator_here(tokens: &[Spanned<Token>], at: usize, level: usize) -> (found: Option<
    BinaryOperator,
>)
    ensures
        found == operator_at(token_views(tokens@), at as int, level as nat),
{
    match kind_of(tokens, at) {
        Some(kind) => match operator(kind) {
            Some(operator) => if tier(operator) == level {
                Some(operator)
            } else {
                None
            },
            None => None,
        },
        None => None,
    }
}

/// Whether a token of this kind can start an expression.
pub fn can_start_operand(kind: TokenKind) -> (can: bool)
    ensures
        can == starts_operand(kind),
{
    match kind {
        TokenKind::Nil
        | TokenKind::Bool
        | TokenKind::Integer
        | TokenKind::Float
        | TokenKind::Identifier
        | TokenKind::ParenOpen
        | TokenKind::If
        | TokenKind::While
        | TokenKind::CurlyBraceOpen => true,
        _ => false,
    }
}

/// The span from the start of `first` to the end of `last`.
pub fn span_over(first: Span, last: Span) -> (span: Span)
    ensures
        span == cover(first, last),
{
    Span { start: first.start, end: last.end }
}

/// The identifier spelled `name`.
pub fn identifier(name: &str) -> (identifier: Identifier)
    ensures
        identifier@ == name@,
{
    Identifier::new(String::from_str(name))
}

/// Whether the outcome of parsing a statement from token `at` is what the
/// grammar gives.
pub open spec fn agrees_statement(
    outcome: Result<(Spanned<Statement>, usize), Refusal>,
    at: int,
    parsed: Parsed<Spanned<StatementView>>,
) -> bool {
    match outcome {
        Ok((value, end)) => parsed == (Parsed::Done {
            value: spanned_statement_view(value),
            more: (end - at - 1) as nat,
        }) && at < end,
        Err(refusal) => parsed == Parsed::<Spanned<StatementView>>::Failed(refusal@),
    }
}

/// One step through the inside of a block.
pub enum Step {
    /// A statement, the index of the token after it, and what to report if
    /// that token is refused.
    Statement { statement: Spanned<Statement>, end: usize, next: Expectation },
    /// The end of the block: its value, the span of its closing brace and
    /// the index of the token after the brace.
    Close { eval: Spanned<Expression>, close: Span, end: usize },
}

/// Whether the outcome of one step from token `at` is what the grammar
/// gives.
pub open spec fn agrees_step(outcome: Result<Step, Refusal>, at: int, parsed: Parsed<Item>) -> bool {
    match outcome {
        Ok(Step::Statement { statement, end, next }) => parsed == (Parsed::Done {
            value: Item::Statement { statement: spanned_statement_view(statement), next },
            more: (end - at - 1) as nat,
        }) && at < end,
        Ok(Step::Close { eval, close, end }) => parsed == (Parsed::Done {
            value: Item::Close { eval: spanned_expression_view(eval), close },
            more: (end - at - 1) as nat,
        }) && at < end,
        Err(refusal) => parsed == Parsed::<Item>::Failed(refusal@),
    }
}

/// The outcome lies within the input.
pub open spec fn within(
    outcome: Result<(Spanned<Expression>, usize), Refusal>,
    at: int,
    len: int,
) -> bool {
    match outcome {
        Ok((_, end)) => end <= len,
        Err(refusal) => at <= refusal.at <= len,
    }
}

/// The expression that a single literal or name token denotes, if any.
fn leaf_expression(token: &Token) -> (found: Option<Expression>)
    ensures
        match found {
            Some(e) => leaf(token@) == Some(expression_view(e)),
            None => leaf(token@) is None,
        },
{
    match token {
        Token::Nil => Some(Expression::Nil),
        Token::Bool(value) => Some(Expression::Bool(*value)),
        Token::Integer(value) => Some(Expression::Number(Number::Integer(*value))),
        Token::Float(text) => Some(Expression::Number(Number::Decimal(String::from_str(text)))),
        Token::Identifier(name) => Some(Expression::Ident(identifier(name))),
        _ => None,
    }
}

/// The name that an identifier token holds; the empty name for another
/// token.
fn name_of(token: &Token) -> (name: Identifier)
    ensures
        token@ is Identifier ==> name@ == token@->Identifier_0,
{
    match token {
        Token::Identifier(name) => identifier(name),
        _ => identifier(""),
    }
}

/// Parses the expression that starts at token `at`, with `depth` levels of
/// nesting still allowed.
fn parse_expression(tokens: &[Spanned<Token>], at: usize, depth: usize) -> (outcome: Result<
    (Spanned<Expression>, usize),
    Refusal,
>)
    requires
        at <= tokens@.len() <= usize::MAX,
    ensures
        agrees(outcome, at as int, expression(token_views(tokens@), at as int, depth as nat)),
        within(outcome, at as int, tokens@.len() as int),
    decreases tokens@.len() - at, 50nat,
{
    proof {
        reveal(expression);
        reveal(binary);
    }
    parse_binary(tokens, at, depth, 0)
}

/// Parses the expression of precedence tier `level` or tighter that starts
/// at token `at`.
fn parse_binary(tokens: &[Spanned<Token>], at: usize, depth: usize, level: usize) -> (outcome:
    Result<(Spanned<Expression>, usize), Refusal>)
    requires
        at <= tokens@.len() <= usize::MAX,
    ensures
        agrees(
            outcome,
            at as int,
            binary(token_views(tokens@), at as int, depth as nat, level as nat),
        ),
        within(outcome, at as int, tokens@.len() as int),
    decreases tokens@.len() - at, if level < TIERS { 20 + 2 * (TIERS - level) } else { 20 },
{
    proof {
        reveal(binary);
        reveal(binary_tail);
        reveal(atom);
    }
    proof {
        reveal(binary_tail);
    }
    let ghost views = token_views(tokens@);
    if at >= tokens.len() {
        return Err(Refusal { at, expectation: Expectation::Operand });
    }
    if level >= TIERS {
        return parse_atom(tokens, at, depth);
    }
    let (mut lhs, mut end) = match parse_binary(tokens, at, depth, level + 1) {
        Ok(done) => done,
        Err(refusal) => {
            return Err(refusal);
        },
    };
    loop
        invariant
            views == token_views(tokens@),
            at < end <= tokens@.len() <= usize::MAX,
            level < TIERS,
            binary(views, at as int, depth as nat, level as nat) == binary_tail(
                views,
                at as int,
                depth as nat,
                level as nat,
                spanned_expression_view(lhs),
                (end - at - 1) as nat,
            ),
        decreases tokens@.len() - end,
    {
        proof {
            reveal(binary);
            reveal(binary_tail);
        }
        match operator_here(tokens, end, level) {
            None => {
                return Ok((lhs, end));
            },
            Some(operator) => {
                assert(end < tokens@.len());
                match parse_binary(tokens, end + 1, depth, level + 1) {
                    Ok((rhs, rhs_end)) => {
                        let span = span_over(lhs.span, rhs.span);
                        let ghost node = binary_node(
                            spanned_expression_view(lhs),
                            operator,
                            spanned_expression_view(rhs),
                        );
                        lhs = Spanned {
                            value: Expression::Binary {
                                lhs: Box::new(lhs),
                                operator,
                                rhs: Box::new(rhs),
                            },
                            span,
                        };
                        assert(spanned_expression_view(lhs) == node);
                        end = rhs_end;
                    },
                    Err(refusal) => {
                        return Err(refusal);
                    },
                }
            },
        }
    }
}

/// Parses the operand that starts at token `at`.
fn parse_atom(tokens: &[Spanned<Token>], at: usize, depth: usize) -> (outcome: Result<
    (Spanned<Expression>, usize),
    Refusal,
>)
    requires
        at < tokens@.len() <= usize::MAX,
    ensures
        agrees(outcome, at as int, atom(token_views(tokens@), at as int, depth as nat)),
        within(outcome, at as int, tokens@.len() as int),
    decreases tokens@.len() - at, 10nat,
{
    proof {
        reveal(atom);
        reveal(parenthesized);
        reveal(conditional);
        reveal(repetition);
        reveal(block);
    }
    match leaf_expression(&tokens[at].value) {
        Some(value) => Ok((Spanned { value, span: tokens[at].span }, at + 1)),
        None => match tokens[at].value.kind() {
            TokenKind::ParenOpen => parse_parenthesized(tokens, at, depth),
            TokenKind::If => parse_conditional(tokens, at, depth),
            TokenKind::While => parse_repetition(tokens, at, depth),
            TokenKind::CurlyBraceOpen => parse_block(tokens, at, depth, Expectation::Operand),
            _ => Err(Refusal { at, expectation: Expectation::Operand }),
        },
    }
}

/// Parses the expression in parentheses whose `(` is at token `at`.
fn parse_parenthesized(tokens: &[Spanned<Token>], at: usize, depth: usize) -> (outcome: Result<
    (Spanned<Expression>, usize),
    Refusal,
>)
    requires
        at < tokens@.len() <= usize::MAX,
    ensures
        agrees(outcome, at as int, parenthesized(token_views(tokens@), at as int, depth as nat)),
        within(outcome, at as int, tokens@.len() as int),
    decreases tokens@.len() - at, 8nat,
{
    proof {
        reveal(parenthesized);
        reveal(expression);
    }
    if depth == 0 {
        return Err(Refusal { at, expectation: Expectation::Nesting });
    }
    match parse_expression(tokens, at + 1, depth - 1) {
        Ok((value, end)) => {
            if kind_is(tokens, end, TokenKind::ParenClosed) {
                Ok((value, end + 1))
            } else {
                Err(Refusal { at: end, expectation: Expectation::ClosingParenthesis })
            }
        },
        Err(refusal) => Err(refusal),
    }
}

/// Parses the `if` expression whose `if` is at token `at`.
fn parse_conditional(tokens: &[Spanned<Token>], at: usize, depth: usize) -> (outcome: Result<
    (Spanned<Expression>, usize),
    Refusal,
>)
    requires
        at < tokens@.len() <= usize::MAX,
    ensures
        agrees(outcome, at as int, conditional(token_views(tokens@), at as int, depth as nat)),
        within(outcome, at as int, tokens@.len() as int),
    decreases tokens@.len() - at, 8nat,
{
    proof {
        lemma_conditional(token_views(tokens@), at as int, depth as nat);
    }
    if depth == 0 {
        return Err(Refusal { at, expectation: Expectation::Nesting });
    }
    let (condition, after_condition) = match parse_expression(tokens, at + 1, depth - 1) {
        Ok(done) => done,
        Err(refusal) => {
            return Err(refusal);
        },
    };
    let (then, after_then) = match parse_block(
        tokens,
        after_condition,
        depth - 1,
        Expectation::ConditionBlock,
    ) {
        Ok(done) => done,
        Err(refusal) => {
            return Err(refusal);
        },
    };
    if !kind_is(tokens, after_then, TokenKind::Else) {
        return Err(Refusal { at: after_then, expectation: Expectation::Else });
    }
    let (or_else, end) = match parse_block(
        tokens,
        after_then + 1,
        depth - 1,
        Expectation::ElseBlock,
    ) {
        Ok(done) => done,
        Err(refusal) => {
            return Err(refusal);
        },
    };
    let span = span_over(tokens[at].span, or_else.span);
    Ok(
        (
            Spanned {
                value: Expression::If {
                    condition: Box::new(condition),
                    then: Box::new(then),
                    or_else: Box::new(or_else),
                },
                span,
            },
            end,
        ),
    )
}

/// Parses the `while` expression whose `while` is at token `at`.
fn parse_repetition(tokens: &[Spanned<Token>], at: usize, depth: usize) -> (outcome: Result<
    (Spanned<Expression>, usize),
    Refusal,
>)
    requires
        at < tokens@.len() <= usize::MAX,
    ensures
        agrees(outcome, at as int, repetition(token_views(tokens@), at as int, depth as nat)),
        within(outcome, at as int, tokens@.len() as int),
    decreases tokens@.len() - at, 8nat,
{
    proof {
        reveal(repetition);
        reveal(expression);
        reveal(block);
    }
    if depth == 0 {
        return Err(Refusal { at, expectation: Expectation::Nesting });
    }
    let (condition, after_condition) = match parse_expression(tokens, at + 1, depth - 1) {
        Ok(done) => done,
        Err(refusal) => {
            return Err(refusal);
        },
    };
    let (then, end) = match parse_block(
        tokens,
        after_condition,
        depth - 1,
        Expectation::ConditionBlock,
    ) {
        Ok(done) => done,
        Err(refusal) => {
            return Err(refusal);
        },
    };
    let span = span_over(tokens[at].span, then.span);
    Ok(
        (
            Spanned {
                value: Expression::While { condition: Box::new(condition), then: Box::new(then) },
                span,
            },
            end,
        ),
    )
}

/// Parses the block that starts at token `at`; `expectation` is reported
/// when the token there is no `{`.
fn parse_block(
    tokens: &[Spanned<Token>],
    at: usize,
    depth: usize,
    expectation: Expectation,
) -> (outcome: Result<(Spanned<Expression>, usize), Refusal>)
    requires
        at <= tokens@.len() <= usize::MAX,
    ensures
        agrees(
            outcome,
            at as int,
            block(token_views(tokens@), at as int, depth as nat, expectation),
        ),
        within(outcome, at as int, tokens@.len() as int),
    decreases tokens@.len() - at, 5nat,
{
    proof {
        lemma_block(token_views(tokens@), at as int, depth as nat, expectation);
    }
    proof {
        reveal(block_items);
    }
    let ghost views = token_views(tokens@);
    if !kind_is(tokens, at, TokenKind::CurlyBraceOpen) {
        return Err(Refusal { at, expectation });
    }
    if depth == 0 {
        return Err(Refusal { at, expectation: Expectation::Nesting });
    }
    let open = tokens[at].span;
    let inner = depth - 1;
    let mut statements: Vec<Spanned<Statement>> = Vec::new();
    let mut here = at + 1;
    let mut expected = Expectation::FirstStatement;
    proof {
        assert(statement_views(statements@) =~= Seq::empty());
    }
    loop
        invariant
            views == token_views(tokens@),
            at < here <= tokens@.len() <= usize::MAX,
            inner == depth - 1,
            open == views[at as int].span,
            kind_at(views, at as int) == Some(TokenKind::CurlyBraceOpen),
            block_items(
                views,
                at as int,
                inner as nat,
                Seq::empty(),
                0,
                Expectation::FirstStatement,
            ) == block_items(
                views,
                at as int,
                inner as nat,
                statement_views(statements@),
                (here - at - 1) as nat,
                expected,
            ),
        decreases tokens@.len() - here,
    {
        proof {
            lemma_block(views, at as int, depth as nat, expectation);
            if here >= tokens@.len() {
                lemma_block_items_end(
                    views,
                    at as int,
                    inner as nat,
                    statement_views(statements@),
                    (here - at - 1) as nat,
                    expected,
                );
            } else {
                lemma_block_items_step(
                    views,
                    at as int,
                    inner as nat,
                    statement_views(statements@),
                    (here - at - 1) as nat,
                    expected,
                );
            }
        }
        if here >= tokens.len() {
            return Err(Refusal { at: here, expectation: expected });
        }
        let ghost before = statement_views(statements@);
        match parse_item(tokens, here, inner, expected) {
            Ok(Step::Close { eval, close, end }) => {
                let span = span_over(open, close);
                return Ok(
                    (
                        Spanned {
                            value: Expression::Block { statements, eval: Box::new(eval) },
                            span,
                        },
                        end,
                    ),
                );
            },
            Ok(Step::Statement { statement, end, next }) => {
                statements.push(statement);
                proof {
                    assert(statement_views(statements@) =~= before.push(
                        spanned_statement_view(statement),
                    ));
                }
                here = end;
                expected = next;
            },
            Err(refusal) => {
                return Err(refusal);
            },
        }
    }
}

/// Parses the next step through a block, from token `at`.
fn parse_item(tokens: &[Spanned<Token>], at: usize, depth: usize, expectation: Expectation) -> (outcome:
    Result<Step, Refusal>)
    requires
        at < tokens@.len() <= usize::MAX,
    ensures
        agrees_step(
            outcome,
            at as int,
            item(token_views(tokens@), at as int, depth as nat, expectation),
        ),
        match outcome {
            Ok(Step::Statement { end, .. }) => end <= tokens@.len(),
            Ok(Step::Close { end, .. }) => end <= tokens@.len(),
            Err(refusal) => at <= refusal.at <= tokens@.len(),
        },
    decreases tokens@.len() - at, 60nat,
{
    proof {
        reveal(item);
        reveal(binding);
        reveal(assignment);
        reveal(expression);
    }
    let kind = tokens[at].value.kind();
    let span = tokens[at].span;
    if kind == TokenKind::CurlyBraceClose {
        let eval = Spanned {
            value: Expression::Unit,
            span: Span { start: span.start, end: span.start },
        };
        Ok(Step::Close { eval, close: span, end: at + 1 })
    } else if kind == TokenKind::Let || kind == TokenKind::Var {
        match parse_binding(tokens, at, depth) {
            Ok((statement, end)) => Ok(
                Step::Statement { statement, end, next: Expectation::NextStatement },
            ),
            Err(refusal) => Err(refusal),
        }
    } else if kind == TokenKind::Identifier && kind_is(tokens, at + 1, TokenKind::Assign) {
        match parse_assignment(tokens, at, depth) {
            Ok((statement, end)) => Ok(
                Step::Statement { statement, end, next: Expectation::NextStatement },
            ),
            Err(refusal) => Err(refusal),
        }
    } else if !can_start_operand(kind) {
        Err(Refusal { at, expectation })
    } else {
        match parse_expression(tokens, at, depth) {
            Ok((value, end)) => {
                if kind_is(tokens, end, TokenKind::CurlyBraceClose) {
                    Ok(Step::Close { eval: value, close: tokens[end].span, end: end + 1 })
                } else {
                    let next = if kind == TokenKind::Identifier && end == at + 1 {
                        Expectation::NextStatementOrAssign
                    } else {
                        Expectation::NextStatement
                    };
                    let statement = Spanned {
                        value: Statement::Expression(value.value),
                        span: value.span,
                    };
                    Ok(Step::Statement { statement, end, next })
                }
            },
            Err(refusal) => Err(refusal),
        }
    }
}

/// Parses the binding whose `let` or `var` is at token `at`.
fn parse_binding(tokens: &[Spanned<Token>], at: usize, depth: usize) -> (outcome: Result<
    (Spanned<Statement>, usize),
    Refusal,
>)
    requires
        at < tokens@.len() <= usize::MAX,
    ensures
        agrees_statement(
            outcome,
            at as int,
            binding(token_views(tokens@), at as int, depth as nat),
        ),
        match outcome {
            Ok((_, end)) => end <= tokens@.len(),
            Err(refusal) => at <= refusal.at <= tokens@.len(),
        },
    decreases tokens@.len() - at, 55nat,
{
    proof {
        reveal(binding);
        reveal(expression);
    }
    if !kind_is(tokens, at + 1, TokenKind::Identifier) {
        return Err(Refusal { at: at + 1, expectation: Expectation::LetName });
    }
    if !kind_is(tokens, at + 2, TokenKind::Assign) {
        return Err(Refusal { at: at + 2, expectation: Expectation::LetAssign });
    }
    let name = name_of(&tokens[at + 1].value);
    let mutability = if tokens[at].value.kind() == TokenKind::Var {
        Mutability::Mutable
    } else {
        Mutability::Immutable
    };
    match parse_expression(tokens, at + 3, depth) {
        Ok((initializer, end)) => {
            let span = span_over(tokens[at].span, initializer.span);
            Ok(
                (
                    Spanned {
                        value: Statement::Let { identifier: name, mutability, initializer },
                        span,
                    },
                    end,
                ),
            )
        },
        Err(refusal) => Err(refusal),
    }
}

/// Parses the assignment whose name is at token `at`, before an `=`.
fn parse_assignment(tokens: &[Spanned<Token>], at: usize, depth: usize) -> (outcome: Result<
    (Spanned<Statement>, usize),
    Refusal,
>)
    requires
        at + 1 < tokens@.len() <= usize::MAX,
        kind_at(token_views(tokens@), at as int) == Some(TokenKind::Identifier),
    ensures
        agrees_statement(
            outcome,
            at as int,
            assignment(token_views(tokens@), at as int, depth as nat),
        ),
        match outcome {
            Ok((_, end)) => end <= tokens@.len(),
            Err(refusal) => at <= refusal.at <= tokens@.len(),
        },
    decreases tokens@.len() - at, 55nat,
{
    proof {
        reveal(assignment);
        reveal(expression);
    }
    let lhs = name_of(&tokens[at].value);
    match parse_expression(tokens, at + 2, depth) {
        Ok((rhs, end)) => {
            let span = span_over(tokens[at].span, rhs.span);
            Ok((Spanned { value: Statement::Assignment { lhs, rhs }, span }, end))
        },
        Err(refusal) => Err(refusal),
    }
}

/// The models of a sequence of parameters.
pub open spec fn parameter_views(parameters: Seq<Parameter>) -> Seq<ParameterView> {
    parameters.map_values(|p: Parameter| p@)
}

/// Parses the parameter list whose `(` is at token `open`, up to and
/// including its `)`.
fn parse_parameters(tokens: &[Spanned<Token>], open: usize) -> (outcome: Result<
    (Vec<Parameter>, usize),
    Refusal,
>)
    requires
        open < tokens@.len() <= usize::MAX,
    ensures
        match outcome {
            Ok((value, end)) => parameter_list(
                token_views(tokens@),
                open as int,
                Seq::empty(),
                0,
                Expectation::FirstParameter,
            ) == (Parsed::Done { value: parameter_views(value@), more: (end - open - 1) as nat })
                && open + 1 < end <= tokens@.len(),
            Err(refusal) => parameter_list(
                token_views(tokens@),
                open as int,
                Seq::empty(),
                0,
                Expectation::FirstParameter,
            ) == Parsed::<Seq<ParameterView>>::Failed(refusal@) && open < refusal.at
                <= tokens@.len(),
        },
{
    let ghost views = token_views(tokens@);
    let mut parameters: Vec<Parameter> = Vec::new();
    let mut here = open + 1;
    let mut expected = Expectation::FirstParameter;
    proof {
        reveal(parameter_list);
        assert(parameter_views(parameters@) =~= Seq::empty());
    }
    loop
        invariant
            views == token_views(tokens@),
            open < here <= tokens@.len() <= usize::MAX,
            expected == Expectation::FirstParameter || expected == Expectation::NextParameter,
            parameter_list(views, open as int, Seq::empty(), 0, Expectation::FirstParameter)
                == parameter_list(
                views,
                open as int,
                parameter_views(parameters@),
                (here - open - 1) as nat,
                expected,
            ),
        decreases tokens@.len() - here,
    {
        proof {
            reveal(parameter_list);
        }
        if expected == Expectation::FirstParameter && kind_is(
            tokens,
            here,
            TokenKind::ParenClosed,
        ) {
            return Ok((parameters, here + 1));
        }
        if !kind_is(tokens, here, TokenKind::Identifier) {
            return Err(Refusal { at: here, expectation: expected });
        }
        if !kind_is(tokens, here + 1, TokenKind::Colon) {
            return Err(Refusal { at: here + 1, expectation: Expectation::ParameterColon });
        }
        if !kind_is(tokens, here + 2, TokenKind::Identifier) {
            return Err(Refusal { at: here + 2, expectation: Expectation::ParameterType });
        }
        let ghost before = parameter_views(parameters@);
        let parameter = Parameter {
            name: Spanned { value: name_of(&tokens[here].value), span: tokens[here].span },
            ty: Spanned {
                value: Type::Named(name_of(&tokens[here + 2].value)),
                span: tokens[here + 2].span,
            },
        };
        parameters.push(parameter);
        proof {
            assert(parameter_views(parameters@) =~= before.push(parameter@));
        }
        match kind_of(tokens, here + 3) {
            Some(TokenKind::ParenClosed) => {
                return Ok((parameters, here + 4));
            },
            Some(TokenKind::Comma) => {
                here = here + 4;
                expected = Expectation::NextParameter;
            },
            _ => {
                return Err(Refusal { at: here + 3, expectation: Expectation::ParameterEnd });
            },
        }
    }
}

/// Whether the outcome of parsing a function from token `at` is what the
/// grammar gives.
pub open spec fn agrees_function(
    outcome: Result<(Function, usize), Refusal>,
    at: int,
    parsed: Parsed<FunctionView>,
) -> bool {
    match outcome {
        Ok((value, end)) => parsed == (Parsed::Done { value: value@, more: (end - at - 1) as nat })
            && at < end,
        Err(refusal) => parsed == Parsed::<FunctionView>::Failed(refusal@),
    }
}

/// Parses the function whose `fn` is at token `at`.
fn parse_function(tokens: &[Spanned<Token>], at: usize) -> (outcome: Result<
    (Function, usize),
    Refusal,
>)
    requires
        at < tokens@.len() <= usize::MAX,
    ensures
        agrees_function(outcome, at as int, function(token_views(tokens@), at as int)),
        match outcome {
            Ok((_, end)) => end <= tokens@.len(),
            Err(refusal) => at <= refusal.at <= tokens@.len(),
        },
{
    proof {
        reveal(function);
        reveal(function_body);
    }
    if !kind_is(tokens, at, TokenKind::Fn) {
        return Err(Refusal { at, expectation: Expectation::Function });
    }
    if !kind_is(tokens, at + 1, TokenKind::ParenOpen) {
        return Err(Refusal { at: at + 1, expectation: Expectation::ParameterList });
    }
    let (parameters, after) = match parse_parameters(tokens, at + 1) {
        Ok(done) => done,
        Err(refusal) => {
            return Err(refusal);
        },
    };
    let (return_type, body_at, expected) = if kind_is(tokens, after, TokenKind::FatArrow) {
        if !kind_is(tokens, after + 1, TokenKind::Identifier) {
            return Err(Refusal { at: after + 1, expectation: Expectation::ReturnType });
        }
        (
            Spanned {
                value: Type::Named(name_of(&tokens[after + 1].value)),
                span: tokens[after + 1].span,
            },
            after + 2,
            Expectation::Body,
        )
    } else {
        let close = tokens[after - 1].span;
        (
            Spanned {
                value: Type::Named(identifier("unit")),
                span: Span { start: close.end, end: close.end },
            },
            after,
            Expectation::ReturnOrBody,
        )
    };
    match parse_block(tokens, body_at, MAX_DEPTH, expected) {
        Ok((body, end)) => {
            let span = span_over(tokens[at].span, body.span);
            Ok((Function { parameters, returns: return_type, body, span }, end))
        },
        Err(refusal) => Err(refusal),
    }
}

/// The index of the first `fn` at or after `from`, or the number of tokens.
fn resume_from(tokens: &[Spanned<Token>], from: usize) -> (index: usize)
    requires
        from <= tokens@.len(),
    ensures
        index == resume(token_views(tokens@), from as int),
        from <= index <= tokens@.len(),
{
    let mut index = from;
    while index < tokens.len() && !kind_is(tokens, index, TokenKind::Fn)
        invariant
            from <= index <= tokens@.len(),
            resume(token_views(tokens@), from as int) == resume(
                token_views(tokens@),
                index as int,
            ),
        decreases tokens@.len() - index,
    {
        index += 1;
    }
    index
}

/// The diagnostic that reports `refusal`.
fn report(tokens: &[Spanned<Token>], refusal: Refusal) -> (report: Diagnostic)
    ensures
        report == diagnostic(token_views(tokens@), refusal@),
{
    let span = if refusal.at < tokens.len() {
        tokens[refusal.at].span
    } else if tokens.len() == 0 {
        Span { start: 0, end: 0 }
    } else {
        let end = tokens[tokens.len() - 1].span.end;
        Span { start: end, end }
    };
    Diagnostic { span, expectation: refusal.expectation }
}

/// The program that holds `functions` in order, each under the empty name:
/// the grammar has no place for the name of a function.
pub open spec fn unnamed(functions: Seq<FunctionView>) -> ProgramView {
    functions.map_values(|f: FunctionView| (Seq::<char>::empty(), f))
}

/// What parsing yields: the functions that were read in full, as a program,
/// and one diagnostic for each stretch of input that was not.
#[derive(Debug, PartialEq)]
pub struct Parse {
    pub program: Program,
    pub diagnostics: Vec<Diagnostic>,
}

/// Parses a whole token sequence. Parsing never stops at an error: the
/// failure is reported and parsing resumes at the next `fn`.
pub fn module(tokens: &[Spanned<Token>]) -> (parsed: Parse)
    ensures
        parsed.program@ == unnamed(parse(token_views(tokens@)).functions),
        parsed.diagnostics@ == parse(token_views(tokens@)).diagnostics,
{
    let ghost views = token_views(tokens@);
    let mut functions: Vec<(Identifier, Function)> = Vec::new();
    let mut diagnostics: Vec<Diagnostic> = Vec::new();
    let mut at: usize = 0;
    let ghost mut read: Seq<FunctionView> = Seq::empty();
    proof {
        assert(functions@.map_values(|f: (Identifier, Function)| (f.0@, f.1@)) =~= unnamed(read));
        assert(read + functions_from(views, 0).functions =~= parse(views).functions);
        assert(diagnostics@ + functions_from(views, 0).diagnostics =~= parse(views).diagnostics);
    }
    while at < tokens.len()
        invariant
            views == token_views(tokens@),
            at <= tokens@.len(),
            functions@.map_values(|f: (Identifier, Function)| (f.0@, f.1@)) == unnamed(read),
            read + functions_from(views, at as int).functions == parse(views).functions,
            diagnostics@ + functions_from(views, at as int).diagnostics == parse(
                views,
            ).diagnostics,
        decreases tokens@.len() - at,
    {
        proof {
            reveal(functions_from);
        }
        let ghost rest = functions_from(views, at as int);
        let ghost named = functions@.map_values(|f: (Identifier, Function)| (f.0@, f.1@));
        let ghost reported = diagnostics@;
        match parse_function(tokens, at) {
            Ok((function, end)) => {
                let ghost view = function@;
                functions.push((identifier(""), function));
                proof {
                    let next = functions_from(views, end as int);
                    reveal_strlit("");
                    assert(""@ =~= Seq::<char>::empty());
                    assert(functions@.map_values(|f: (Identifier, Function)| (f.0@, f.1@))
                        =~= named.push((Seq::<char>::empty(), view)));
                    assert(named.push((Seq::<char>::empty(), view)) =~= unnamed(read.push(view)));
                    assert(read.push(view) + next.functions =~= read + (seq![view]
                        + next.functions));
                    read = read.push(view);
                }
                at = end;
            },
            Err(refusal) => {
                let from = if refusal.at > at {
                    refusal.at
                } else {
                    at + 1
                };
                let entry = report(tokens, refusal);
                diagnostics.push(entry);
                let next_at = resume_from(tokens, from);
                proof {
                    let next = functions_from(views, next_at as int);
                    assert(from == later(refusal.at as int, at + 1));
                    assert(reported.push(entry) + next.diagnostics =~= reported + (seq![entry]
                        + next.diagnostics));
                }
                at = next_at;
            },
        }
    }
    proof {
        reveal(functions_from);
        assert(read + Seq::<FunctionView>::empty() =~= read);
        assert(diagnostics@ + Seq::<Diagnostic>::empty() =~= diagnostics@);
    }
    Parse { program: Program::new(functions), diagnostics }
}

/// Tokenizes and parses a whole source buffer.
pub fn parse_source(source: &str) -> (parsed: Parse)
    ensures
        parsed.program@ == unnamed(parse(tokenization(source.spec_bytes())).functions),
        parsed.diagnostics@ == parse(tokenization(source.spec_bytes())).diagnostics,
{
    let tokens = lex(source);
    module(tokens.as_slice())
}

} // verus!
