//! The order of spans: tokens come out of the lexer in source order, and
//! the spans of a syntax tree nest and follow one another as the text does.

use vstd::prelude::*;
use crate::ast::{ExpressionView, FunctionView, ParameterView, StatementView, TypeView};
use crate::charset::is_whitespace;
use crate::grammar::{
    assignment, atom, binary, binary_node, binary_tail, binding, block, block_items, conditional,
    diagnostic, end_of_input, expression, function, function_body, functions_from, item, kind_at,
    later, leaf, lemma_block, lemma_block_items_end, lemma_block_items_step, lemma_conditional,
    lemma_item, lemma_resume_bounds, operator_at, parameter_list, parenthesized, parse, repetition,
    rest, resume, starts_operand, BlockBody, Diagnostic, Expectation, Item, Parsed, MAX_DEPTH,
    TIERS,
};
use crate::laws::{
    lemma_binary_contained, lemma_block_contained, lemma_block_items_contained,
    lemma_expression_contained, lemma_function_contained, lemma_item_contained,
};
use crate::lexer::{
    block_comment_at, block_comment_end, lemma_block_comment_end_bounds, lemma_lexeme_bounds,
    lemma_line_end_bounds, lexeme_at, line_comment_at, line_end, skip_trivia, tokenization,
    tokens_from,
};
use crate::span::{Span, Spanned};
use crate::token::{TokenKind, TokenView};

verus! {

/// Whether the spans of `tokens` are well formed, lie at or after `from`
/// and within `limit`, and follow one another without overlap.
pub open spec fn in_order(tokens: Seq<Spanned<TokenView>>, from: int, limit: int) -> bool {
    &&& forall|i: int|
        0 <= i < tokens.len() ==> from <= (#[trigger] tokens[i]).span.start < tokens[i].span.end
            <= limit
    &&& forall|i: int, j: int|
        0 <= i < j < tokens.len() ==> (#[trigger] tokens[i]).span.end <= (
        #[trigger] tokens[j]).span.start
}

/// The skipped stretch before a token is never negative, and ends within
/// the input.
pub proof fn lemma_skip_trivia_bounds(bytes: Seq<u8>, at: int)
    requires
        0 <= at <= bytes.len(),
    ensures
        at <= skip_trivia(bytes, at) <= bytes.len(),
    decreases bytes.len() - at,
{
    if at < bytes.len() {
        if is_whitespace(bytes[at]) {
            lemma_skip_trivia_bounds(bytes, at + 1);
        } else if line_comment_at(bytes, at) {
            lemma_line_end_bounds(bytes, at + 2);
            lemma_skip_trivia_bounds(bytes, line_end(bytes, at + 2));
        } else if block_comment_at(bytes, at) {
            lemma_block_comment_end_bounds(bytes, at + 2);
            lemma_skip_trivia_bounds(bytes, block_comment_end(bytes, at + 2)->0);
        }
    }
}

/// The tokens from offset `at` on are never empty, lie at or after `at` and
/// within the input, and come in source order without overlap.
pub proof fn lemma_tokens_in_order(bytes: Seq<u8>, at: int)
    requires
        0 <= at <= bytes.len() <= usize::MAX,
    ensures
        in_order(tokens_from(bytes, at), at, bytes.len() as int),
    decreases bytes.len() - at,
{
    let start = skip_trivia(bytes, at);
    lemma_skip_trivia_bounds(bytes, at);
    if start < bytes.len() {
        let lexeme = lexeme_at(bytes, start);
        lemma_lexeme_bounds(bytes, start);
        lemma_tokens_in_order(bytes, lexeme.end);
        let first = Spanned {
            value: lexeme.token,
            span: Span { start: start as usize, end: lexeme.end as usize },
        };
        let rest = tokens_from(bytes, lexeme.end);
        let all = tokens_from(bytes, at);
        assert(all =~= seq![first] + rest);
        assert forall|i: int| 0 <= i < all.len() implies at <= (#[trigger] all[i]).span.start
            < all[i].span.end <= bytes.len() by {
            if i > 0 {
                assert(all[i] == rest[i - 1]);
            }
        }
        assert forall|i: int, j: int| 0 <= i < j < all.len() implies (#[trigger] all[i]).span.end
            <= (#[trigger] all[j]).span.start by {
            assert(all[j] == rest[j - 1]);
            if i > 0 {
                assert(all[i] == rest[i - 1]);
            }
        }
    }
}

/// The tokens of a source buffer are never empty, lie within the buffer and
/// come in source order without overlap.
pub proof fn lemma_tokenization_in_order(bytes: Seq<u8>)
    requires
        bytes.len() <= usize::MAX,
    ensures
        in_order(tokenization(bytes), 0, bytes.len() as int),
{
    lemma_tokens_in_order(bytes, 0);
}

/// Whether the spans of `tokens` are well formed and follow one another
/// without overlap.
pub open spec fn ordered(tokens: Seq<Spanned<TokenView>>) -> bool {
    &&& forall|i: int|
        0 <= i < tokens.len() ==> (#[trigger] tokens[i]).span.start <= tokens[i].span.end
    &&& forall|i: int, j: int|
        0 <= i < j < tokens.len() ==> (#[trigger] tokens[i]).span.end <= (
        #[trigger] tokens[j]).span.start
}

/// Whether the spans in an expression with span `span` nest and follow one
/// another as the text does: every span is well formed, the span of a node
/// contains the spans of its children, and the children come in source
/// order without overlap.
pub open spec fn nests(value: ExpressionView, span: Span) -> bool
    decreases value,
{
    &&& span.wf()
    &&& match value {
        ExpressionView::If { condition, then, or_else } => {
            &&& nests(condition.value, condition.span)
            &&& nests(then.value, then.span)
            &&& nests(or_else.value, or_else.span)
            &&& span.contains(condition.span)
            &&& span.contains(then.span)
            &&& span.contains(or_else.span)
            &&& condition.span.end <= then.span.start
            &&& then.span.end <= or_else.span.start
        },
        ExpressionView::While { condition, then } => {
            &&& nests(condition.value, condition.span)
            &&& nests(then.value, then.span)
            &&& span.contains(condition.span)
            &&& span.contains(then.span)
            &&& condition.span.end <= then.span.start
        },
        ExpressionView::Block { statements, eval } => {
            &&& nests(eval.value, eval.span)
            &&& span.contains(eval.span)
            &&& forall|i: int|
                0 <= i < statements.len() ==> {
                    &&& statement_nests((#[trigger] statements[i]).value, statements[i].span)
                    &&& span.contains(statements[i].span)
                    &&& statements[i].span.end <= eval.span.start
                }
            &&& forall|i: int, j: int|
                0 <= i < j < statements.len() ==> (#[trigger] statements[i]).span.end <= (
                #[trigger] statements[j]).span.start
        },
        ExpressionView::Binary { lhs, operator, rhs } => {
            &&& nests(lhs.value, lhs.span)
            &&& nests(rhs.value, rhs.span)
            &&& span.contains(lhs.span)
            &&& span.contains(rhs.span)
            &&& lhs.span.end <= rhs.span.start
        },
        _ => true,
    }
}

/// Whether the spans in a statement with span `span` nest and follow one
/// another as the text does.
pub open spec fn statement_nests(value: StatementView, span: Span) -> bool
    decreases value,
{
    &&& span.wf()
    &&& match value {
        StatementView::Expression(e) => nests(e, span),
        StatementView::Assignment { lhs, rhs } => nests(rhs.value, rhs.span) && span.contains(
            rhs.span,
        ),
        StatementView::Let { identifier, mutability, initializer } => nests(
            initializer.value,
            initializer.span,
        ) && span.contains(initializer.span),
    }
}

/// The span `span` lies between the start of token `first` and the end of
/// token `last`.
pub open spec fn between(tokens: Seq<Spanned<TokenView>>, span: Span, first: int, last: int) -> bool {
    tokens[first].span.start <= span.start && span.end <= tokens[last].span.end
}

/// What holds of an expression that was read from token `at`: its spans
/// nest, and it lies between its first and its last token.
pub open spec fn placed(
    tokens: Seq<Spanned<TokenView>>,
    at: int,
    parsed: Parsed<Spanned<ExpressionView>>,
) -> bool {
    parsed matches Parsed::Done { value, more } ==> nests(value.value, value.span) && between(
        tokens,
        value.span,
        at,
        at + more,
    )
}

/// What holds of a statement that was read from token `at`.
pub open spec fn statement_placed(
    tokens: Seq<Spanned<TokenView>>,
    at: int,
    parsed: Parsed<Spanned<StatementView>>,
) -> bool {
    parsed matches Parsed::Done { value, more } ==> statement_nests(value.value, value.span)
        && between(tokens, value.span, at, at + more)
}

/// Whether `statements` nest, come in source order, and lie between the
/// offsets `low` and `high`.
pub open spec fn run(statements: Seq<Spanned<StatementView>>, low: int, high: int) -> bool {
    &&& forall|i: int|
        0 <= i < statements.len() ==> {
            &&& statement_nests((#[trigger] statements[i]).value, statements[i].span)
            &&& low <= statements[i].span.start
            &&& statements[i].span.end <= high
        }
    &&& forall|i: int, j: int|
        0 <= i < j < statements.len() ==> (#[trigger] statements[i]).span.end <= (
        #[trigger] statements[j]).span.start
}

/// What holds of one step through a block from token `at`.
pub open spec fn item_placed(tokens: Seq<Spanned<TokenView>>, at: int, parsed: Parsed<Item>) -> bool {
    match parsed {
        Parsed::Done { value: Item::Statement { statement, next }, more } => statement_nests(
            statement.value,
            statement.span,
        ) && between(tokens, statement.span, at, at + more),
        Parsed::Done { value: Item::Close { eval, close }, more } => {
            &&& nests(eval.value, eval.span)
            &&& tokens[at].span.start <= eval.span.start
            &&& eval.span.end <= close.start
            &&& close == tokens[at + more].span
        },
        Parsed::Failed(_) => true,
    }
}

/// What holds of the inside of a block whose `{` is token `open`.
pub open spec fn body_placed(
    tokens: Seq<Spanned<TokenView>>,
    open: int,
    parsed: Parsed<BlockBody>,
) -> bool {
    parsed matches Parsed::Done { value: body, more } ==> {
        &&& run(body.statements, tokens[open].span.end as int, body.eval.span.start as int)
        &&& nests(body.eval.value, body.eval.span)
        &&& tokens[open].span.end <= body.eval.span.start
        &&& body.eval.span.end <= body.close.start
        &&& body.close == tokens[open + more].span
    }
}

/// The spans of an expression nest, between its first and last token.
pub proof fn lemma_expression_placed(tokens: Seq<Spanned<TokenView>>, at: int, depth: nat)
    requires
        ordered(tokens),
        0 <= at <= tokens.len(),
    ensures
        placed(tokens, at, expression(tokens, at, depth)),
    decreases rest(tokens, at), 50nat,
{
    reveal(expression);
    reveal(binary);
    lemma_binary_placed(tokens, at, depth, 0);
}

/// The spans of an expression of any tier nest, between its first and last
/// token.
pub proof fn lemma_binary_placed(tokens: Seq<Spanned<TokenView>>, at: int, depth: nat, tier: nat)
    requires
        ordered(tokens),
        0 <= at <= tokens.len(),
    ensures
        placed(tokens, at, binary(tokens, at, depth, tier)),
    decreases rest(tokens, at), if tier < TIERS { 20 + 2 * (TIERS - tier) } else { 20 },
{
    reveal(binary);
    reveal(binary_tail);
    reveal(atom);
    if at < tokens.len() {
        if tier >= TIERS {
            lemma_atom_placed(tokens, at, depth);
        } else {
            lemma_binary_placed(tokens, at, depth, tier + 1);
            lemma_binary_contained(tokens, at, depth, tier + 1);
            match binary(tokens, at, depth, tier + 1) {
                Parsed::Done { value, more } => {
                    lemma_binary_tail_placed(tokens, at, depth, tier, value, more);
                },
                Parsed::Failed(_) => {},
            }
        }
    }
}

/// The spans of an expression stay nested as operators are folded into it.
pub proof fn lemma_binary_tail_placed(
    tokens: Seq<Spanned<TokenView>>,
    start: int,
    depth: nat,
    tier: nat,
    lhs: Spanned<ExpressionView>,
    more: nat,
)
    requires
        ordered(tokens),
        0 <= start,
        start + 1 + more <= tokens.len(),
        nests(lhs.value, lhs.span),
        between(tokens, lhs.span, start, start + more),
    ensures
        placed(tokens, start, binary_tail(tokens, start, depth, tier, lhs, more)),
    decreases rest(tokens, start + 1 + more), 0nat,
{
    reveal(binary_tail);
    reveal(binary);
    let at = start + 1 + more;
    match operator_at(tokens, at, tier) {
        Some(operator) => {
            lemma_binary_placed(tokens, at + 1, depth, tier + 1);
            lemma_binary_contained(tokens, at + 1, depth, tier + 1);
            match binary(tokens, at + 1, depth, tier + 1) {
                Parsed::Done { value: rhs, more: rhs_more } => {
                    let node = binary_node(lhs, operator, rhs);
                    assert(tokens[start + more].span.end <= tokens[at + 1].span.start);
                    assert(nests(node.value, node.span));
                    lemma_binary_tail_placed(
                        tokens,
                        start,
                        depth,
                        tier,
                        node,
                        more + 2 + rhs_more,
                    );
                },
                Parsed::Failed(_) => {},
            }
        },
        None => {},
    }
}

/// The spans of an operand nest, between its first and last token.
pub proof fn lemma_atom_placed(tokens: Seq<Spanned<TokenView>>, at: int, depth: nat)
    requires
        ordered(tokens),
        0 <= at < tokens.len(),
    ensures
        placed(tokens, at, atom(tokens, at, depth)),
    decreases rest(tokens, at), 10nat,
{
    reveal(atom);
    reveal(parenthesized);
    reveal(conditional);
    reveal(repetition);
    reveal(block);
    if leaf(tokens[at].value) is None {
        match tokens[at].value.kind() {
            TokenKind::ParenOpen => lemma_parenthesized_placed(tokens, at, depth),
            TokenKind::If => lemma_conditional_placed(tokens, at, depth),
            TokenKind::While => lemma_repetition_placed(tokens, at, depth),
            TokenKind::CurlyBraceOpen => lemma_block_placed(
                tokens,
                at,
                depth,
                Expectation::Operand,
            ),
            _ => {},
        }
    }
}

/// The spans of an expression in parentheses nest, between the parentheses.
pub proof fn lemma_parenthesized_placed(tokens: Seq<Spanned<TokenView>>, at: int, depth: nat)
    requires
        ordered(tokens),
        0 <= at < tokens.len(),
        kind_at(tokens, at) == Some(TokenKind::ParenOpen),
    ensures
        placed(tokens, at, parenthesized(tokens, at, depth)),
    decreases rest(tokens, at), 8nat,
{
    reveal(parenthesized);
    reveal(expression);
    if depth > 0 {
        lemma_expression_placed(tokens, at + 1, (depth - 1) as nat);
        lemma_expression_contained(tokens, at + 1, (depth - 1) as nat);
        match expression(tokens, at + 1, (depth - 1) as nat) {
            Parsed::Done { value, more } => {
                if kind_at(tokens, at + 2 + more) == Some(TokenKind::ParenClosed) {
                    assert(tokens[at].span.end <= tokens[at + 1].span.start);
                    assert(tokens[at + 1 + more].span.end <= tokens[at + 2 + more].span.start);
                }
            },
            Parsed::Failed(_) => {},
        }
    }
}

/// The spans of an `if` nest, between its first and last token.
pub proof fn lemma_conditional_placed(tokens: Seq<Spanned<TokenView>>, at: int, depth: nat)
    requires
        ordered(tokens),
        0 <= at < tokens.len(),
        kind_at(tokens, at) == Some(TokenKind::If),
    ensures
        placed(tokens, at, conditional(tokens, at, depth)),
    decreases rest(tokens, at), 8nat,
{
    lemma_conditional(tokens, at, depth);
    if depth > 0 {
        let inner = (depth - 1) as nat;
        lemma_expression_placed(tokens, at + 1, inner);
        lemma_expression_contained(tokens, at + 1, inner);
        match expression(tokens, at + 1, inner) {
            Parsed::Done { value: condition, more: c } => {
                lemma_block_placed(tokens, at + 2 + c, inner, Expectation::ConditionBlock);
                lemma_block_contained(tokens, at + 2 + c, inner, Expectation::ConditionBlock);
                match block(tokens, at + 2 + c, inner, Expectation::ConditionBlock) {
                    Parsed::Done { value: then, more: t } => {
                        if kind_at(tokens, at + 3 + c + t) == Some(TokenKind::Else) {
                            lemma_block_placed(
                                tokens,
                                at + 4 + c + t,
                                inner,
                                Expectation::ElseBlock,
                            );
                            lemma_block_contained(
                                tokens,
                                at + 4 + c + t,
                                inner,
                                Expectation::ElseBlock,
                            );
                            match block(tokens, at + 4 + c + t, inner, Expectation::ElseBlock) {
                                Parsed::Done { value: or_else, more: e } => {
                                    assert(tokens[at].span.end <= tokens[at + 1].span.start);
                                    assert(tokens[at + 1 + c].span.end <= tokens[at + 2
                                        + c].span.start);
                                    assert(tokens[at + 2 + c + t].span.end <= tokens[at + 4 + c
                                        + t].span.start);
                                    assert(tokens[at].span.start <= tokens[at].span.end);
                                },
                                Parsed::Failed(_) => {},
                            }
                        }
                    },
                    Parsed::Failed(_) => {},
                }
            },
            Parsed::Failed(_) => {},
        }
    }
}

/// The spans of a `while` nest, between its first and last token.
pub proof fn lemma_repetition_placed(tokens: Seq<Spanned<TokenView>>, at: int, depth: nat)
    requires
        ordered(tokens),
        0 <= at < tokens.len(),
        kind_at(tokens, at) == Some(TokenKind::While),
    ensures
        placed(tokens, at, repetition(tokens, at, depth)),
    decreases rest(tokens, at), 8nat,
{
    reveal(repetition);
    reveal(expression);
    reveal(block);
    if depth > 0 {
        let inner = (depth - 1) as nat;
        lemma_expression_placed(tokens, at + 1, inner);
        lemma_expression_contained(tokens, at + 1, inner);
        match expression(tokens, at + 1, inner) {
            Parsed::Done { value: condition, more: c } => {
                lemma_block_placed(tokens, at + 2 + c, inner, Expectation::ConditionBlock);
                lemma_block_contained(tokens, at + 2 + c, inner, Expectation::ConditionBlock);
                match block(tokens, at + 2 + c, inner, Expectation::ConditionBlock) {
                    Parsed::Done { value: then, more: t } => {
                        assert(tokens[at].span.end <= tokens[at + 1].span.start);
                        assert(tokens[at + 1 + c].span.end <= tokens[at + 2 + c].span.start);
                        assert(tokens[at].span.start <= tokens[at].span.end);
                    },
                    Parsed::Failed(_) => {},
                }
            },
            Parsed::Failed(_) => {},
        }
    }
}

/// The spans of a block nest, between its braces.
pub proof fn lemma_block_placed(
    tokens: Seq<Spanned<TokenView>>,
    at: int,
    depth: nat,
    expectation: Expectation,
)
    requires
        ordered(tokens),
        0 <= at <= tokens.len(),
    ensures
        placed(tokens, at, block(tokens, at, depth, expectation)),
    decreases rest(tokens, at), 5nat,
{
    lemma_block(tokens, at, depth, expectation);
    if kind_at(tokens, at) == Some(TokenKind::CurlyBraceOpen) && depth > 0 {
        let inner = (depth - 1) as nat;
        assert(tokens[at].span.start <= tokens[at].span.end);
        lemma_block_items_placed(tokens, at, inner, Seq::empty(), 0, Expectation::FirstStatement);
        lemma_block_items_contained(
            tokens,
            at,
            inner,
            Seq::empty(),
            0,
            Expectation::FirstStatement,
        );
        match block_items(tokens, at, inner, Seq::empty(), 0, Expectation::FirstStatement) {
            Parsed::Done { value: body, more } => {
                assert(tokens[at + more].span.start <= tokens[at + more].span.end);
            },
            Parsed::Failed(_) => {},
        }
    }
}

/// The statements and the value of a block nest and come in source order
/// between its braces.
pub proof fn lemma_block_items_placed(
    tokens: Seq<Spanned<TokenView>>,
    open: int,
    depth: nat,
    statements: Seq<Spanned<StatementView>>,
    more: nat,
    expectation: Expectation,
)
    requires
        ordered(tokens),
        0 <= open,
        open + 1 + more <= tokens.len(),
        run(statements, tokens[open].span.end as int, tokens[open + more].span.end as int),
    ensures
        body_placed(
            tokens,
            open,
            block_items(tokens, open, depth, statements, more, expectation),
        ),
    decreases rest(tokens, open + 1 + more), 70nat,
{
    let at = open + 1 + more;
    if at >= tokens.len() {
        lemma_block_items_end(tokens, open, depth, statements, more, expectation);
    } else {
        lemma_block_items_step(tokens, open, depth, statements, more, expectation);
        lemma_item_placed(tokens, at, depth, expectation);
        lemma_item_contained(tokens, at, depth, expectation);
        assert(tokens[open + more].span.end <= tokens[at].span.start);
        assert(tokens[open].span.end <= tokens[at].span.start);
        match item(tokens, at, depth, expectation) {
            Parsed::Done { value: Item::Statement { statement, next }, more: m } => {
                let longer = statements.push(statement);
                assert(tokens[at + m].span.start <= tokens[at + m].span.end);
                assert(run(
                    longer,
                    tokens[open].span.end as int,
                    tokens[open + more + 1 + m].span.end as int,
                )) by {
                    assert forall|i: int| 0 <= i < longer.len() implies {
                        &&& statement_nests((#[trigger] longer[i]).value, longer[i].span)
                        &&& tokens[open].span.end <= longer[i].span.start
                        &&& longer[i].span.end <= tokens[open + more + 1 + m].span.end
                    } by {
                        if i < statements.len() {
                            assert(longer[i] == statements[i]);
                        }
                    }
                    assert forall|i: int, j: int| 0 <= i < j < longer.len() implies (
                    #[trigger] longer[i]).span.end <= (#[trigger] longer[j]).span.start by {
                        assert(longer[i] == statements[i]);
                        if j < statements.len() {
                            assert(longer[j] == statements[j]);
                        }
                    }
                }
                lemma_block_items_placed(tokens, open, depth, longer, more + 1 + m, next);
            },
            Parsed::Done { value: Item::Close { eval, close }, more: m } => {
                assert forall|i: int| 0 <= i < statements.len() implies (
                #[trigger] statements[i]).span.end <= eval.span.start by {}
            },
            Parsed::Failed(_) => {},
        }
    }
}

/// The spans of a step through a block nest, between its first and last
/// token.
pub proof fn lemma_item_placed(
    tokens: Seq<Spanned<TokenView>>,
    at: int,
    depth: nat,
    expectation: Expectation,
)
    requires
        ordered(tokens),
        0 <= at < tokens.len(),
    ensures
        item_placed(tokens, at, item(tokens, at, depth, expectation)),
    decreases rest(tokens, at), 60nat,
{
    lemma_item(tokens, at, depth, expectation);
    let kind = tokens[at].value.kind();
    assert(tokens[at].span.start <= tokens[at].span.end);
    if kind == TokenKind::CurlyBraceClose {
    } else if kind == TokenKind::Let || kind == TokenKind::Var {
        lemma_binding_placed(tokens, at, depth);
    } else if kind == TokenKind::Identifier && kind_at(tokens, at + 1) == Some(
        TokenKind::Assign,
    ) {
        lemma_assignment_placed(tokens, at, depth);
    } else if starts_operand(kind) {
        lemma_expression_placed(tokens, at, depth);
        lemma_expression_contained(tokens, at, depth);
        match expression(tokens, at, depth) {
            Parsed::Done { value, more } => {
                if kind_at(tokens, at + 1 + more) == Some(TokenKind::CurlyBraceClose) {
                    assert(tokens[at + more].span.end <= tokens[at + 1 + more].span.start);
                }
            },
            Parsed::Failed(_) => {},
        }
    }
}

/// The spans of a binding nest, between its first and last token.
pub proof fn lemma_binding_placed(tokens: Seq<Spanned<TokenView>>, at: int, depth: nat)
    requires
        ordered(tokens),
        0 <= at < tokens.len(),
        kind_at(tokens, at) == Some(TokenKind::Let) || kind_at(tokens, at) == Some(
            TokenKind::Var,
        ),
    ensures
        statement_placed(tokens, at, binding(tokens, at, depth)),
    decreases rest(tokens, at), 55nat,
{
    reveal(binding);
    reveal(expression);
    if kind_at(tokens, at + 1) == Some(TokenKind::Identifier) && kind_at(tokens, at + 2)
        == Some(TokenKind::Assign) {
        lemma_expression_placed(tokens, at + 3, depth);
        lemma_expression_contained(tokens, at + 3, depth);
        match expression(tokens, at + 3, depth) {
            Parsed::Done { value, more } => {
                assert(tokens[at].span.end <= tokens[at + 3].span.start);
                assert(tokens[at].span.start <= tokens[at].span.end);
            },
            Parsed::Failed(_) => {},
        }
    }
}

/// The spans of an assignment nest, between its first and last token.
pub proof fn lemma_assignment_placed(tokens: Seq<Spanned<TokenView>>, at: int, depth: nat)
    requires
        ordered(tokens),
        0 <= at < tokens.len(),
        kind_at(tokens, at) == Some(TokenKind::Identifier),
        kind_at(tokens, at + 1) == Some(TokenKind::Assign),
    ensures
        statement_placed(tokens, at, assignment(tokens, at, depth)),
    decreases rest(tokens, at), 55nat,
{
    reveal(assignment);
    reveal(expression);
    lemma_expression_placed(tokens, at + 2, depth);
    lemma_expression_contained(tokens, at + 2, depth);
    match expression(tokens, at + 2, depth) {
        Parsed::Done { value, more } => {
            assert(tokens[at].span.end <= tokens[at + 2].span.start);
            assert(tokens[at].span.start <= tokens[at].span.end);
        },
        Parsed::Failed(_) => {},
    }
}

/// Whether `parameters` come in source order between the offsets `low` and
/// `high`, each name before its type.
pub open spec fn parameters_run(parameters: Seq<ParameterView>, low: int, high: int) -> bool {
    &&& forall|i: int|
        0 <= i < parameters.len() ==> {
            &&& low <= (#[trigger] parameters[i]).name.span.start
            &&& parameters[i].name.span.wf()
            &&& parameters[i].name.span.end <= parameters[i].ty.span.start
            &&& parameters[i].ty.span.wf()
            &&& parameters[i].ty.span.end <= high
        }
    &&& forall|i: int, j: int|
        0 <= i < j < parameters.len() ==> (#[trigger] parameters[i]).ty.span.end <= (
        #[trigger] parameters[j]).name.span.start
}

/// Whether the spans in a function nest and follow one another as the text
/// does: parameters, then the return type, then the body, all within the
/// span of the function.
pub open spec fn function_nests(f: FunctionView) -> bool {
    &&& f.span.wf()
    &&& parameters_run(f.parameters, f.span.start as int, f.returns.span.start as int)
    &&& f.returns.span.wf()
    &&& f.span.start <= f.returns.span.start
    &&& f.returns.span.end <= f.body.span.start
    &&& nests(f.body.value, f.body.span)
    &&& f.span.contains(f.body.span)
}

/// The parameters of a list come in source order between its parentheses.
pub proof fn lemma_parameter_list_placed(
    tokens: Seq<Spanned<TokenView>>,
    open: int,
    parameters: Seq<ParameterView>,
    more: nat,
    expectation: Expectation,
)
    requires
        ordered(tokens),
        0 <= open,
        open + 1 + more <= tokens.len(),
        parameters_run(parameters, tokens[open].span.end as int, tokens[open + more].span.end as int),
    ensures
        parameter_list(tokens, open, parameters, more, expectation) matches Parsed::Done {
            value,
            more: m,
        } ==> parameters_run(value, tokens[open].span.end as int, tokens[open + m].span.start as int),
    decreases rest(tokens, open + 1 + more),
{
    reveal(parameter_list);
    lemma_parameter_list_contained_at(tokens, open, parameters, more, expectation);
    let at = open + 1 + more;
    if at < tokens.len() {
        assert(tokens[open + more].span.end <= tokens[at].span.start);
        assert(tokens[open].span.end <= tokens[at].span.start);
    }
    if expectation == Expectation::FirstParameter && kind_at(tokens, at) == Some(
        TokenKind::ParenClosed,
    ) {
    } else if kind_at(tokens, at) == Some(TokenKind::Identifier) && kind_at(tokens, at + 1)
        == Some(TokenKind::Colon) && kind_at(tokens, at + 2) == Some(TokenKind::Identifier) && (
    kind_at(tokens, at + 3) == Some(TokenKind::Comma) || kind_at(tokens, at + 3) == Some(
        TokenKind::ParenClosed,
    )) {
        let parameter = ParameterView {
            name: Spanned { value: tokens[at].value->Identifier_0, span: tokens[at].span },
            ty: Spanned {
                value: TypeView::Named(tokens[at + 2].value->Identifier_0),
                span: tokens[at + 2].span,
            },
        };
        let longer = parameters.push(parameter);
        assert(tokens[at].span.start <= tokens[at].span.end);
        assert(tokens[at].span.end <= tokens[at + 2].span.start);
        assert(tokens[at + 2].span.start <= tokens[at + 2].span.end);
        assert(tokens[at + 2].span.end <= tokens[at + 3].span.start);
        assert(tokens[at + 3].span.start <= tokens[at + 3].span.end);
        assert(parameters_run(
            longer,
            tokens[open].span.end as int,
            tokens[at + 2].span.end as int,
        )) by {
            assert forall|i: int| 0 <= i < longer.len() implies {
                &&& tokens[open].span.end <= (#[trigger] longer[i]).name.span.start
                &&& longer[i].name.span.wf()
                &&& longer[i].name.span.end <= longer[i].ty.span.start
                &&& longer[i].ty.span.wf()
                &&& longer[i].ty.span.end <= tokens[at + 2].span.end
            } by {
                if i < parameters.len() {
                    assert(longer[i] == parameters[i]);
                }
            }
            assert forall|i: int, j: int| 0 <= i < j < longer.len() implies (
            #[trigger] longer[i]).ty.span.end <= (#[trigger] longer[j]).name.span.start by {
                assert(longer[i] == parameters[i]);
                if j < parameters.len() {
                    assert(longer[j] == parameters[j]);
                }
            }
        }
        assert(parameters_run(
            longer,
            tokens[open].span.end as int,
            tokens[at + 3].span.start as int,
        ));
        assert(parameters_run(
            longer,
            tokens[open].span.end as int,
            tokens[at + 3].span.end as int,
        ));
        if kind_at(tokens, at + 3) == Some(TokenKind::Comma) {
            lemma_parameter_list_placed(
                tokens,
                open,
                longer,
                more + 4,
                Expectation::NextParameter,
            );
        }
    }
}

/// A parameter list that was read in full ends within the input.
proof fn lemma_parameter_list_contained_at(
    tokens: Seq<Spanned<TokenView>>,
    open: int,
    parameters: Seq<ParameterView>,
    more: nat,
    expectation: Expectation,
)
    requires
        0 <= open,
        open + 1 + more <= tokens.len(),
    ensures
        parameter_list(tokens, open, parameters, more, expectation) matches Parsed::Done {
            value,
            more: m,
        } ==> open + 1 + m <= tokens.len() && more < m,
    decreases rest(tokens, open + 1 + more),
{
    reveal(parameter_list);
    let at = open + 1 + more;
    if kind_at(tokens, at) == Some(TokenKind::Identifier) && kind_at(tokens, at + 1) == Some(
        TokenKind::Colon,
    ) && kind_at(tokens, at + 2) == Some(TokenKind::Identifier) && kind_at(tokens, at + 3)
        == Some(TokenKind::Comma) {
        let parameter = ParameterView {
            name: Spanned { value: tokens[at].value->Identifier_0, span: tokens[at].span },
            ty: Spanned {
                value: TypeView::Named(tokens[at + 2].value->Identifier_0),
                span: tokens[at + 2].span,
            },
        };
        lemma_parameter_list_contained_at(
            tokens,
            open,
            parameters.push(parameter),
            more + 4,
            Expectation::NextParameter,
        );
    }
}

/// In a function that was read from ordered tokens the spans nest and
/// follow one another as the text does, and the span of the function runs
/// from the start of its first token to the end of its last.
pub proof fn lemma_function_placed(tokens: Seq<Spanned<TokenView>>, at: int)
    requires
        ordered(tokens),
        0 <= at < tokens.len(),
    ensures
        function(tokens, at) matches Parsed::Done { value, more } ==> {
            &&& function_nests(value)
            &&& at + more < tokens.len()
            &&& value.span.start == tokens[at].span.start
            &&& value.span.end == tokens[at + more].span.end
        },
{
    reveal(function);
    reveal(function_body);
    if kind_at(tokens, at) == Some(TokenKind::Fn) && kind_at(tokens, at + 1) == Some(
        TokenKind::ParenOpen,
    ) {
        assert(tokens[at].span.start <= tokens[at].span.end);
        assert(tokens[at].span.end <= tokens[at + 1].span.start);
        assert(tokens[at + 1].span.start <= tokens[at + 1].span.end);
        assert(parameters_run(
            Seq::<ParameterView>::empty(),
            tokens[at + 1].span.end as int,
            tokens[at + 1].span.end as int,
        ));
        lemma_parameter_list_placed(tokens, at + 1, Seq::empty(), 0, Expectation::FirstParameter);
        lemma_parameter_list_contained_at(
            tokens,
            at + 1,
            Seq::empty(),
            0,
            Expectation::FirstParameter,
        );
        match parameter_list(tokens, at + 1, Seq::empty(), 0, Expectation::FirstParameter) {
            Parsed::Done { value: parameters, more } => {
                let after = at + 2 + more;
                let close = tokens[after - 1].span;
                assert(close.start <= close.end);
                assert(tokens[at + 1].span.end <= close.start);
                if kind_at(tokens, after) == Some(TokenKind::FatArrow) {
                    if kind_at(tokens, after + 1) == Some(TokenKind::Identifier) {
                        lemma_block_placed(tokens, after + 2, MAX_DEPTH as nat, Expectation::Body);
                        lemma_block_contained(
                            tokens,
                            after + 2,
                            MAX_DEPTH as nat,
                            Expectation::Body,
                        );
                        lemma_block(tokens, after + 2, MAX_DEPTH as nat, Expectation::Body);
                        assert(close.end <= tokens[after + 1].span.start);
                        assert(tokens[after + 1].span.start <= tokens[after + 1].span.end);
                        match block(tokens, after + 2, MAX_DEPTH as nat, Expectation::Body) {
                            Parsed::Done { value: body, more: b } => {
                                lemma_block_span(tokens, after + 2, MAX_DEPTH as nat, Expectation::Body);
                                assert(tokens[after + 1].span.end <= tokens[after + 2].span.start);
                                assert(tokens[after + 2 + b].span.start <= tokens[after + 2
                                    + b].span.end);
                                assert(tokens[after + 2].span.start <= tokens[after + 2].span.end);
                            },
                            Parsed::Failed(_) => {},
                        }
                    }
                } else {
                    lemma_block_placed(tokens, after, MAX_DEPTH as nat, Expectation::ReturnOrBody);
                    lemma_block_contained(
                        tokens,
                        after,
                        MAX_DEPTH as nat,
                        Expectation::ReturnOrBody,
                    );
                    match block(tokens, after, MAX_DEPTH as nat, Expectation::ReturnOrBody) {
                        Parsed::Done { value: body, more: b } => {
                            lemma_block_span(
                                tokens,
                                after,
                                MAX_DEPTH as nat,
                                Expectation::ReturnOrBody,
                            );
                            assert(close.end <= tokens[after].span.start);
                            assert(tokens[after + b].span.start <= tokens[after + b].span.end);
                            assert(tokens[after].span.start <= tokens[after].span.end);
                        },
                        Parsed::Failed(_) => {},
                    }
                }
            },
            Parsed::Failed(_) => {},
        }
    }
}

/// The span of a block runs from the start of its `{` to the end of its
/// `}`.
pub proof fn lemma_block_span(
    tokens: Seq<Spanned<TokenView>>,
    at: int,
    depth: nat,
    expectation: Expectation,
)
    requires
        ordered(tokens),
        0 <= at <= tokens.len(),
    ensures
        block(tokens, at, depth, expectation) matches Parsed::Done { value, more } ==> {
            &&& at + more < tokens.len()
            &&& value.span.start == tokens[at].span.start
            &&& value.span.end == tokens[at + more].span.end
        },
{
    lemma_block(tokens, at, depth, expectation);
    if kind_at(tokens, at) == Some(TokenKind::CurlyBraceOpen) && depth > 0 {
        let inner = (depth - 1) as nat;
        assert(run(
            Seq::<Spanned<StatementView>>::empty(),
            tokens[at].span.end as int,
            tokens[at].span.end as int,
        ));
        lemma_block_items_placed(tokens, at, inner, Seq::empty(), 0, Expectation::FirstStatement);
        lemma_block_items_contained(
            tokens,
            at,
            inner,
            Seq::empty(),
            0,
            Expectation::FirstStatement,
        );
    }
}

/// Whether the functions of `outcome` nest their spans, start at or after
/// the offset `low`, and follow one another without overlap.
pub open spec fn functions_run(functions: Seq<FunctionView>, low: int) -> bool {
    &&& forall|i: int|
        0 <= i < functions.len() ==> function_nests(#[trigger] functions[i]) && low
            <= functions[i].span.start
    &&& forall|i: int, j: int|
        0 <= i < j < functions.len() ==> (#[trigger] functions[i]).span.end <= (
        #[trigger] functions[j]).span.start
}

/// The functions read from token `at` on nest their spans and come in source
/// order.
pub proof fn lemma_functions_from_placed(tokens: Seq<Spanned<TokenView>>, at: int)
    requires
        ordered(tokens),
        0 <= at <= tokens.len(),
    ensures
        functions_run(
            functions_from(tokens, at).functions,
            if at < tokens.len() {
                tokens[at].span.start as int
            } else {
                0
            },
        ),
    decreases rest(tokens, at),
{
    reveal(functions_from);
    if at < tokens.len() {
        lemma_function_placed(tokens, at);
        lemma_function_contained(tokens, at);
        let low = tokens[at].span.start as int;
        match function(tokens, at) {
            Parsed::Done { value, more } => {
                let next = at + 1 + more;
                lemma_functions_from_placed(tokens, next);
                let rest = functions_from(tokens, next).functions;
                let all = seq![value] + rest;
                assert(functions_from(tokens, at).functions == all);
                if next < tokens.len() {
                    assert(tokens[at + more].span.end <= tokens[next].span.start);
                    assert(tokens[at].span.start <= tokens[at].span.end);
                    assert(tokens[at].span.end <= tokens[next].span.start);
                }
                assert forall|i: int| 0 <= i < all.len() implies function_nests(
                    #[trigger] all[i],
                ) && low <= all[i].span.start by {
                    if i > 0 {
                        assert(all[i] == rest[i - 1]);
                    }
                }
                assert forall|i: int, j: int| 0 <= i < j < all.len() implies (
                #[trigger] all[i]).span.end <= (#[trigger] all[j]).span.start by {
                    assert(all[j] == rest[j - 1]);
                    if i > 0 {
                        assert(all[i] == rest[i - 1]);
                    }
                }
            },
            Parsed::Failed(failure) => {
                let from = later(failure.at, at + 1);
                let next = resume(tokens, from);
                lemma_resume_bounds(tokens, from);
                lemma_functions_from_placed(tokens, next);
                let rest = functions_from(tokens, next).functions;
                if next < tokens.len() {
                    assert(tokens[at].span.start <= tokens[at].span.end);
                    assert(tokens[at].span.end <= tokens[next].span.start);
                }
                assert forall|i: int| 0 <= i < rest.len() implies function_nests(
                    #[trigger] rest[i],
                ) && low <= rest[i].span.start by {}
            },
        }
    }
}

/// In every program that is read from tokens with ordered spans, as the
/// lexer yields them, every span is well formed, the span of a node contains
/// the spans of its children, children come in source order without
/// overlap, and so do the functions.
pub proof fn lemma_parse_nests(tokens: Seq<Spanned<TokenView>>)
    requires
        ordered(tokens),
    ensures
        functions_run(parse(tokens).functions, 0),
{
    lemma_functions_from_placed(tokens, 0);
}

/// The tokens of a source buffer have ordered spans.
pub proof fn lemma_tokenization_ordered(bytes: Seq<u8>)
    requires
        bytes.len() <= usize::MAX,
    ensures
        ordered(tokenization(bytes)),
{
    lemma_tokenization_in_order(bytes);
    let tokens = tokenization(bytes);
    assert forall|i: int| 0 <= i < tokens.len() implies (#[trigger] tokens[i]).span.start
        <= tokens[i].span.end by {}
}

/// In the program read from any source buffer, every span is well formed,
/// the span of a node contains the spans of its children, children come in
/// source order without overlap, and so do the functions.
pub proof fn lemma_source_nests(bytes: Seq<u8>)
    requires
        bytes.len() <= usize::MAX,
    ensures
        functions_run(parse(tokenization(bytes)).functions, 0),
{
    lemma_tokenization_ordered(bytes);
    lemma_parse_nests(tokenization(bytes));
}

/// Whether the diagnostics of an outcome lie at or after the offset `low`,
/// come in source order without overlap, and keep clear of the functions
/// that were read: a diagnostic lies before or after such a function, or on
/// the `fn` keyword that starts it, which is then the token that an
/// unfinished function before it refused.
pub open spec fn reports_run(
    functions: Seq<FunctionView>,
    diagnostics: Seq<Diagnostic>,
    low: int,
) -> bool {
    &&& forall|i: int|
        0 <= i < diagnostics.len() ==> low <= (#[trigger] diagnostics[i]).span.start
            <= diagnostics[i].span.end
    &&& forall|i: int, j: int|
        0 <= i < j < diagnostics.len() ==> (#[trigger] diagnostics[i]).span.end <= (
        #[trigger] diagnostics[j]).span.start
    &&& forall|i: int, j: int|
        0 <= i < functions.len() && 0 <= j < diagnostics.len() ==> {
            ||| (#[trigger] diagnostics[j]).span.end <= (#[trigger] functions[i]).span.start
            ||| functions[i].span.end <= diagnostics[j].span.start
            ||| diagnostics[j].span.start == functions[i].span.start
        }
}

/// The offset from which the diagnostics of the stretch at token `at` lie:
/// after a `fn` keyword there, else at the token.
pub open spec fn reports_from(tokens: Seq<Spanned<TokenView>>, at: int) -> int {
    if at < 0 || at >= tokens.len() {
        0
    } else if kind_at(tokens, at) == Some(TokenKind::Fn) {
        tokens[at].span.end as int
    } else {
        tokens[at].span.start as int
    }
}

/// The empty span at the end of the input lies after every token.
proof fn lemma_end_of_input(tokens: Seq<Spanned<TokenView>>, at: int)
    requires
        ordered(tokens),
        0 <= at < tokens.len(),
    ensures
        tokens[at].span.end <= end_of_input(tokens).start,
{
    let last = tokens.len() - 1;
    assert(tokens[last].span.start <= tokens[last].span.end);
    if at < last {
        assert(tokens[at].span.end <= tokens[last].span.start);
    }
}

/// A function read from token `at` on starts with that token or after it.
proof fn lemma_functions_from_starts(tokens: Seq<Spanned<TokenView>>, at: int)
    requires
        ordered(tokens),
        0 <= at < tokens.len(),
    ensures
        forall|i: int|
            0 <= i < functions_from(tokens, at).functions.len() ==> {
                let f = #[trigger] functions_from(tokens, at).functions[i];
                f.span.start == tokens[at].span.start || tokens[at].span.end <= f.span.start
            },
{
    reveal(functions_from);
    lemma_function_placed(tokens, at);
    lemma_function_contained(tokens, at);
    assert(tokens[at].span.start <= tokens[at].span.end);
    match function(tokens, at) {
        Parsed::Done { value, more } => {
            let next = at + 1 + more;
            lemma_functions_from_placed(tokens, next);
            let rest = functions_from(tokens, next).functions;
            let all = seq![value] + rest;
            assert(functions_from(tokens, at).functions == all);
            if next < tokens.len() {
                assert(tokens[at].span.end <= tokens[next].span.start);
            }
            assert forall|i: int| 0 <= i < all.len() implies {
                let f = #[trigger] all[i];
                f.span.start == tokens[at].span.start || tokens[at].span.end <= f.span.start
            } by {
                if i > 0 {
                    assert(all[i] == rest[i - 1]);
                }
            }
        },
        Parsed::Failed(failure) => {
            let from = later(failure.at, at + 1);
            let next = resume(tokens, from);
            lemma_resume_bounds(tokens, from);
            lemma_functions_from_placed(tokens, next);
            let rest = functions_from(tokens, next).functions;
            if next < tokens.len() {
                assert(tokens[at].span.end <= tokens[next].span.start);
            }
            assert forall|i: int| 0 <= i < rest.len() implies {
                let f = #[trigger] rest[i];
                f.span.start == tokens[at].span.start || tokens[at].span.end <= f.span.start
            } by {}
        },
    }
}

/// The diagnostics read from token `at` on come in source order and keep
/// clear of the functions read.
pub proof fn lemma_functions_from_reports(tokens: Seq<Spanned<TokenView>>, at: int)
    requires
        ordered(tokens),
        0 <= at <= tokens.len(),
    ensures
        reports_run(
            functions_from(tokens, at).functions,
            functions_from(tokens, at).diagnostics,
            reports_from(tokens, at),
        ),
    decreases rest(tokens, at),
{
    reveal(functions_from);
    if at < tokens.len() {
        lemma_function_placed(tokens, at);
        lemma_function_contained(tokens, at);
        lemma_functions_from_placed(tokens, at);
        let low = reports_from(tokens, at);
        assert(tokens[at].span.start <= tokens[at].span.end);
        match function(tokens, at) {
            Parsed::Done { value, more } => {
                let next = at + 1 + more;
                lemma_functions_from_reports(tokens, next);
                lemma_functions_from_placed(tokens, next);
                let rest = functions_from(tokens, next);
                let functions = seq![value] + rest.functions;
                let diagnostics = rest.diagnostics;
                assert(functions_from(tokens, at).functions == functions);
                assert(tokens[at + more].span.start <= tokens[at + more].span.end);
                if at + more > at {
                    assert(tokens[at].span.end <= tokens[at + more].span.start);
                }
                if next < tokens.len() {
                    assert(tokens[at + more].span.end <= tokens[next].span.start);
                    assert(tokens[next].span.start <= tokens[next].span.end);
                }
                assert forall|i: int| 0 <= i < diagnostics.len() implies low <= (
                #[trigger] diagnostics[i]).span.start <= diagnostics[i].span.end by {}
                assert forall|i: int, j: int|
                    0 <= i < functions.len() && 0 <= j < diagnostics.len() implies {
                    ||| (#[trigger] diagnostics[j]).span.end <= (
                    #[trigger] functions[i]).span.start
                    ||| functions[i].span.end <= diagnostics[j].span.start
                    ||| diagnostics[j].span.start == functions[i].span.start
                } by {
                    if i > 0 {
                        assert(functions[i] == rest.functions[i - 1]);
                    }
                }
            },
            Parsed::Failed(failure) => {
                let from = later(failure.at, at + 1);
                let next = resume(tokens, from);
                lemma_resume_bounds(tokens, from);
                lemma_functions_from_reports(tokens, next);
                lemma_functions_from_placed(tokens, next);
                let rest = functions_from(tokens, next);
                let first = diagnostic(tokens, failure);
                let diagnostics = seq![first] + rest.diagnostics;
                let functions = rest.functions;
                assert(functions_from(tokens, at).diagnostics == diagnostics);
                lemma_end_of_input(tokens, at);
                if failure.at < tokens.len() {
                    assert(tokens[failure.at].span.start <= tokens[failure.at].span.end);
                    if at < failure.at {
                        assert(tokens[at].span.end <= tokens[failure.at].span.start);
                    }
                    if failure.at < next {
                        if next < tokens.len() {
                            assert(tokens[failure.at].span.end <= tokens[next].span.start);
                        }
                    }
                }
                if next < tokens.len() {
                    assert(tokens[next].span.start <= tokens[next].span.end);
                    assert(tokens[at].span.end <= tokens[next].span.start);
                }
                assert(low <= first.span.start <= first.span.end);
                assert forall|i: int| 0 <= i < diagnostics.len() implies low <= (
                #[trigger] diagnostics[i]).span.start <= diagnostics[i].span.end by {
                    if i > 0 {
                        assert(diagnostics[i] == rest.diagnostics[i - 1]);
                    }
                }
                assert forall|i: int, j: int| 0 <= i < j < diagnostics.len() implies (
                #[trigger] diagnostics[i]).span.end <= (#[trigger] diagnostics[j]).span.start by {
                    assert(diagnostics[j] == rest.diagnostics[j - 1]);
                    if i > 0 {
                        assert(diagnostics[i] == rest.diagnostics[i - 1]);
                    }
                }
                assert forall|i: int, j: int|
                    0 <= i < functions.len() && 0 <= j < diagnostics.len() implies {
                    ||| (#[trigger] diagnostics[j]).span.end <= (
                    #[trigger] functions[i]).span.start
                    ||| functions[i].span.end <= diagnostics[j].span.start
                    ||| diagnostics[j].span.start == functions[i].span.start
                } by {
                    if j > 0 {
                        assert(diagnostics[j] == rest.diagnostics[j - 1]);
                    } else if next < tokens.len() {
                        lemma_functions_from_starts(tokens, next);
                        let f = functions_from(tokens, next).functions[i];
                        assert(f.span.start == tokens[next].span.start || tokens[next].span.end
                            <= f.span.start);
                    }
                }
            },
        }
    }
}

/// Errors stay apart: the diagnostics of a parse come in source order
/// without overlap, and none lies within a function that was read, unless
/// on the `fn` keyword that starts it.
pub proof fn lemma_reports_apart(tokens: Seq<Spanned<TokenView>>)
    requires
        ordered(tokens),
    ensures
        reports_run(parse(tokens).functions, parse(tokens).diagnostics, 0),
{
    lemma_functions_from_reports(tokens, 0);
    let diagnostics = parse(tokens).diagnostics;
    assert forall|i: int| 0 <= i < diagnostics.len() implies 0 <= (
    #[trigger] diagnostics[i]).span.start <= diagnostics[i].span.end by {}
}

} // verus!
