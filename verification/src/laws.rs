//! Laws of the grammar: what holds of every token sequence.

use vstd::prelude::*;
use crate::ast::{ExpressionView, FunctionView, ParameterView, StatementView, TypeView};
use crate::grammar::{
    assignment, atom, binary, binary_node, binary_tail, binding, block, block_items, conditional,
    expression, function, function_body, functions_from, item, kind_at, later, leaf,
    lemma_conditional, lemma_resume_bounds, operator_at, parameter_list, parenthesized, parse,
    repetition, rest, resume, starts_operand, Expectation, Item, Parsed, MAX_DEPTH, TIERS,
};
use crate::span::Spanned;
use crate::token::{TokenKind, TokenView};

verus! {

/// No token with an index in `from .. to` is the keyword `fn`.
pub open spec fn fn_free(tokens: Seq<Spanned<TokenView>>, from: int, to: int) -> bool {
    forall|i: int| from <= i < to ==> #[trigger] kind_at(tokens, i) != Some(TokenKind::Fn)
}

/// What holds of every outcome of parsing a construct from token `at`: one
/// that is read in full ends within the input, a failure lies between the
/// start of the construct and the end of the input, and no token that was
/// accepted on the way is the keyword `fn`.
pub open spec fn contained<T>(tokens: Seq<Spanned<TokenView>>, at: int, parsed: Parsed<T>) -> bool {
    match parsed {
        Parsed::Done { value, more } => at + 1 + more <= tokens.len() && fn_free(
            tokens,
            at,
            at + 1 + more,
        ),
        Parsed::Failed(failure) => at <= failure.at <= tokens.len() && fn_free(
            tokens,
            at,
            failure.at,
        ),
    }
}

/// An expression stays within the input and accepts no `fn`.
pub proof fn lemma_expression_contained(tokens: Seq<Spanned<TokenView>>, at: int, depth: nat)
    requires
        0 <= at <= tokens.len(),
    ensures
        contained(tokens, at, expression(tokens, at, depth)),
    decreases rest(tokens, at), 50nat,
{
    reveal(expression);
    reveal(binary);
    lemma_binary_contained(tokens, at, depth, 0);
}

/// An expression of any tier stays within the input and accepts no `fn`.
pub proof fn lemma_binary_contained(
    tokens: Seq<Spanned<TokenView>>,
    at: int,
    depth: nat,
    tier: nat,
)
    requires
        0 <= at <= tokens.len(),
    ensures
        contained(tokens, at, binary(tokens, at, depth, tier)),
    decreases rest(tokens, at), if tier < TIERS { 20 + 2 * (TIERS - tier) } else { 20 },
{
    reveal(binary);
    reveal(binary_tail);
    reveal(atom);
    if at < tokens.len() {
        if tier >= TIERS {
            lemma_atom_contained(tokens, at, depth);
        } else {
            lemma_binary_contained(tokens, at, depth, tier + 1);
            match binary(tokens, at, depth, tier + 1) {
                Parsed::Done { value, more } => {
                    lemma_binary_tail_contained(tokens, at, depth, tier, value, more);
                },
                Parsed::Failed(_) => {},
            }
        }
    }
}

/// The rest of an expression stays within the input and accepts no `fn`.
pub proof fn lemma_binary_tail_contained(
    tokens: Seq<Spanned<TokenView>>,
    start: int,
    depth: nat,
    tier: nat,
    lhs: Spanned<ExpressionView>,
    more: nat,
)
    requires
        0 <= start,
        start + 1 + more <= tokens.len(),
        fn_free(tokens, start, start + 1 + more),
    ensures
        contained(tokens, start, binary_tail(tokens, start, depth, tier, lhs, more)),
    decreases rest(tokens, start + 1 + more), 0nat,
{
    reveal(binary_tail);
    reveal(binary);
    let at = start + 1 + more;
    match operator_at(tokens, at, tier) {
        Some(operator) => {
            lemma_binary_contained(tokens, at + 1, depth, tier + 1);
            match binary(tokens, at + 1, depth, tier + 1) {
                Parsed::Done { value: rhs, more: rhs_more } => {
                    lemma_binary_tail_contained(
                        tokens,
                        start,
                        depth,
                        tier,
                        binary_node(lhs, operator, rhs),
                        more + 2 + rhs_more,
                    );
                },
                Parsed::Failed(_) => {},
            }
        },
        None => {},
    }
}

/// An operand stays within the input and accepts no `fn`.
pub proof fn lemma_atom_contained(tokens: Seq<Spanned<TokenView>>, at: int, depth: nat)
    requires
        0 <= at < tokens.len(),
    ensures
        contained(tokens, at, atom(tokens, at, depth)),
    decreases rest(tokens, at), 10nat,
{
    reveal(atom);
    reveal(parenthesized);
    reveal(conditional);
    reveal(repetition);
    reveal(block);
    if leaf(tokens[at].value) is None {
        match tokens[at].value.kind() {
            TokenKind::ParenOpen => lemma_parenthesized_contained(tokens, at, depth),
            TokenKind::If => lemma_conditional_contained(tokens, at, depth),
            TokenKind::While => lemma_repetition_contained(tokens, at, depth),
            TokenKind::CurlyBraceOpen => lemma_block_contained(
                tokens,
                at,
                depth,
                Expectation::Operand,
            ),
            _ => {},
        }
    }
}

/// An expression in parentheses stays within the input and accepts no `fn`.
pub proof fn lemma_parenthesized_contained(tokens: Seq<Spanned<TokenView>>, at: int, depth: nat)
    requires
        0 <= at < tokens.len(),
        kind_at(tokens, at) == Some(TokenKind::ParenOpen),
    ensures
        contained(tokens, at, parenthesized(tokens, at, depth)),
    decreases rest(tokens, at), 8nat,
{
    reveal(parenthesized);
    reveal(expression);
    if depth > 0 {
        lemma_expression_contained(tokens, at + 1, (depth - 1) as nat);
    }
}

/// An `if` stays within the input and accepts no `fn`.
pub proof fn lemma_conditional_contained(tokens: Seq<Spanned<TokenView>>, at: int, depth: nat)
    requires
        0 <= at < tokens.len(),
        kind_at(tokens, at) == Some(TokenKind::If),
    ensures
        contained(tokens, at, conditional(tokens, at, depth)),
    decreases rest(tokens, at), 8nat,
{
    lemma_conditional(tokens, at, depth);
    if depth > 0 {
        let inner = (depth - 1) as nat;
        lemma_expression_contained(tokens, at + 1, inner);
        match expression(tokens, at + 1, inner) {
            Parsed::Done { value: condition, more: c } => {
                lemma_block_contained(tokens, at + 2 + c, inner, Expectation::ConditionBlock);
                match block(tokens, at + 2 + c, inner, Expectation::ConditionBlock) {
                    Parsed::Done { value: then, more: t } => {
                        if kind_at(tokens, at + 3 + c + t) == Some(TokenKind::Else) {
                            lemma_block_contained(
                                tokens,
                                at + 4 + c + t,
                                inner,
                                Expectation::ElseBlock,
                            );
                        }
                    },
                    Parsed::Failed(_) => {},
                }
            },
            Parsed::Failed(_) => {},
        }
    }
}

/// A `while` stays within the input and accepts no `fn`.
pub proof fn lemma_repetition_contained(tokens: Seq<Spanned<TokenView>>, at: int, depth: nat)
    requires
        0 <= at < tokens.len(),
        kind_at(tokens, at) == Some(TokenKind::While),
    ensures
        contained(tokens, at, repetition(tokens, at, depth)),
    decreases rest(tokens, at), 8nat,
{
    reveal(repetition);
    reveal(expression);
    reveal(block);
    if depth > 0 {
        let inner = (depth - 1) as nat;
        lemma_expression_contained(tokens, at + 1, inner);
        match expression(tokens, at + 1, inner) {
            Parsed::Done { value: condition, more: c } => {
                lemma_block_contained(tokens, at + 2 + c, inner, Expectation::ConditionBlock);
            },
            Parsed::Failed(_) => {},
        }
    }
}

/// A block stays within the input and accepts no `fn`.
pub proof fn lemma_block_contained(
    tokens: Seq<Spanned<TokenView>>,
    at: int,
    depth: nat,
    expectation: Expectation,
)
    requires
        0 <= at <= tokens.len(),
    ensures
        contained(tokens, at, block(tokens, at, depth, expectation)),
    decreases rest(tokens, at), 5nat,
{
    reveal(block);
    reveal(block_items);
    if kind_at(tokens, at) == Some(TokenKind::CurlyBraceOpen) && depth > 0 {
        lemma_block_items_contained(
            tokens,
            at,
            (depth - 1) as nat,
            Seq::empty(),
            0,
            Expectation::FirstStatement,
        );
    }
}

/// The inside of a block stays within the input and accepts no `fn`.
pub proof fn lemma_block_items_contained(
    tokens: Seq<Spanned<TokenView>>,
    open: int,
    depth: nat,
    statements: Seq<Spanned<StatementView>>,
    more: nat,
    expectation: Expectation,
)
    requires
        0 <= open,
        open + 1 + more <= tokens.len(),
        fn_free(tokens, open, open + 1 + more),
    ensures
        contained(
            tokens,
            open,
            block_items(tokens, open, depth, statements, more, expectation),
        ),
    decreases rest(tokens, open + 1 + more), 70nat,
{
    reveal(block_items);
    reveal(item);
    let at = open + 1 + more;
    if at < tokens.len() {
        lemma_item_contained(tokens, at, depth, expectation);
        match item(tokens, at, depth, expectation) {
            Parsed::Done { value: Item::Statement { statement, next }, more: m } => {
                lemma_block_items_contained(
                    tokens,
                    open,
                    depth,
                    statements.push(statement),
                    more + 1 + m,
                    next,
                );
            },
            _ => {},
        }
    }
}

/// A step through a block stays within the input and accepts no `fn`.
pub proof fn lemma_item_contained(
    tokens: Seq<Spanned<TokenView>>,
    at: int,
    depth: nat,
    expectation: Expectation,
)
    requires
        0 <= at < tokens.len(),
    ensures
        contained(tokens, at, item(tokens, at, depth, expectation)),
    decreases rest(tokens, at), 60nat,
{
    reveal(item);
    reveal(binding);
    reveal(assignment);
    reveal(expression);
    let kind = tokens[at].value.kind();
    if kind == TokenKind::CurlyBraceClose {
    } else if kind == TokenKind::Let || kind == TokenKind::Var {
        lemma_binding_contained(tokens, at, depth);
    } else if kind == TokenKind::Identifier && kind_at(tokens, at + 1) == Some(
        TokenKind::Assign,
    ) {
        lemma_assignment_contained(tokens, at, depth);
    } else if starts_operand(kind) {
        lemma_expression_contained(tokens, at, depth);
    }
}

/// A binding stays within the input and accepts no `fn`.
pub proof fn lemma_binding_contained(tokens: Seq<Spanned<TokenView>>, at: int, depth: nat)
    requires
        0 <= at < tokens.len(),
        kind_at(tokens, at) == Some(TokenKind::Let) || kind_at(tokens, at) == Some(
            TokenKind::Var,
        ),
    ensures
        contained(tokens, at, binding(tokens, at, depth)),
    decreases rest(tokens, at), 55nat,
{
    reveal(binding);
    reveal(expression);
    if kind_at(tokens, at + 1) == Some(TokenKind::Identifier) && kind_at(tokens, at + 2)
        == Some(TokenKind::Assign) {
        lemma_expression_contained(tokens, at + 3, depth);
    }
}

/// An assignment stays within the input and accepts no `fn`.
pub proof fn lemma_assignment_contained(tokens: Seq<Spanned<TokenView>>, at: int, depth: nat)
    requires
        0 <= at < tokens.len(),
        kind_at(tokens, at) == Some(TokenKind::Identifier),
        kind_at(tokens, at + 1) == Some(TokenKind::Assign),
    ensures
        contained(tokens, at, assignment(tokens, at, depth)),
    decreases rest(tokens, at), 55nat,
{
    reveal(assignment);
    reveal(expression);
    lemma_expression_contained(tokens, at + 2, depth);
}

/// A parameter list stays within the input and accepts no `fn`.
pub proof fn lemma_parameter_list_contained(
    tokens: Seq<Spanned<TokenView>>,
    open: int,
    parameters: Seq<ParameterView>,
    more: nat,
    expectation: Expectation,
)
    requires
        0 <= open,
        open + 1 + more <= tokens.len(),
        fn_free(tokens, open, open + 1 + more),
    ensures
        contained(tokens, open, parameter_list(tokens, open, parameters, more, expectation)),
    decreases rest(tokens, open + 1 + more),
{
    reveal(parameter_list);
    let at = open + 1 + more;
    if kind_at(tokens, at) == Some(TokenKind::Identifier) && kind_at(tokens, at + 1) == Some(
        TokenKind::Colon,
    ) && kind_at(tokens, at + 2) == Some(TokenKind::Identifier) && kind_at(tokens, at + 3)
        == Some(TokenKind::Comma) {
        let parameter = ParameterView {
            name: Spanned { value: tokens[at].value->Identifier_0, span: tokens[at].span },
            ty: Spanned {
                value: TypeView::Named(tokens[at + 2].value->Identifier_0),
                span: tokens[at + 2].span,
            },
        };
        lemma_parameter_list_contained(
            tokens,
            open,
            parameters.push(parameter),
            more + 4,
            Expectation::NextParameter,
        );
    }
}

/// What holds of every outcome of parsing a function from token `at`: as
/// `contained`, but for the keyword `fn` that starts the function.
pub open spec fn function_contained(
    tokens: Seq<Spanned<TokenView>>,
    at: int,
    parsed: Parsed<FunctionView>,
) -> bool {
    match parsed {
        Parsed::Done { value, more } => {
            &&& at + 1 + more <= tokens.len()
            &&& kind_at(tokens, at) == Some(TokenKind::Fn)
            &&& fn_free(tokens, at + 1, at + 1 + more)
        },
        Parsed::Failed(failure) => {
            &&& at <= failure.at <= tokens.len()
            &&& fn_free(tokens, at + 1, failure.at)
            &&& failure.at == at ==> kind_at(tokens, at) != Some(TokenKind::Fn)
        },
    }
}

/// A function stays within the input and accepts no `fn` but its first token.
pub proof fn lemma_function_contained(tokens: Seq<Spanned<TokenView>>, at: int)
    requires
        0 <= at < tokens.len(),
    ensures
        function_contained(tokens, at, function(tokens, at)),
{
    reveal(function);
    reveal(function_body);
    if kind_at(tokens, at) == Some(TokenKind::Fn) && kind_at(tokens, at + 1) == Some(
        TokenKind::ParenOpen,
    ) {
        lemma_parameter_list_contained(
            tokens,
            at + 1,
            Seq::empty(),
            0,
            Expectation::FirstParameter,
        );
        match parameter_list(tokens, at + 1, Seq::empty(), 0, Expectation::FirstParameter) {
            Parsed::Done { value: parameters, more } => {
                let after = at + 2 + more;
                if kind_at(tokens, after) == Some(TokenKind::FatArrow) {
                    if kind_at(tokens, after + 1) == Some(TokenKind::Identifier) {
                        lemma_block_contained(
                            tokens,
                            after + 2,
                            MAX_DEPTH as nat,
                            Expectation::Body,
                        );
                    }
                } else {
                    lemma_block_contained(
                        tokens,
                        after,
                        MAX_DEPTH as nat,
                        Expectation::ReturnOrBody,
                    );
                }
            },
            Parsed::Failed(_) => {},
        }
    }
}

/// The number of `fn` keywords among the tokens from index `from` on.
pub open spec fn count_fn(tokens: Seq<Spanned<TokenView>>, from: int) -> nat
    decreases rest(tokens, from),
{
    if from < 0 || from >= tokens.len() {
        0
    } else if tokens[from].value.kind() == TokenKind::Fn {
        1 + count_fn(tokens, from + 1)
    } else {
        count_fn(tokens, from + 1)
    }
}

/// A stretch without `fn` does not change the count of `fn` keywords.
pub proof fn lemma_count_fn_skip(tokens: Seq<Spanned<TokenView>>, from: int, to: int)
    requires
        0 <= from <= to <= tokens.len(),
        fn_free(tokens, from, to),
    ensures
        count_fn(tokens, from) == count_fn(tokens, to),
    decreases to - from,
{
    if from < to {
        assert(kind_at(tokens, from) != Some(TokenKind::Fn));
        lemma_count_fn_skip(tokens, from + 1, to);
    }
}

/// Whether the tokens from index `at` on are functions, one after the other,
/// up to the end of the input: whether they are a syntactically valid
/// program.
pub open spec fn is_program(tokens: Seq<Spanned<TokenView>>, at: int) -> bool
    decreases rest(tokens, at),
{
    if at < 0 || at >= tokens.len() {
        true
    } else {
        match function(tokens, at) {
            Parsed::Done { value, more } => is_program(tokens, at + 1 + more),
            Parsed::Failed(_) => false,
        }
    }
}

/// From any token on: parsing reports no error exactly when the tokens are
/// a valid program; it reads no more functions than there are `fn`
/// keywords; and every `fn` keyword belongs to a function that was read or
/// to a stretch that was reported.
pub proof fn lemma_functions_from(tokens: Seq<Spanned<TokenView>>, at: int)
    requires
        0 <= at <= tokens.len(),
    ensures
        is_program(tokens, at) <==> functions_from(tokens, at).diagnostics.len() == 0,
        functions_from(tokens, at).functions.len() <= count_fn(tokens, at),
        count_fn(tokens, at) <= functions_from(tokens, at).functions.len() + functions_from(
            tokens,
            at,
        ).diagnostics.len(),
    decreases rest(tokens, at),
{
    reveal(functions_from);
    if at < tokens.len() {
        lemma_function_contained(tokens, at);
        match function(tokens, at) {
            Parsed::Done { value, more } => {
                lemma_count_fn_skip(tokens, at + 1, at + 1 + more);
                lemma_functions_from(tokens, at + 1 + more);
            },
            Parsed::Failed(failure) => {
                let from = later(failure.at, at + 1);
                let next = resume(tokens, from);
                lemma_resume_bounds(tokens, from);
                lemma_resume_fn_free(tokens, from);
                assert(fn_free(tokens, at + 1, next)) by {
                    assert forall|i: int| at + 1 <= i < next implies #[trigger] kind_at(tokens, i)
                        != Some(TokenKind::Fn) by {
                        if i < from {
                            assert(fn_free(tokens, at + 1, failure.at));
                        }
                    }
                }
                lemma_count_fn_skip(tokens, at + 1, next);
                lemma_functions_from(tokens, next);
            },
        }
    }
}

/// The tokens that resuming skips are no `fn` keywords.
pub proof fn lemma_resume_fn_free(tokens: Seq<Spanned<TokenView>>, from: int)
    requires
        0 <= from,
    ensures
        fn_free(tokens, from, resume(tokens, from)),
    decreases rest(tokens, from),
{
    if from < tokens.len() && tokens[from].value.kind() != TokenKind::Fn {
        lemma_resume_fn_free(tokens, from + 1);
    }
}

/// Parsing a syntactically valid program, and no other input, yields no
/// diagnostics; and where it yields none, the program holds as many
/// functions as the input holds `fn` keywords. For every input, no more
/// functions are read than there are `fn` keywords, and no more `fn`
/// keywords are there than functions and diagnostics together.
pub proof fn lemma_valid_program(tokens: Seq<Spanned<TokenView>>)
    ensures
        is_program(tokens, 0) <==> parse(tokens).diagnostics.len() == 0,
        parse(tokens).diagnostics.len() == 0 ==> parse(tokens).functions.len() == count_fn(
            tokens,
            0,
        ),
        parse(tokens).functions.len() <= count_fn(tokens, 0) <= parse(tokens).functions.len()
            + parse(tokens).diagnostics.len(),
{
    lemma_functions_from(tokens, 0);
}

} // verus!
