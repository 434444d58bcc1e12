//! Precedence and associativity: how two operators between three operands
//! are grouped.

use vstd::prelude::*;
use crate::ast::{BinaryOperator, ExpressionView};
use crate::grammar::{
    atom, binary, binary_node, binary_tail, expression, kind_at, leaf, operator_at,
    operator_of, tier_of, Parsed, TIERS,
};
use crate::span::Spanned;
use crate::token::TokenView;

verus! {

/// Whether token `at` is a literal or a name.
pub open spec fn is_leaf_at(tokens: Seq<Spanned<TokenView>>, at: int) -> bool {
    0 <= at < tokens.len() && leaf(tokens[at].value) is Some
}

/// The expression that the literal or name at token `at` denotes.
pub open spec fn leaf_at(tokens: Seq<Spanned<TokenView>>, at: int) -> Spanned<ExpressionView> {
    Spanned { value: leaf(tokens[at].value)->0, span: tokens[at].span }
}

/// The binary operator at token `at`, if there is one.
pub open spec fn operator_kind_at(tokens: Seq<Spanned<TokenView>>, at: int) -> Option<
    BinaryOperator,
> {
    match kind_at(tokens, at) {
        Some(kind) => operator_of(kind),
        None => None,
    }
}

/// Every operator is in one of the six tiers.
pub proof fn lemma_tier_bound(operator: BinaryOperator)
    ensures
        tier_of(operator) < TIERS,
{
}

/// A literal or name is a whole expression of tier `tier` when no operator
/// of that tier or a tighter one follows it.
pub proof fn lemma_leaf(tokens: Seq<Spanned<TokenView>>, at: int, depth: nat, tier: nat)
    requires
        is_leaf_at(tokens, at),
        operator_kind_at(tokens, at + 1) matches Some(operator) ==> tier_of(operator) < tier,
    ensures
        binary(tokens, at, depth, tier) == (Parsed::Done { value: leaf_at(tokens, at), more: 0 }),
    decreases TIERS - tier,
{
    reveal(binary);
    reveal(binary_tail);
    reveal(atom);
    let found = Parsed::Done { value: leaf_at(tokens, at), more: 0 };
    if tier < TIERS {
        lemma_leaf(tokens, at, depth, tier + 1);
        assert(binary(tokens, at, depth, tier + 1) == found);
        assert(operator_at(tokens, at + 1, tier) is None);
        assert(binary_tail(tokens, at, depth, tier, leaf_at(tokens, at), 0) == found);
        assert(binary(tokens, at, depth, tier) == binary_tail(
            tokens,
            at,
            depth,
            tier,
            leaf_at(tokens, at),
            0,
        ));
    } else {
        assert(atom(tokens, at, depth) == found);
        assert(binary(tokens, at, depth, tier) == atom(tokens, at, depth));
    }
}

/// An expression of tier `high` is also the expression of each looser tier
/// down to `low`, when no operator of those tiers follows it.
pub proof fn lemma_lift(
    tokens: Seq<Spanned<TokenView>>,
    at: int,
    depth: nat,
    low: nat,
    high: nat,
    value: Spanned<ExpressionView>,
    more: nat,
)
    requires
        0 <= at < tokens.len(),
        low <= high <= TIERS,
        binary(tokens, at, depth, high) == (Parsed::Done { value, more }),
        operator_kind_at(tokens, at + 1 + more) matches Some(operator) ==> !(low <= tier_of(
            operator,
        ) < high),
    ensures
        binary(tokens, at, depth, low) == (Parsed::Done { value, more }),
    decreases high - low,
{
    reveal(binary);
    reveal(binary_tail);
    if low < high {
        lemma_lift(tokens, at, depth, low + 1, high, value, more);
        let found = Parsed::Done { value, more };
        assert(binary(tokens, at, depth, low + 1) == found);
        assert(operator_at(tokens, at + 1 + more, low) is None);
        assert(binary_tail(tokens, at, depth, low, value, more) == found);
        assert(binary(tokens, at, depth, low) == binary_tail(tokens, at, depth, low, value, more));
    }
}

/// An operator of tier `tier` with its right operand is folded into the
/// expression so far.
pub proof fn lemma_fold(
    tokens: Seq<Spanned<TokenView>>,
    start: int,
    depth: nat,
    tier: nat,
    lhs: Spanned<ExpressionView>,
    more: nat,
    operator: BinaryOperator,
    rhs: Spanned<ExpressionView>,
    rhs_more: nat,
)
    requires
        operator_kind_at(tokens, start + 1 + more) == Some(operator),
        tier_of(operator) == tier,
        binary(tokens, start + 2 + more, depth, tier + 1) == (Parsed::Done {
            value: rhs,
            more: rhs_more,
        }),
    ensures
        binary_tail(tokens, start, depth, tier, lhs, more) == binary_tail(
            tokens,
            start,
            depth,
            tier,
            binary_node(lhs, operator, rhs),
            more + 2 + rhs_more,
        ),
{
    reveal(binary_tail);
    reveal(binary);
}

/// The expression of tier `tier` ends where no operator of that tier
/// follows.
pub proof fn lemma_stop(
    tokens: Seq<Spanned<TokenView>>,
    start: int,
    depth: nat,
    tier: nat,
    lhs: Spanned<ExpressionView>,
    more: nat,
)
    requires
        operator_kind_at(tokens, start + 1 + more) matches Some(operator) ==> tier_of(operator)
            != tier,
    ensures
        binary_tail(tokens, start, depth, tier, lhs, more) == (Parsed::Done { value: lhs, more }),
{
    reveal(binary_tail);
}

/// What an expression of tier `tier` is in terms of its first operand.
pub proof fn lemma_head(
    tokens: Seq<Spanned<TokenView>>,
    at: int,
    depth: nat,
    tier: nat,
    lhs: Spanned<ExpressionView>,
    more: nat,
)
    requires
        0 <= at < tokens.len(),
        tier < TIERS,
        binary(tokens, at, depth, tier + 1) == (Parsed::Done { value: lhs, more }),
    ensures
        binary(tokens, at, depth, tier) == binary_tail(tokens, at, depth, tier, lhs, more),
{
    reveal(binary);
    reveal(binary_tail);
}

/// Two operators of the same tier group to the left.
proof fn lemma_same_tier(
    tokens: Seq<Spanned<TokenView>>,
    at: int,
    depth: nat,
    first: BinaryOperator,
    second: BinaryOperator,
)
    requires
        is_leaf_at(tokens, at),
        operator_kind_at(tokens, at + 1) == Some(first),
        is_leaf_at(tokens, at + 2),
        operator_kind_at(tokens, at + 3) == Some(second),
        is_leaf_at(tokens, at + 4),
        operator_kind_at(tokens, at + 5) is None,
        tier_of(first) >= tier_of(second),
    ensures
        binary(tokens, at, depth, tier_of(second)) == (Parsed::Done {
            value: binary_node(
                binary_node(leaf_at(tokens, at), first, leaf_at(tokens, at + 2)),
                second,
                leaf_at(tokens, at + 4),
            ),
            more: 4,
        }),
{
    let high = tier_of(first);
    let low = tier_of(second);
    let a = leaf_at(tokens, at);
    let b = leaf_at(tokens, at + 2);
    let c = leaf_at(tokens, at + 4);
    let ab = binary_node(a, first, b);
    let abc = binary_node(ab, second, c);
    lemma_tier_bound(first);
    lemma_tier_bound(second);
    lemma_leaf(tokens, at, depth, high + 1);
    lemma_leaf(tokens, at + 2, depth, high + 1);
    lemma_leaf(tokens, at + 4, depth, low + 1);
    lemma_head(tokens, at, depth, high, a, 0);
    lemma_fold(tokens, at, depth, high, a, 0, first, b, 0);
    if high == low {
        lemma_fold(tokens, at, depth, low, ab, 2, second, c, 0);
        lemma_stop(tokens, at, depth, low, abc, 4);
    } else {
        lemma_stop(tokens, at, depth, high, ab, 2);
        lemma_lift(tokens, at, depth, low + 1, high, ab, 2);
        lemma_head(tokens, at, depth, low, ab, 2);
        lemma_fold(tokens, at, depth, low, ab, 2, second, c, 0);
        lemma_stop(tokens, at, depth, low, abc, 4);
    }
}

/// A tighter second operator groups to the right.
proof fn lemma_tighter_second(
    tokens: Seq<Spanned<TokenView>>,
    at: int,
    depth: nat,
    first: BinaryOperator,
    second: BinaryOperator,
)
    requires
        is_leaf_at(tokens, at),
        operator_kind_at(tokens, at + 1) == Some(first),
        is_leaf_at(tokens, at + 2),
        operator_kind_at(tokens, at + 3) == Some(second),
        is_leaf_at(tokens, at + 4),
        operator_kind_at(tokens, at + 5) is None,
        tier_of(first) < tier_of(second),
    ensures
        binary(tokens, at, depth, tier_of(first)) == (Parsed::Done {
            value: binary_node(
                leaf_at(tokens, at),
                first,
                binary_node(leaf_at(tokens, at + 2), second, leaf_at(tokens, at + 4)),
            ),
            more: 4,
        }),
{
    let low = tier_of(first);
    let high = tier_of(second);
    let a = leaf_at(tokens, at);
    let b = leaf_at(tokens, at + 2);
    let c = leaf_at(tokens, at + 4);
    let bc = binary_node(b, second, c);
    let abc = binary_node(a, first, bc);
    lemma_tier_bound(first);
    lemma_tier_bound(second);
    lemma_leaf(tokens, at, depth, low + 1);
    lemma_leaf(tokens, at + 2, depth, high + 1);
    lemma_leaf(tokens, at + 4, depth, high + 1);
    lemma_head(tokens, at + 2, depth, high, b, 0);
    lemma_fold(tokens, at + 2, depth, high, b, 0, second, c, 0);
    lemma_stop(tokens, at + 2, depth, high, bc, 2);
    lemma_lift(tokens, at + 2, depth, low + 1, high, bc, 2);
    lemma_head(tokens, at, depth, low, a, 0);
    lemma_fold(tokens, at, depth, low, a, 0, first, bc, 2);
    lemma_stop(tokens, at, depth, low, abc, 4);
}

/// Of two operators between three literals or names, with no operator after
/// the third: the second operator takes the two operands around it only
/// when it binds tighter than the first. Otherwise the first operator takes
/// its two operands first, so operators of one tier group to the left.
pub proof fn lemma_grouping(
    tokens: Seq<Spanned<TokenView>>,
    at: int,
    depth: nat,
    first: BinaryOperator,
    second: BinaryOperator,
)
    requires
        is_leaf_at(tokens, at),
        operator_kind_at(tokens, at + 1) == Some(first),
        is_leaf_at(tokens, at + 2),
        operator_kind_at(tokens, at + 3) == Some(second),
        is_leaf_at(tokens, at + 4),
        operator_kind_at(tokens, at + 5) is None,
    ensures
        expression(tokens, at, depth) == (Parsed::Done {
            value: if tier_of(first) < tier_of(second) {
                binary_node(
                    leaf_at(tokens, at),
                    first,
                    binary_node(leaf_at(tokens, at + 2), second, leaf_at(tokens, at + 4)),
                )
            } else {
                binary_node(
                    binary_node(leaf_at(tokens, at), first, leaf_at(tokens, at + 2)),
                    second,
                    leaf_at(tokens, at + 4),
                )
            },
            more: 4,
        }),
{
    reveal(expression);
    reveal(binary);
    lemma_tier_bound(first);
    lemma_tier_bound(second);
    if tier_of(first) < tier_of(second) {
        lemma_tighter_second(tokens, at, depth, first, second);
        let value = binary_node(
            leaf_at(tokens, at),
            first,
            binary_node(leaf_at(tokens, at + 2), second, leaf_at(tokens, at + 4)),
        );
        lemma_lift(tokens, at, depth, 0, tier_of(first), value, 4);
    } else {
        lemma_same_tier(tokens, at, depth, first, second);
        let value = binary_node(
            binary_node(leaf_at(tokens, at), first, leaf_at(tokens, at + 2)),
            second,
            leaf_at(tokens, at + 4),
        );
        lemma_lift(tokens, at, depth, 0, tier_of(second), value, 4);
    }
}

} // verus!
