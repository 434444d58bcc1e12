//! The round trip of the fixed spellings: the canonical text of a token of
//! a fixed kind is lexed to exactly that token.

use vstd::prelude::*;
use vstd::utf8::encode_utf8;

use crate::lexer::{
    identifier_end, lexeme_at, occurs_at, reserved_word, skip_trivia, spelled_at, symbol_at,
    tokenization, tokens_from, word_token, Lexeme,
};
use crate::span::{Span, Spanned};
use crate::spellings::{
    lemma_boolean_spellings, lemma_symbol_spellings, lemma_word_spellings, spelling_bytes,
};
use crate::token::{TokenKind, TokenView};

verus! {

/// Whether the byte `c` stands at offset `at`.
pub open spec fn byte_at(bytes: Seq<u8>, at: int, c: u8) -> bool {
    0 <= at < bytes.len() && bytes[at] == c
}

/// Whether the bytes `c` and `d` stand at offsets `at` and `at + 1`.
pub open spec fn pair_at(bytes: Seq<u8>, at: int, c: u8, d: u8) -> bool {
    0 <= at && at + 1 < bytes.len() && bytes[at] == c && bytes[at + 1] == d
}

proof fn lemma_occurs_one(bytes: Seq<u8>, at: int, c: u8)
    ensures
        occurs_at(bytes, at, seq![c]) <==> byte_at(bytes, at, c),
{
    if 0 <= at < bytes.len() {
        let part = bytes.subrange(at, at + 1);
        assert(part[0] == bytes[at]);
        if bytes[at] == c {
            assert(part =~= seq![c]);
        }
    }
}

proof fn lemma_occurs_two(bytes: Seq<u8>, at: int, c: u8, d: u8)
    ensures
        occurs_at(bytes, at, seq![c, d]) <==> pair_at(bytes, at, c, d),
{
    if 0 <= at && at + 1 < bytes.len() {
        let part = bytes.subrange(at, at + 2);
        assert(part[0] == bytes[at]);
        assert(part[1] == bytes[at + 1]);
        if bytes[at] == c && bytes[at + 1] == d {
            assert(part =~= seq![c, d]);
        }
    }
}

/// Where each symbol is spelled, in terms of single bytes.
pub proof fn lemma_symbol_conditions(bytes: Seq<u8>, at: int)
    ensures
        spelled_at(bytes, at, TokenKind::LessOrEqual) <==> pair_at(bytes, at, '<' as u8, '=' as u8),
        spelled_at(bytes, at, TokenKind::GreaterOrEqual) <==> pair_at(bytes, at, '>' as u8, '=' as u8),
        spelled_at(bytes, at, TokenKind::Equals) <==> pair_at(bytes, at, '=' as u8, '=' as u8),
        spelled_at(bytes, at, TokenKind::NotEquals) <==> pair_at(bytes, at, '!' as u8, '=' as u8),
        spelled_at(bytes, at, TokenKind::FatArrow) <==> pair_at(bytes, at, '=' as u8, '>' as u8),
        spelled_at(bytes, at, TokenKind::Add) <==> byte_at(bytes, at, '+' as u8),
        spelled_at(bytes, at, TokenKind::Sub) <==> byte_at(bytes, at, '-' as u8),
        spelled_at(bytes, at, TokenKind::Mul) <==> byte_at(bytes, at, '*' as u8),
        spelled_at(bytes, at, TokenKind::Div) <==> byte_at(bytes, at, '/' as u8),
        spelled_at(bytes, at, TokenKind::Less) <==> byte_at(bytes, at, '<' as u8),
        spelled_at(bytes, at, TokenKind::Greater) <==> byte_at(bytes, at, '>' as u8),
        spelled_at(bytes, at, TokenKind::Assign) <==> byte_at(bytes, at, '=' as u8),
        spelled_at(bytes, at, TokenKind::CurlyBraceOpen) <==> byte_at(bytes, at, '{' as u8),
        spelled_at(bytes, at, TokenKind::CurlyBraceClose) <==> byte_at(bytes, at, '}' as u8),
        spelled_at(bytes, at, TokenKind::BracketOpen) <==> byte_at(bytes, at, '[' as u8),
        spelled_at(bytes, at, TokenKind::BracketClose) <==> byte_at(bytes, at, ']' as u8),
        spelled_at(bytes, at, TokenKind::ParenOpen) <==> byte_at(bytes, at, '(' as u8),
        spelled_at(bytes, at, TokenKind::ParenClosed) <==> byte_at(bytes, at, ')' as u8),
        spelled_at(bytes, at, TokenKind::Colon) <==> byte_at(bytes, at, ':' as u8),
        spelled_at(bytes, at, TokenKind::Comma) <==> byte_at(bytes, at, ',' as u8),
        spelled_at(bytes, at, TokenKind::Dot) <==> byte_at(bytes, at, '.' as u8),
        spelled_at(bytes, at, TokenKind::Semicolon) <==> byte_at(bytes, at, ';' as u8),
{
    lemma_symbol_spellings();
    lemma_occurs_two(bytes, at, '<' as u8, '=' as u8);
    lemma_occurs_two(bytes, at, '>' as u8, '=' as u8);
    lemma_occurs_two(bytes, at, '=' as u8, '=' as u8);
    lemma_occurs_two(bytes, at, '!' as u8, '=' as u8);
    lemma_occurs_two(bytes, at, '=' as u8, '>' as u8);
    lemma_occurs_one(bytes, at, '+' as u8);
    lemma_occurs_one(bytes, at, '-' as u8);
    lemma_occurs_one(bytes, at, '*' as u8);
    lemma_occurs_one(bytes, at, '/' as u8);
    lemma_occurs_one(bytes, at, '<' as u8);
    lemma_occurs_one(bytes, at, '>' as u8);
    lemma_occurs_one(bytes, at, '=' as u8);
    lemma_occurs_one(bytes, at, '{' as u8);
    lemma_occurs_one(bytes, at, '}' as u8);
    lemma_occurs_one(bytes, at, '[' as u8);
    lemma_occurs_one(bytes, at, ']' as u8);
    lemma_occurs_one(bytes, at, '(' as u8);
    lemma_occurs_one(bytes, at, ')' as u8);
    lemma_occurs_one(bytes, at, ':' as u8);
    lemma_occurs_one(bytes, at, ',' as u8);
    lemma_occurs_one(bytes, at, '.' as u8);
    lemma_occurs_one(bytes, at, ';' as u8);
}

/// The kinds that are spelled with symbols.
pub open spec fn is_symbol(kind: TokenKind) -> bool {
    match kind {
        TokenKind::LessOrEqual
        | TokenKind::GreaterOrEqual
        | TokenKind::Equals
        | TokenKind::NotEquals
        | TokenKind::FatArrow
        | TokenKind::Add
        | TokenKind::Sub
        | TokenKind::Mul
        | TokenKind::Div
        | TokenKind::Less
        | TokenKind::Greater
        | TokenKind::Assign
        | TokenKind::CurlyBraceOpen
        | TokenKind::CurlyBraceClose
        | TokenKind::BracketOpen
        | TokenKind::BracketClose
        | TokenKind::ParenOpen
        | TokenKind::ParenClosed
        | TokenKind::Colon
        | TokenKind::Comma
        | TokenKind::Dot
        | TokenKind::Semicolon => true,
        _ => false,
    }
}

/// The kinds that are spelled with a reserved word.
pub open spec fn is_word(kind: TokenKind) -> bool {
    kind.is_fixed() && !is_symbol(kind)
}

/// An input that holds one token and nothing else lexes to that token.
pub proof fn lemma_single_token(bytes: Seq<u8>, token: TokenView)
    requires
        0 < bytes.len(),
        skip_trivia(bytes, 0) == 0,
        lexeme_at(bytes, 0) == (Lexeme { token, end: bytes.len() as int }),
    ensures
        tokenization(bytes) == seq![
            Spanned { value: token, span: Span { start: 0, end: bytes.len() as usize } },
        ],
{
    let n = bytes.len() as int;
    assert(skip_trivia(bytes, n) == n);
    assert(tokens_from(bytes, n) =~= Seq::empty());
    assert(tokens_from(bytes, 0) =~= seq![
        Spanned { value: token, span: Span { start: 0, end: bytes.len() as usize } },
    ] + tokens_from(bytes, n));
}

/// The spelling of a symbol holds one lexeme: the symbol.
pub proof fn lemma_symbol_lexeme(kind: TokenKind)
    requires
        is_symbol(kind),
    ensures
        skip_trivia(spelling_bytes(kind), 0) == 0,
        lexeme_at(spelling_bytes(kind), 0) == (Lexeme {
            token: kind.token(),
            end: spelling_bytes(kind).len() as int,
        }),
        0 < spelling_bytes(kind).len(),
{
    let bytes = spelling_bytes(kind);
    lemma_symbol_spellings();
    lemma_symbol_conditions(bytes, 0);
    reveal(symbol_at);
    assert(symbol_at(bytes, 0) == Some(kind));
}

/// A text of lower-case letters holds one lexeme: the word.
pub proof fn lemma_letters_lexeme(bytes: Seq<u8>)
    requires
        0 < bytes.len(),
        forall|i: int| 0 <= i < bytes.len() ==> 'a' as u8 <= #[trigger] bytes[i] <= 'z' as u8,
    ensures
        skip_trivia(bytes, 0) == 0,
        lexeme_at(bytes, 0) == (Lexeme { token: word_token(bytes), end: bytes.len() as int }),
{
    assert('a' as u8 <= bytes[0] <= 'z' as u8);
    lemma_symbol_conditions(bytes, 0);
    reveal(symbol_at);
    assert(symbol_at(bytes, 0) is None);
    lemma_letters_run(bytes, 1);
    assert(bytes.subrange(0, bytes.len() as int) =~= bytes);
}

proof fn lemma_letters_run(bytes: Seq<u8>, from: int)
    requires
        0 <= from <= bytes.len(),
        forall|i: int| 0 <= i < bytes.len() ==> 'a' as u8 <= #[trigger] bytes[i] <= 'z' as u8,
    ensures
        identifier_end(bytes, from) == bytes.len(),
    decreases bytes.len() - from,
{
    if from < bytes.len() {
        assert('a' as u8 <= bytes[from] <= 'z' as u8);
        lemma_letters_run(bytes, from + 1);
    }
}

/// The spelling of a reserved word is that word and no other, and no
/// boolean literal.
pub proof fn lemma_word_token(kind: TokenKind)
    requires
        is_word(kind),
    ensures
        word_token(spelling_bytes(kind)) == kind.token(),
        0 < spelling_bytes(kind).len(),
        forall|i: int|
            0 <= i < spelling_bytes(kind).len() ==> 'a' as u8 <= #[trigger] spelling_bytes(
                kind,
            )[i] <= 'z' as u8,
{
    let bytes = spelling_bytes(kind);
    lemma_word_spellings();
    lemma_boolean_spellings();
    reveal(reserved_word);
    assert(bytes[0] == bytes[0]);
    assert(bytes.len() >= 2);
    assert(bytes[1] == bytes[1]);
    if bytes.len() >= 3 {
        assert(bytes[2] == bytes[2]);
    }
    assert(reserved_word(bytes) == Some(kind));
}

/// The canonical text of a token of a fixed kind (an operator, a
/// punctuation mark or a keyword) is lexed to that token alone, spanning the
/// whole text.
pub proof fn lemma_fixed_round_trip(kind: TokenKind)
    requires
        kind.is_fixed(),
    ensures
        tokenization(spelling_bytes(kind)) == seq![
            Spanned {
                value: kind.token(),
                span: Span { start: 0, end: spelling_bytes(kind).len() as usize },
            },
        ],
{
    if is_symbol(kind) {
        lemma_symbol_lexeme(kind);
    } else {
        lemma_word_token(kind);
        lemma_letters_lexeme(spelling_bytes(kind));
    }
    lemma_single_token(spelling_bytes(kind), kind.token());
}

/// The text of a boolean literal is lexed to that literal alone.
pub proof fn lemma_boolean_round_trip(value: bool)
    ensures
        tokenization(encode_utf8(TokenView::Bool(value).text())) == seq![
            Spanned {
                value: TokenView::Bool(value),
                span: Span {
                    start: 0,
                    end: encode_utf8(TokenView::Bool(value).text()).len() as usize,
                },
            },
        ],
{
    let bytes = encode_utf8(TokenView::Bool(value).text());
    lemma_boolean_spellings();
    assert(bytes[0] == bytes[0]);
    assert forall|i: int| 0 <= i < bytes.len() implies 'a' as u8 <= #[trigger] bytes[i]
        <= 'z' as u8 by {}
    lemma_letters_lexeme(bytes);
    lemma_single_token(bytes, TokenView::Bool(value));
}

} // verus!
