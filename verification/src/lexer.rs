//! The lexer: from a source buffer to spanned tokens.
//!
//! The lexical grammar is written as `spec` functions over the bytes of
//! the source; the executable lexer is proved to produce exactly the token
//! sequence they describe.

use vstd::prelude::*;
use vstd::string::StringSliceAdditionalSpecFns;
use vstd::utf8::*;
use crate::charset::{
    digit, identifier_start, is_digit, is_hex_digit, is_identifier_byte, is_identifier_start,
    is_simple_escape, is_whitespace, whitespace,
};
use crate::span::{Span, Spanned};
use crate::spellings::{lemma_symbol_spellings, spelling_bytes};
use crate::scan::{magnitude, scan_digits, scan_identifier, scan_string, skip, starts_with};
use crate::text::{lemma_ascii_boundaries, lemma_source_valid, slice};
use crate::token::{Token, TokenKind, TokenView};

verus! {

/// Whether `word` occurs in `bytes` at offset `at`.
pub open spec fn occurs_at(bytes: Seq<u8>, at: int, word: Seq<u8>) -> bool {
    &&& 0 <= at
    &&& at + word.len() <= bytes.len()
    &&& bytes.subrange(at, at + word.len()) == word
}

/// The end of the run of digits that starts at `at`.
pub open spec fn digits_end(bytes: Seq<u8>, at: int) -> int
    decreases bytes.len() - at,
{
    if 0 <= at < bytes.len() && is_digit(bytes[at]) {
        digits_end(bytes, at + 1)
    } else {
        at
    }
}

/// The end of the run of identifier bytes that starts at `at`.
pub open spec fn identifier_end(bytes: Seq<u8>, at: int) -> int
    decreases bytes.len() - at,
{
    if 0 <= at < bytes.len() && is_identifier_byte(bytes[at]) {
        identifier_end(bytes, at + 1)
    } else {
        at
    }
}

/// The offset of the first line feed at or after `at`, or the end of input.
pub open spec fn line_end(bytes: Seq<u8>, at: int) -> int
    decreases bytes.len() - at,
{
    if 0 <= at < bytes.len() && bytes[at] != '\n' as u8 {
        line_end(bytes, at + 1)
    } else {
        at
    }
}

/// The offset just past the first `*/` that starts at or after `at`, if any.
pub open spec fn block_comment_end(bytes: Seq<u8>, at: int) -> Option<int>
    decreases bytes.len() - at,
{
    if at < 0 || at + 2 > bytes.len() {
        None
    } else if bytes[at] == '*' as u8 && bytes[at + 1] == '/' as u8 {
        Some(at + 2)
    } else {
        block_comment_end(bytes, at + 1)
    }
}

/// Whether a line comment (`//` up to the end of the line) starts at `at`.
pub open spec fn line_comment_at(bytes: Seq<u8>, at: int) -> bool {
    0 <= at && at + 2 <= bytes.len() && bytes[at] == '/' as u8 && bytes[at + 1] == '/' as u8
}

/// Whether a block comment (`/*` up to the next `*/`) starts at `at`. An
/// opening `/*` that is never closed is no comment.
pub open spec fn block_comment_at(bytes: Seq<u8>, at: int) -> bool {
    &&& 0 <= at
    &&& at + 2 <= bytes.len()
    &&& bytes[at] == '/' as u8
    &&& bytes[at + 1] == '*' as u8
    &&& block_comment_end(bytes, at + 2) is Some
}

/// The first offset at or after `at` that is neither whitespace nor inside a
/// comment: where the next token starts, or the end of input.
pub open spec fn skip_trivia(bytes: Seq<u8>, at: int) -> int
    decreases bytes.len() - at,
{
    if at < 0 || at >= bytes.len() {
        at
    } else if is_whitespace(bytes[at]) {
        skip_trivia(bytes, at + 1)
    } else if line_comment_at(bytes, at) {
        proof {
            lemma_line_end_bounds(bytes, at + 2);
        }
        skip_trivia(bytes, line_end(bytes, at + 2))
    } else if block_comment_at(bytes, at) {
        proof {
            lemma_block_comment_end_bounds(bytes, at + 2);
        }
        skip_trivia(bytes, block_comment_end(bytes, at + 2)->0)
    } else {
        at
    }
}

/// Whether a numeric literal starts at `at`: a digit, or `-` and a digit.
pub open spec fn number_at(bytes: Seq<u8>, at: int) -> bool {
    &&& 0 <= at < bytes.len()
    &&& (is_digit(bytes[at]) || (bytes[at] == '-' as u8 && at + 1 < bytes.len() && is_digit(
        bytes[at + 1],
    )))
}

/// The offset of the first digit of the numeric literal at `at`.
pub open spec fn number_digits_start(bytes: Seq<u8>, at: int) -> int {
    if bytes[at] == '-' as u8 {
        at + 1
    } else {
        at
    }
}

/// The end of the whole part of the numeric literal whose first digit is at
/// `first`: a lone `0`, or a run of digits that does not start with `0`.
pub open spec fn whole_end(bytes: Seq<u8>, first: int) -> int {
    if bytes[first] == '0' as u8 {
        first + 1
    } else {
        digits_end(bytes, first)
    }
}

/// Whether a fractional part (`.` and at least one digit) starts at `at`.
pub open spec fn fraction_at(bytes: Seq<u8>, at: int) -> bool {
    0 <= at && at + 1 < bytes.len() && bytes[at] == '.' as u8 && is_digit(bytes[at + 1])
}

/// The end of the numeric literal at `at`.
pub open spec fn number_end(bytes: Seq<u8>, at: int) -> int {
    let whole = whole_end(bytes, number_digits_start(bytes, at));
    if fraction_at(bytes, whole) {
        digits_end(bytes, whole + 1)
    } else {
        whole
    }
}

/// The number that a sequence of decimal digits denotes.
pub open spec fn decimal_value(digits: Seq<u8>) -> nat
    decreases digits.len(),
{
    if digits.len() == 0 {
        0
    } else {
        (10 * decimal_value(digits.drop_last()) + (digits.last() - '0' as u8)) as nat
    }
}

/// The value of the integer literal that spans `at .. end`.
pub open spec fn integer_value(bytes: Seq<u8>, at: int, end: int) -> int {
    let first = number_digits_start(bytes, at);
    let magnitude = decimal_value(bytes.subrange(first, end)) as int;
    if first == at {
        magnitude
    } else {
        -magnitude
    }
}

/// The token for the numeric literal at `at`. A literal with a fractional
/// part keeps its text; one without is an integer, or an error when its
/// value does not fit in 64 bits.
pub open spec fn number_token(bytes: Seq<u8>, at: int) -> TokenView {
    let end = number_end(bytes, at);
    if fraction_at(bytes, whole_end(bytes, number_digits_start(bytes, at))) {
        TokenView::Float(decode_utf8(bytes.subrange(at, end)))
    } else {
        let value = integer_value(bytes, at, end);
        if i64::MIN <= value <= i64::MAX {
            TokenView::Integer(value as i64)
        } else {
            TokenView::Error
        }
    }
}

/// Whether a `\uXXXX` escape starts at `at`.
pub open spec fn unicode_escape_at(bytes: Seq<u8>, at: int) -> bool {
    &&& 0 <= at
    &&& at + 6 <= bytes.len()
    &&& bytes[at] == '\\' as u8
    &&& bytes[at + 1] == 'u' as u8
    &&& is_hex_digit(bytes[at + 2])
    &&& is_hex_digit(bytes[at + 3])
    &&& is_hex_digit(bytes[at + 4])
    &&& is_hex_digit(bytes[at + 5])
}

/// Whether a two-byte escape (`\"`, `\\`, `\b`, `\n`, `\f`, `\r`, `\t`)
/// starts at `at`.
pub open spec fn simple_escape_at(bytes: Seq<u8>, at: int) -> bool {
    &&& 0 <= at
    &&& at + 2 <= bytes.len()
    &&& bytes[at] == '\\' as u8
    &&& is_simple_escape(bytes[at + 1])
}

/// For a string literal whose body continues at `at`: the offset just past
/// its closing quote, or `None` when the body holds a malformed escape or is
/// never closed.
pub open spec fn string_end(bytes: Seq<u8>, at: int) -> Option<int>
    decreases bytes.len() - at,
{
    if at < 0 || at >= bytes.len() {
        None
    } else if bytes[at] == '"' as u8 {
        Some(at + 1)
    } else if simple_escape_at(bytes, at) {
        string_end(bytes, at + 2)
    } else if unicode_escape_at(bytes, at) {
        string_end(bytes, at + 6)
    } else if bytes[at] == '\\' as u8 {
        None
    } else {
        string_end(bytes, at + 1)
    }
}

/// Whether the spelling of `kind` occurs in `bytes` at `at`.
pub open spec fn spelled_at(bytes: Seq<u8>, at: int, kind: TokenKind) -> bool {
    occurs_at(bytes, at, spelling_bytes(kind))
}

/// The symbol token that starts at `at`, if any. The two-byte symbols are
/// tried first, so the longest match wins.
#[verifier::opaque]
pub open spec fn symbol_at(bytes: Seq<u8>, at: int) -> Option<TokenKind> {
    if spelled_at(bytes, at, TokenKind::LessOrEqual) {
        Some(TokenKind::LessOrEqual)
    } else if spelled_at(bytes, at, TokenKind::GreaterOrEqual) {
        Some(TokenKind::GreaterOrEqual)
    } else if spelled_at(bytes, at, TokenKind::Equals) {
        Some(TokenKind::Equals)
    } else if spelled_at(bytes, at, TokenKind::NotEquals) {
        Some(TokenKind::NotEquals)
    } else if spelled_at(bytes, at, TokenKind::FatArrow) {
        Some(TokenKind::FatArrow)
    } else if spelled_at(bytes, at, TokenKind::Add) {
        Some(TokenKind::Add)
    } else if spelled_at(bytes, at, TokenKind::Sub) {
        Some(TokenKind::Sub)
    } else if spelled_at(bytes, at, TokenKind::Mul) {
        Some(TokenKind::Mul)
    } else if spelled_at(bytes, at, TokenKind::Div) {
        Some(TokenKind::Div)
    } else if spelled_at(bytes, at, TokenKind::Less) {
        Some(TokenKind::Less)
    } else if spelled_at(bytes, at, TokenKind::Greater) {
        Some(TokenKind::Greater)
    } else if spelled_at(bytes, at, TokenKind::Assign) {
        Some(TokenKind::Assign)
    } else if spelled_at(bytes, at, TokenKind::CurlyBraceOpen) {
        Some(TokenKind::CurlyBraceOpen)
    } else if spelled_at(bytes, at, TokenKind::CurlyBraceClose) {
        Some(TokenKind::CurlyBraceClose)
    } else if spelled_at(bytes, at, TokenKind::BracketOpen) {
        Some(TokenKind::BracketOpen)
    } else if spelled_at(bytes, at, TokenKind::BracketClose) {
        Some(TokenKind::BracketClose)
    } else if spelled_at(bytes, at, TokenKind::ParenOpen) {
        Some(TokenKind::ParenOpen)
    } else if spelled_at(bytes, at, TokenKind::ParenClosed) {
        Some(TokenKind::ParenClosed)
    } else if spelled_at(bytes, at, TokenKind::Colon) {
        Some(TokenKind::Colon)
    } else if spelled_at(bytes, at, TokenKind::Comma) {
        Some(TokenKind::Comma)
    } else if spelled_at(bytes, at, TokenKind::Dot) {
        Some(TokenKind::Dot)
    } else if spelled_at(bytes, at, TokenKind::Semicolon) {
        Some(TokenKind::Semicolon)
    } else {
        None
    }
}

/// The reserved word that `text` spells in full, if any.
#[verifier::opaque]
pub open spec fn reserved_word(text: Seq<u8>) -> Option<TokenKind> {
    if text == spelling_bytes(TokenKind::Mod) {
        Some(TokenKind::Mod)
    } else if text == spelling_bytes(TokenKind::And) {
        Some(TokenKind::And)
    } else if text == spelling_bytes(TokenKind::Not) {
        Some(TokenKind::Not)
    } else if text == spelling_bytes(TokenKind::Or) {
        Some(TokenKind::Or)
    } else if text == spelling_bytes(TokenKind::Nor) {
        Some(TokenKind::Nor)
    } else if text == spelling_bytes(TokenKind::Fn) {
        Some(TokenKind::Fn)
    } else if text == spelling_bytes(TokenKind::Nil) {
        Some(TokenKind::Nil)
    } else if text == spelling_bytes(TokenKind::Return) {
        Some(TokenKind::Return)
    } else if text == spelling_bytes(TokenKind::If) {
        Some(TokenKind::If)
    } else if text == spelling_bytes(TokenKind::Unless) {
        Some(TokenKind::Unless)
    } else if text == spelling_bytes(TokenKind::Else) {
        Some(TokenKind::Else)
    } else if text == spelling_bytes(TokenKind::While) {
        Some(TokenKind::While)
    } else if text == spelling_bytes(TokenKind::Until) {
        Some(TokenKind::Until)
    } else if text == spelling_bytes(TokenKind::For) {
        Some(TokenKind::For)
    } else if text == spelling_bytes(TokenKind::In) {
        Some(TokenKind::In)
    } else if text == spelling_bytes(TokenKind::Do) {
        Some(TokenKind::Do)
    } else if text == spelling_bytes(TokenKind::Let) {
        Some(TokenKind::Let)
    } else if text == spelling_bytes(TokenKind::Var) {
        Some(TokenKind::Var)
    } else {
        None
    }
}

/// The token for a maximal run of identifier bytes: a boolean literal or a
/// reserved word when the run spells one exactly, an identifier otherwise.
pub open spec fn word_token(text: Seq<u8>) -> TokenView {
    if text == encode_utf8("true"@) {
        TokenView::Bool(true)
    } else if text == encode_utf8("false"@) {
        TokenView::Bool(false)
    } else {
        match reserved_word(text) {
            Some(kind) => kind.token(),
            None => TokenView::Identifier(decode_utf8(text)),
        }
    }
}

/// A token together with the offset at which it ends.
pub struct Lexeme {
    pub token: TokenView,
    pub end: int,
}

/// The token that starts at `at`, which must be the offset of a byte that
/// `skip_trivia` stops at. The rules, in order: a numeric literal; a string
/// literal; the longest symbol; a run of identifier bytes. Input that fits
/// none of them is an error token one byte long.
pub open spec fn lexeme_at(bytes: Seq<u8>, at: int) -> Lexeme {
    if number_at(bytes, at) {
        Lexeme { token: number_token(bytes, at), end: number_end(bytes, at) }
    } else if bytes[at] == '"' as u8 {
        match string_end(bytes, at + 1) {
            Some(end) => Lexeme {
                token: TokenView::String(decode_utf8(bytes.subrange(at + 1, end - 1))),
                end,
            },
            None => Lexeme { token: TokenView::Error, end: at + 1 },
        }
    } else if symbol_at(bytes, at) is Some {
        let kind = symbol_at(bytes, at)->0;
        Lexeme { token: kind.token(), end: at + spelling_bytes(kind).len() }
    } else if is_identifier_start(bytes[at]) {
        let end = identifier_end(bytes, at + 1);
        Lexeme { token: word_token(bytes.subrange(at, end)), end }
    } else {
        Lexeme { token: TokenView::Error, end: at + 1 }
    }
}

/// The tokens of `bytes` from offset `at` on, each with its span.
pub open spec fn tokens_from(bytes: Seq<u8>, at: int) -> Seq<Spanned<TokenView>>
    decreases bytes.len() - at,
{
    let start = skip_trivia(bytes, at);
    if 0 <= at <= start < bytes.len() {
        let lexeme = lexeme_at(bytes, start);
        proof {
            lemma_lexeme_bounds(bytes, start);
        }
        seq![
            Spanned {
                value: lexeme.token,
                span: Span { start: start as usize, end: lexeme.end as usize },
            },
        ] + tokens_from(bytes, lexeme.end)
    } else {
        Seq::empty()
    }
}

/// The tokens of a whole source buffer.
pub open spec fn tokenization(bytes: Seq<u8>) -> Seq<Spanned<TokenView>> {
    tokens_from(bytes, 0)
}

/// The end of a line lies within the input, at a line feed or at the end.
pub proof fn lemma_line_end_bounds(bytes: Seq<u8>, at: int)
    requires
        0 <= at <= bytes.len(),
    ensures
        at <= line_end(bytes, at) <= bytes.len(),
        line_end(bytes, at) < bytes.len() ==> bytes[line_end(bytes, at)] == '\n' as u8,
    decreases bytes.len() - at,
{
    if at < bytes.len() && bytes[at] != '\n' as u8 {
        lemma_line_end_bounds(bytes, at + 1);
    }
}

/// A block comment ends within the input, right after a `/`.
pub proof fn lemma_block_comment_end_bounds(bytes: Seq<u8>, at: int)
    requires
        0 <= at,
    ensures
        block_comment_end(bytes, at) matches Some(end) ==> at + 2 <= end <= bytes.len()
            && bytes[end - 1] == '/' as u8,
    decreases bytes.len() - at,
{
    if at + 2 <= bytes.len() && !(bytes[at] == '*' as u8 && bytes[at + 1] == '/' as u8) {
        lemma_block_comment_end_bounds(bytes, at + 1);
    }
}

/// A run of digits ends within the input, holds only digits and is maximal.
pub proof fn lemma_digits_end_bounds(bytes: Seq<u8>, at: int)
    requires
        0 <= at <= bytes.len(),
    ensures
        at <= digits_end(bytes, at) <= bytes.len(),
        forall|k: int| at <= k < digits_end(bytes, at) ==> is_digit(#[trigger] bytes[k]),
        digits_end(bytes, at) < bytes.len() ==> !is_digit(bytes[digits_end(bytes, at)]),
    decreases bytes.len() - at,
{
    if at < bytes.len() && is_digit(bytes[at]) {
        lemma_digits_end_bounds(bytes, at + 1);
    }
}

/// A run of identifier bytes ends within the input, holds only such bytes and
/// is maximal.
pub proof fn lemma_identifier_end_bounds(bytes: Seq<u8>, at: int)
    requires
        0 <= at <= bytes.len(),
    ensures
        at <= identifier_end(bytes, at) <= bytes.len(),
        forall|k: int|
            at <= k < identifier_end(bytes, at) ==> is_identifier_byte(#[trigger] bytes[k]),
        identifier_end(bytes, at) < bytes.len() ==> !is_identifier_byte(
            bytes[identifier_end(bytes, at)],
        ),
    decreases bytes.len() - at,
{
    if at < bytes.len() && is_identifier_byte(bytes[at]) {
        lemma_identifier_end_bounds(bytes, at + 1);
    }
}

/// A string literal ends within the input, right after a quote.
pub proof fn lemma_string_end_bounds(bytes: Seq<u8>, at: int)
    requires
        0 <= at,
    ensures
        string_end(bytes, at) matches Some(end) ==> at < end <= bytes.len() && bytes[end - 1]
            == '"' as u8,
    decreases bytes.len() - at,
{
    if at < bytes.len() && bytes[at] != '"' as u8 {
        if simple_escape_at(bytes, at) {
            lemma_string_end_bounds(bytes, at + 2);
        } else if unicode_escape_at(bytes, at) {
            lemma_string_end_bounds(bytes, at + 6);
        } else if bytes[at] != '\\' as u8 {
            lemma_string_end_bounds(bytes, at + 1);
        }
    }
}

/// A numeric literal is not empty and ends within the input.
pub proof fn lemma_number_end_bounds(bytes: Seq<u8>, at: int)
    requires
        number_at(bytes, at),
    ensures
        at < number_end(bytes, at) <= bytes.len(),
{
    let first = number_digits_start(bytes, at);
    lemma_digits_end_bounds(bytes, first);
    let whole = whole_end(bytes, first);
    assert(first < whole <= bytes.len()) by {
        if bytes[first] != '0' as u8 {
            lemma_digits_end_bounds(bytes, first + 1);
        }
    }
    if fraction_at(bytes, whole) {
        lemma_digits_end_bounds(bytes, whole + 1);
    }
}

/// A symbol found at `at` is a fixed kind whose one or two ASCII bytes occur
/// there.
pub proof fn lemma_symbol_at(bytes: Seq<u8>, at: int)
    requires
        0 <= at,
    ensures
        symbol_at(bytes, at) matches Some(kind) ==> {
            &&& kind.is_fixed()
            &&& spelled_at(bytes, at, kind)
            &&& 1 <= spelling_bytes(kind).len() <= 2
            &&& bytes[at + spelling_bytes(kind).len() - 1] < 0x80
            &&& !is_identifier_start(bytes[at])
        },
{
    reveal(symbol_at);
    if symbol_at(bytes, at) is Some {
        let kind = symbol_at(bytes, at)->0;
        let word = spelling_bytes(kind);
        lemma_symbol_spellings();
        let part = bytes.subrange(at, at + word.len());
        assert(part[0] == bytes[at]);
        assert(part[word.len() - 1] == bytes[at + word.len() - 1]);
    }
}

/// Every token is at least one byte long and ends within the input.
pub proof fn lemma_lexeme_bounds(bytes: Seq<u8>, at: int)
    requires
        0 <= at < bytes.len(),
    ensures
        at < lexeme_at(bytes, at).end <= bytes.len(),
{
    if number_at(bytes, at) {
        lemma_number_end_bounds(bytes, at);
    } else if bytes[at] == '"' as u8 {
        lemma_string_end_bounds(bytes, at + 1);
    } else if symbol_at(bytes, at) is Some {
        lemma_symbol_at(bytes, at);
    } else if is_identifier_start(bytes[at]) {
        lemma_identifier_end_bounds(bytes, at + 1);
    }
}

/// Skipping whitespace and comments from a character boundary stops at a
/// character boundary.
pub proof fn lemma_skip_trivia_boundary(bytes: Seq<u8>, at: int)
    requires
        valid_utf8(bytes),
        0 <= at <= bytes.len(),
        is_char_boundary(bytes, at),
    ensures
        at <= skip_trivia(bytes, at) <= bytes.len(),
        is_char_boundary(bytes, skip_trivia(bytes, at)),
    decreases bytes.len() - at,
{
    if at < bytes.len() {
        if is_whitespace(bytes[at]) {
            lemma_ascii_boundaries(bytes, at);
            lemma_skip_trivia_boundary(bytes, at + 1);
        } else if line_comment_at(bytes, at) {
            let end = line_end(bytes, at + 2);
            lemma_line_end_bounds(bytes, at + 2);
            if end < bytes.len() {
                lemma_ascii_boundaries(bytes, end);
            } else {
                is_char_boundary_start_end_of_seq(bytes);
            }
            lemma_skip_trivia_boundary(bytes, end);
        } else if block_comment_at(bytes, at) {
            let end = block_comment_end(bytes, at + 2)->0;
            lemma_block_comment_end_bounds(bytes, at + 2);
            lemma_ascii_boundaries(bytes, end - 1);
            lemma_skip_trivia_boundary(bytes, end);
        }
    }
}

/// A token ends at a character boundary, and so does the body of a string
/// literal at both ends.
pub proof fn lemma_lexeme_boundary(bytes: Seq<u8>, at: int)
    requires
        valid_utf8(bytes),
        0 <= at < bytes.len(),
    ensures
        is_char_boundary(bytes, lexeme_at(bytes, at).end),
        bytes[at] == '"' as u8 && string_end(bytes, at + 1) is Some ==> is_char_boundary(
            bytes,
            at + 1,
        ) && is_char_boundary(bytes, string_end(bytes, at + 1)->0 - 1),
{
    let end = lexeme_at(bytes, at).end;
    lemma_lexeme_bounds(bytes, at);
    if number_at(bytes, at) {
        let first = number_digits_start(bytes, at);
        let whole = whole_end(bytes, first);
        lemma_digits_end_bounds(bytes, first);
        if bytes[first] != '0' as u8 {
            lemma_digits_end_bounds(bytes, first + 1);
        }
        if fraction_at(bytes, whole) {
            lemma_digits_end_bounds(bytes, whole + 1);
            lemma_digits_end_bounds(bytes, whole + 2);
        }
        assert(is_digit(bytes[end - 1]));
        lemma_ascii_boundaries(bytes, end - 1);
    } else if bytes[at] == '"' as u8 {
        lemma_string_end_bounds(bytes, at + 1);
        lemma_ascii_boundaries(bytes, at);
        lemma_ascii_boundaries(bytes, end - 1);
    } else if symbol_at(bytes, at) is Some {
        lemma_symbol_at(bytes, at);
        lemma_ascii_boundaries(bytes, end - 1);
    } else if is_identifier_start(bytes[at]) {
        lemma_identifier_end_bounds(bytes, at + 1);
        if end < bytes.len() {
            lemma_ascii_boundaries(bytes, end);
        } else {
            is_char_boundary_start_end_of_seq(bytes);
        }
    } else {
        lemma_ascii_boundaries(bytes, at);
    }
}

/// Whether the spelling of `kind` occurs in `bytes` at `at`.
fn spelled(bytes: &[u8], at: usize, kind: TokenKind) -> (found: bool)
    ensures
        found == (kind.is_fixed() && spelled_at(bytes@, at as int, kind)),
{
    match kind.text() {
        Some(text) => starts_with(bytes, at, text),
        None => false,
    }
}

/// Whether the bytes in `start .. end` are exactly `word`.
fn spells(bytes: &[u8], start: usize, end: usize, word: &str) -> (same: bool)
    requires
        start <= end <= bytes@.len(),
    ensures
        same == (bytes@.subrange(start as int, end as int) == word.spec_bytes()),
{
    proof {
        if word.spec_bytes().len() == end - start {
            assert(bytes@.subrange(start as int, start + word.spec_bytes().len()) =~= bytes@.subrange(
                start as int,
                end as int,
            ));
        }
    }
    word.as_bytes().len() == end - start && starts_with(bytes, start, word)
}

/// The symbol that starts at `at`, if any.
fn symbol(bytes: &[u8], at: usize) -> (kind: Option<TokenKind>)
    ensures
        kind == symbol_at(bytes@, at as int),
{
    reveal(symbol_at);
    if spelled(bytes, at, TokenKind::LessOrEqual) {
        Some(TokenKind::LessOrEqual)
    } else if spelled(bytes, at, TokenKind::GreaterOrEqual) {
        Some(TokenKind::GreaterOrEqual)
    } else if spelled(bytes, at, TokenKind::Equals) {
        Some(TokenKind::Equals)
    } else if spelled(bytes, at, TokenKind::NotEquals) {
        Some(TokenKind::NotEquals)
    } else if spelled(bytes, at, TokenKind::FatArrow) {
        Some(TokenKind::FatArrow)
    } else if spelled(bytes, at, TokenKind::Add) {
        Some(TokenKind::Add)
    } else if spelled(bytes, at, TokenKind::Sub) {
        Some(TokenKind::Sub)
    } else if spelled(bytes, at, TokenKind::Mul) {
        Some(TokenKind::Mul)
    } else if spelled(bytes, at, TokenKind::Div) {
        Some(TokenKind::Div)
    } else if spelled(bytes, at, TokenKind::Less) {
        Some(TokenKind::Less)
    } else if spelled(bytes, at, TokenKind::Greater) {
        Some(TokenKind::Greater)
    } else if spelled(bytes, at, TokenKind::Assign) {
        Some(TokenKind::Assign)
    } else if spelled(bytes, at, TokenKind::CurlyBraceOpen) {
        Some(TokenKind::CurlyBraceOpen)
    } else if spelled(bytes, at, TokenKind::CurlyBraceClose) {
        Some(TokenKind::CurlyBraceClose)
    } else if spelled(bytes, at, TokenKind::BracketOpen) {
        Some(TokenKind::BracketOpen)
    } else if spelled(bytes, at, TokenKind::BracketClose) {
        Some(TokenKind::BracketClose)
    } else if spelled(bytes, at, TokenKind::ParenOpen) {
        Some(TokenKind::ParenOpen)
    } else if spelled(bytes, at, TokenKind::ParenClosed) {
        Some(TokenKind::ParenClosed)
    } else if spelled(bytes, at, TokenKind::Colon) {
        Some(TokenKind::Colon)
    } else if spelled(bytes, at, TokenKind::Comma) {
        Some(TokenKind::Comma)
    } else if spelled(bytes, at, TokenKind::Dot) {
        Some(TokenKind::Dot)
    } else if spelled(bytes, at, TokenKind::Semicolon) {
        Some(TokenKind::Semicolon)
    } else {
        None
    }
}

/// The reserved word spelled by the bytes in `start .. end`, if any.
fn word(bytes: &[u8], start: usize, end: usize) -> (kind: Option<TokenKind>)
    requires
        start <= end <= bytes@.len(),
    ensures
        kind == reserved_word(bytes@.subrange(start as int, end as int)),
{
    reveal(reserved_word);
    if spells_kind(bytes, start, end, TokenKind::Mod) {
        Some(TokenKind::Mod)
    } else if spells_kind(bytes, start, end, TokenKind::And) {
        Some(TokenKind::And)
    } else if spells_kind(bytes, start, end, TokenKind::Not) {
        Some(TokenKind::Not)
    } else if spells_kind(bytes, start, end, TokenKind::Or) {
        Some(TokenKind::Or)
    } else if spells_kind(bytes, start, end, TokenKind::Nor) {
        Some(TokenKind::Nor)
    } else if spells_kind(bytes, start, end, TokenKind::Fn) {
        Some(TokenKind::Fn)
    } else if spells_kind(bytes, start, end, TokenKind::Nil) {
        Some(TokenKind::Nil)
    } else if spells_kind(bytes, start, end, TokenKind::Return) {
        Some(TokenKind::Return)
    } else if spells_kind(bytes, start, end, TokenKind::If) {
        Some(TokenKind::If)
    } else if spells_kind(bytes, start, end, TokenKind::Unless) {
        Some(TokenKind::Unless)
    } else if spells_kind(bytes, start, end, TokenKind::Else) {
        Some(TokenKind::Else)
    } else if spells_kind(bytes, start, end, TokenKind::While) {
        Some(TokenKind::While)
    } else if spells_kind(bytes, start, end, TokenKind::Until) {
        Some(TokenKind::Until)
    } else if spells_kind(bytes, start, end, TokenKind::For) {
        Some(TokenKind::For)
    } else if spells_kind(bytes, start, end, TokenKind::In) {
        Some(TokenKind::In)
    } else if spells_kind(bytes, start, end, TokenKind::Do) {
        Some(TokenKind::Do)
    } else if spells_kind(bytes, start, end, TokenKind::Let) {
        Some(TokenKind::Let)
    } else if spells_kind(bytes, start, end, TokenKind::Var) {
        Some(TokenKind::Var)
    } else {
        None
    }
}

/// Whether the bytes in `start .. end` are exactly the spelling of `kind`.
fn spells_kind(bytes: &[u8], start: usize, end: usize, kind: TokenKind) -> (same: bool)
    requires
        start <= end <= bytes@.len(),
    ensures
        same == (kind.is_fixed() && bytes@.subrange(start as int, end as int) == spelling_bytes(
            kind,
        )),
{
    match kind.text() {
        Some(text) => spells(bytes, start, end, text),
        None => false,
    }
}

/// A lexer over one source buffer. It yields the tokens of the buffer one at
/// a time, in source order, and can be created anew at any time to start
/// over.
pub struct Lexer<'a> {
    source: &'a str,
    position: usize,
}

impl<'a> Lexer<'a> {
    #[verifier::type_invariant]
    spec fn inv(self) -> bool {
        &&& self.position <= self.source.spec_bytes().len()
        &&& is_char_boundary(self.source.spec_bytes(), self.position as int)
    }

    /// The bytes of the source buffer.
    pub closed spec fn bytes(self) -> Seq<u8> {
        self.source.spec_bytes()
    }

    /// The offset from which the next token is sought.
    pub closed spec fn offset(self) -> int {
        self.position as int
    }

    /// The tokens that are still to come.
    pub open spec fn remaining(self) -> Seq<Spanned<TokenView>> {
        tokens_from(self.bytes(), self.offset())
    }

    /// A lexer at the start of `source`.
    pub fn new(source: &'a str) -> (lexer: Lexer<'a>)
        ensures
            lexer.bytes() == source.spec_bytes(),
            lexer.offset() == 0,
            lexer.remaining() == tokenization(source.spec_bytes()),
    {
        proof {
            lemma_source_valid(source);
            is_char_boundary_start_end_of_seq(source.spec_bytes());
        }
        Lexer { source, position: 0 }
    }

    /// The offset from which the next token is sought.
    pub fn position(&self) -> (position: usize)
        ensures
            position == self.offset(),
    {
        self.position
    }

    /// The next token with its span, or `None` at the end of the input.
    /// Input that matches no token yields an error token; lexing goes on
    /// after it.
    pub fn next(&mut self) -> (next: Option<Spanned<Token<'a>>>)
        ensures
            final(self).bytes() == old(self).bytes(),
            old(self).offset() <= final(self).offset() <= old(self).bytes().len(),
            match next {
                Some(token) => {
                    let start = skip_trivia(old(self).bytes(), old(self).offset());
                    &&& start < old(self).bytes().len()
                    &&& token@.value == lexeme_at(old(self).bytes(), start).token
                    &&& token.span.start == start
                    &&& token.span.end == lexeme_at(old(self).bytes(), start).end
                    &&& final(self).offset() == token.span.end
                    &&& token.span.start < token.span.end
                    &&& old(self).remaining() == seq![token@] + final(self).remaining()
                },
                None => {
                    &&& skip_trivia(old(self).bytes(), old(self).offset()) == old(
                        self,
                    ).bytes().len()
                    &&& final(self).offset() == old(self).bytes().len()
                    &&& old(self).remaining() == Seq::<Spanned<TokenView>>::empty()
                    &&& final(self).remaining() == Seq::<Spanned<TokenView>>::empty()
                },
            },
    {
        proof {
            use_type_invariant(&*self);
            lemma_source_valid(self.source);
            lemma_skip_trivia_boundary(self.source.spec_bytes(), self.position as int);
        }
        let source: &'a str = self.source;
        let bytes = source.as_bytes();
        let start = skip(bytes, self.position);
        if start >= bytes.len() {
            proof {
                is_char_boundary_start_end_of_seq(bytes@);
            }
            self.position = start;
            return None;
        }
        proof {
            lemma_lexeme_bounds(bytes@, start as int);
            lemma_lexeme_boundary(bytes@, start as int);
        }
        let first = bytes[start];
        let negative = first == '-' as u8;
        let (token, end): (Token<'a>, usize) = if digit(first) || (negative && bytes.len() - start
            >= 2 && digit(bytes[start + 1])) {
            let digits = if negative {
                start + 1
            } else {
                start
            };
            proof {
                lemma_digits_end_bounds(bytes@, digits as int);
            }
            let whole = if bytes[digits] == '0' as u8 {
                digits + 1
            } else {
                scan_digits(bytes, digits)
            };
            if bytes.len() - whole >= 2 && bytes[whole] == '.' as u8 && digit(bytes[whole + 1]) {
                let end = scan_digits(bytes, whole + 1);
                (Token::Float(slice(source, start, end)), end)
            } else {
                match magnitude(bytes, digits, whole) {
                    Some(value) => {
                        if negative {
                            if value == 0x8000_0000_0000_0000 {
                                (Token::Integer(i64::MIN), whole)
                            } else {
                                (Token::Integer(-(value as i64)), whole)
                            }
                        } else if value <= 0x7fff_ffff_ffff_ffff {
                            (Token::Integer(value as i64), whole)
                        } else {
                            (Token::Error, whole)
                        }
                    },
                    None => (Token::Error, whole),
                }
            }
        } else if first == '"' as u8 {
            match scan_string(bytes, start + 1) {
                Some(end) => (Token::String(slice(source, start + 1, end - 1)), end),
                None => (Token::Error, start + 1),
            }
        } else {
            match symbol(bytes, start) {
                Some(kind) => {
                    proof {
                        lemma_symbol_at(bytes@, start as int);
                    }
                    match kind.text() {
                        Some(text) => (kind.to_token(), start + text.as_bytes().len()),
                        None => (Token::Error, start + 1),
                    }
                },
                None => {
                    if identifier_start(first) {
                        let end = scan_identifier(bytes, start + 1);
                        let token = if spells(bytes, start, end, "true") {
                            Token::Bool(true)
                        } else if spells(bytes, start, end, "false") {
                            Token::Bool(false)
                        } else {
                            match word(bytes, start, end) {
                                Some(kind) => kind.to_token(),
                                None => Token::Identifier(slice(source, start, end)),
                            }
                        };
                        (token, end)
                    } else {
                        (Token::Error, start + 1)
                    }
                },
            }
        };
        self.position = end;
        Some(Spanned { value: token, span: Span { start, end } })
    }
}

impl<'a> Token<'a> {
    /// A lexer at the start of `source`.
    pub fn lexer(source: &'a str) -> (lexer: Lexer<'a>)
        ensures
            lexer.bytes() == source.spec_bytes(),
            lexer.offset() == 0,
            lexer.remaining() == tokenization(source.spec_bytes()),
    {
        Lexer::new(source)
    }
}

/// The model of a vector of spanned tokens.
pub open spec fn token_views(tokens: Seq<Spanned<Token>>) -> Seq<Spanned<TokenView>> {
    tokens.map_values(|token: Spanned<Token>| token@)
}

/// Tokenizes a whole source buffer.
pub fn lex<'a>(source: &'a str) -> (tokens: Vec<Spanned<Token<'a>>>)
    ensures
        token_views(tokens@) == tokenization(source.spec_bytes()),
{
    let mut lexer = Lexer::new(source);
    let mut tokens: Vec<Spanned<Token<'a>>> = Vec::new();
    loop
        invariant
            lexer.bytes() == source.spec_bytes(),
            token_views(tokens@) + lexer.remaining() == tokenization(source.spec_bytes()),
        ensures
            token_views(tokens@) == tokenization(source.spec_bytes()),
        decreases lexer.bytes().len() - lexer.offset(),
    {
        let ghost before = token_views(tokens@);
        match lexer.next() {
            Some(token) => {
                tokens.push(token);
                proof {
                    assert(token_views(tokens@) =~= before + seq![token@]);
                    assert((before + seq![token@]) + lexer.remaining() =~= before + (seq![token@]
                        + lexer.remaining()));
                }
            },
            None => {
                proof {
                    assert(before + Seq::<Spanned<TokenView>>::empty() =~= before);
                }
                break ;
            },
        }
    }
    tokens
}

} // verus!
