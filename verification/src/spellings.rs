//! The bytes of the fixed spellings.

use vstd::prelude::*;
use vstd::utf8::*;
use crate::token::TokenKind;

verus! {

/// The bytes that spell a fixed token kind.
pub open spec fn spelling_bytes(kind: TokenKind) -> Seq<u8> {
    encode_utf8(kind.spelling())
}

/// The bytes of an ASCII text are its characters.
pub proof fn lemma_ascii_bytes(chars: Seq<char>)
    requires
        is_ascii_chars(chars),
    ensures
        encode_utf8(chars) == Seq::new(chars.len(), |i: int| chars[i] as u8),
{
    is_ascii_chars_encode_utf8(chars);
}

/// The bytes of the two boolean literals.
pub proof fn lemma_boolean_spellings()
    ensures
        encode_utf8("true"@) == seq!['t' as u8, 'r' as u8, 'u' as u8, 'e' as u8],
        encode_utf8("false"@) == seq!['f' as u8, 'a' as u8, 'l' as u8, 's' as u8, 'e' as u8],
{
    reveal_strlit("true");
    reveal_strlit("false");
    lemma_ascii_bytes("true"@);
    lemma_ascii_bytes("false"@);
}

/// The bytes of each symbol spelling.
pub proof fn lemma_symbol_spellings()
    ensures
        spelling_bytes(TokenKind::Add) == seq!['+' as u8],
        spelling_bytes(TokenKind::Sub) == seq!['-' as u8],
        spelling_bytes(TokenKind::Mul) == seq!['*' as u8],
        spelling_bytes(TokenKind::Div) == seq!['/' as u8],
        spelling_bytes(TokenKind::Less) == seq!['<' as u8],
        spelling_bytes(TokenKind::LessOrEqual) == seq!['<' as u8, '=' as u8],
        spelling_bytes(TokenKind::Greater) == seq!['>' as u8],
        spelling_bytes(TokenKind::GreaterOrEqual) == seq!['>' as u8, '=' as u8],
        spelling_bytes(TokenKind::Equals) == seq!['=' as u8, '=' as u8],
        spelling_bytes(TokenKind::NotEquals) == seq!['!' as u8, '=' as u8],
        spelling_bytes(TokenKind::Assign) == seq!['=' as u8],
        spelling_bytes(TokenKind::CurlyBraceOpen) == seq!['{' as u8],
        spelling_bytes(TokenKind::CurlyBraceClose) == seq!['}' as u8],
        spelling_bytes(TokenKind::BracketOpen) == seq!['[' as u8],
        spelling_bytes(TokenKind::BracketClose) == seq![']' as u8],
        spelling_bytes(TokenKind::ParenOpen) == seq!['(' as u8],
        spelling_bytes(TokenKind::ParenClosed) == seq![')' as u8],
        spelling_bytes(TokenKind::Colon) == seq![':' as u8],
        spelling_bytes(TokenKind::Comma) == seq![',' as u8],
        spelling_bytes(TokenKind::Dot) == seq!['.' as u8],
        spelling_bytes(TokenKind::Semicolon) == seq![';' as u8],
        spelling_bytes(TokenKind::FatArrow) == seq!['=' as u8, '>' as u8],
{
    reveal_strlit("+");
    lemma_ascii_bytes(TokenKind::Add.spelling());
    reveal_strlit("-");
    lemma_ascii_bytes(TokenKind::Sub.spelling());
    reveal_strlit("*");
    lemma_ascii_bytes(TokenKind::Mul.spelling());
    reveal_strlit("/");
    lemma_ascii_bytes(TokenKind::Div.spelling());
    reveal_strlit("<");
    lemma_ascii_bytes(TokenKind::Less.spelling());
    reveal_strlit("<=");
    lemma_ascii_bytes(TokenKind::LessOrEqual.spelling());
    reveal_strlit(">");
    lemma_ascii_bytes(TokenKind::Greater.spelling());
    reveal_strlit(">=");
    lemma_ascii_bytes(TokenKind::GreaterOrEqual.spelling());
    reveal_strlit("==");
    lemma_ascii_bytes(TokenKind::Equals.spelling());
    reveal_strlit("!=");
    lemma_ascii_bytes(TokenKind::NotEquals.spelling());
    reveal_strlit("=");
    lemma_ascii_bytes(TokenKind::Assign.spelling());
    reveal_strlit("{");
    lemma_ascii_bytes(TokenKind::CurlyBraceOpen.spelling());
    reveal_strlit("}");
    lemma_ascii_bytes(TokenKind::CurlyBraceClose.spelling());
    reveal_strlit("[");
    lemma_ascii_bytes(TokenKind::BracketOpen.spelling());
    reveal_strlit("]");
    lemma_ascii_bytes(TokenKind::BracketClose.spelling());
    reveal_strlit("(");
    lemma_ascii_bytes(TokenKind::ParenOpen.spelling());
    reveal_strlit(")");
    lemma_ascii_bytes(TokenKind::ParenClosed.spelling());
    reveal_strlit(":");
    lemma_ascii_bytes(TokenKind::Colon.spelling());
    reveal_strlit(",");
    lemma_ascii_bytes(TokenKind::Comma.spelling());
    reveal_strlit(".");
    lemma_ascii_bytes(TokenKind::Dot.spelling());
    reveal_strlit(";");
    lemma_ascii_bytes(TokenKind::Semicolon.spelling());
    reveal_strlit("=>");
    lemma_ascii_bytes(TokenKind::FatArrow.spelling());
}

/// The bytes of each word spelling.
pub proof fn lemma_word_spellings()
    ensures
        spelling_bytes(TokenKind::Mod) == seq!['m' as u8, 'o' as u8, 'd' as u8],
        spelling_bytes(TokenKind::And) == seq!['a' as u8, 'n' as u8, 'd' as u8],
        spelling_bytes(TokenKind::Not) == seq!['n' as u8, 'o' as u8, 't' as u8],
        spelling_bytes(TokenKind::Or) == seq!['o' as u8, 'r' as u8],
        spelling_bytes(TokenKind::Nor) == seq!['n' as u8, 'o' as u8, 'r' as u8],
        spelling_bytes(TokenKind::Fn) == seq!['f' as u8, 'n' as u8],
        spelling_bytes(TokenKind::Nil) == seq!['n' as u8, 'i' as u8, 'l' as u8],
        spelling_bytes(TokenKind::Return) == seq!['r' as u8, 'e' as u8, 't' as u8, 'u' as u8, 'r' as u8, 'n' as u8],
        spelling_bytes(TokenKind::If) == seq!['i' as u8, 'f' as u8],
        spelling_bytes(TokenKind::Unless) == seq!['u' as u8, 'n' as u8, 'l' as u8, 'e' as u8, 's' as u8, 's' as u8],
        spelling_bytes(TokenKind::Else) == seq!['e' as u8, 'l' as u8, 's' as u8, 'e' as u8],
        spelling_bytes(TokenKind::While) == seq!['w' as u8, 'h' as u8, 'i' as u8, 'l' as u8, 'e' as u8],
        spelling_bytes(TokenKind::Until) == seq!['u' as u8, 'n' as u8, 't' as u8, 'i' as u8, 'l' as u8],
        spelling_bytes(TokenKind::For) == seq!['f' as u8, 'o' as u8, 'r' as u8],
        spelling_bytes(TokenKind::In) == seq!['i' as u8, 'n' as u8],
        spelling_bytes(TokenKind::Do) == seq!['d' as u8, 'o' as u8],
        spelling_bytes(TokenKind::Let) == seq!['l' as u8, 'e' as u8, 't' as u8],
        spelling_bytes(TokenKind::Var) == seq!['v' as u8, 'a' as u8, 'r' as u8],
{
    reveal_strlit("mod");
    lemma_ascii_bytes(TokenKind::Mod.spelling());
    reveal_strlit("and");
    lemma_ascii_bytes(TokenKind::And.spelling());
    reveal_strlit("not");
    lemma_ascii_bytes(TokenKind::Not.spelling());
    reveal_strlit("or");
    lemma_ascii_bytes(TokenKind::Or.spelling());
    reveal_strlit("nor");
    lemma_ascii_bytes(TokenKind::Nor.spelling());
    reveal_strlit("fn");
    lemma_ascii_bytes(TokenKind::Fn.spelling());
    reveal_strlit("nil");
    lemma_ascii_bytes(TokenKind::Nil.spelling());
    reveal_strlit("return");
    lemma_ascii_bytes(TokenKind::Return.spelling());
    reveal_strlit("if");
    lemma_ascii_bytes(TokenKind::If.spelling());
    reveal_strlit("unless");
    lemma_ascii_bytes(TokenKind::Unless.spelling());
    reveal_strlit("else");
    lemma_ascii_bytes(TokenKind::Else.spelling());
    reveal_strlit("while");
    lemma_ascii_bytes(TokenKind::While.spelling());
    reveal_strlit("until");
    lemma_ascii_bytes(TokenKind::Until.spelling());
    reveal_strlit("for");
    lemma_ascii_bytes(TokenKind::For.spelling());
    reveal_strlit("in");
    lemma_ascii_bytes(TokenKind::In.spelling());
    reveal_strlit("do");
    lemma_ascii_bytes(TokenKind::Do.spelling());
    reveal_strlit("let");
    lemma_ascii_bytes(TokenKind::Let.spelling());
    reveal_strlit("var");
    lemma_ascii_bytes(TokenKind::Var.spelling());
}

} // verus!
