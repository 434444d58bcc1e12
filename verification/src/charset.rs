//! Byte classes of the lexical grammar.

use vstd::prelude::*;

verus! {

/// Space, tab, line feed, vertical tab, form feed and carriage return.
pub open spec fn is_whitespace(byte: u8) -> bool {
    byte == ' ' as u8 || (0x09 <= byte <= 0x0d)
}

/// An ASCII decimal digit.
pub open spec fn is_digit(byte: u8) -> bool {
    '0' as u8 <= byte <= '9' as u8
}

/// An ASCII hexadecimal digit.
pub open spec fn is_hex_digit(byte: u8) -> bool {
    is_digit(byte) || ('a' as u8 <= byte <= 'f' as u8) || ('A' as u8 <= byte <= 'F' as u8)
}

/// The punctuation bytes that can never be part of an identifier.
pub open spec fn is_reserved_symbol(byte: u8) -> bool {
    ||| byte == '=' as u8
    ||| byte == '[' as u8
    ||| byte == ']' as u8
    ||| byte == '(' as u8
    ||| byte == ')' as u8
    ||| byte == '!' as u8
    ||| byte == '@' as u8
    ||| byte == '#' as u8
    ||| byte == '$' as u8
    ||| byte == '%' as u8
    ||| byte == '^' as u8
    ||| byte == '&' as u8
    ||| byte == '*' as u8
    ||| byte == '-' as u8
    ||| byte == '+' as u8
    ||| byte == '{' as u8
    ||| byte == '}' as u8
    ||| byte == '<' as u8
    ||| byte == '>' as u8
    ||| byte == ',' as u8
    ||| byte == '.' as u8
    ||| byte == '`' as u8
    ||| byte == '~' as u8
    ||| byte == '/' as u8
    ||| byte == '\\' as u8
    ||| byte == ';' as u8
    ||| byte == ':' as u8
    ||| byte == '\'' as u8
    ||| byte == '"' as u8
}

/// A byte that may appear inside an identifier: anything but whitespace and
/// the reserved symbols. Every byte of a multi-byte character qualifies.
pub open spec fn is_identifier_byte(byte: u8) -> bool {
    !is_whitespace(byte) && !is_reserved_symbol(byte)
}

/// A byte that may begin an identifier: an identifier byte that is no digit.
pub open spec fn is_identifier_start(byte: u8) -> bool {
    is_identifier_byte(byte) && !is_digit(byte)
}

/// The character after a backslash in a two-byte escape sequence.
pub open spec fn is_simple_escape(byte: u8) -> bool {
    ||| byte == '"' as u8
    ||| byte == '\\' as u8
    ||| byte == 'b' as u8
    ||| byte == 'n' as u8
    ||| byte == 'f' as u8
    ||| byte == 'r' as u8
    ||| byte == 't' as u8
}

/// Whether `byte` is whitespace.
#[verifier::when_used_as_spec(is_whitespace)]
pub fn whitespace(byte: u8) -> (r: bool)
    ensures
        r == is_whitespace(byte),
{
    byte == ' ' as u8 || (0x09 <= byte && byte <= 0x0d)
}

/// Whether `byte` is a decimal digit.
#[verifier::when_used_as_spec(is_digit)]
pub fn digit(byte: u8) -> (r: bool)
    ensures
        r == is_digit(byte),
{
    '0' as u8 <= byte && byte <= '9' as u8
}

/// Whether `byte` is a hexadecimal digit.
#[verifier::when_used_as_spec(is_hex_digit)]
pub fn hex_digit(byte: u8) -> (r: bool)
    ensures
        r == is_hex_digit(byte),
{
    digit(byte) || ('a' as u8 <= byte && byte <= 'f' as u8) || ('A' as u8 <= byte && byte
        <= 'F' as u8)
}

/// Whether `byte` is a reserved symbol.
#[verifier::when_used_as_spec(is_reserved_symbol)]
pub fn reserved_symbol(byte: u8) -> (r: bool)
    ensures
        r == is_reserved_symbol(byte),
{
    byte == '=' as u8 || byte == '[' as u8 || byte == ']' as u8 || byte == '(' as u8 || byte
        == ')' as u8 || byte == '!' as u8 || byte == '@' as u8 || byte == '#' as u8 || byte
        == '$' as u8 || byte == '%' as u8 || byte == '^' as u8 || byte == '&' as u8 || byte
        == '*' as u8 || byte == '-' as u8 || byte == '+' as u8 || byte == '{' as u8 || byte
        == '}' as u8 || byte == '<' as u8 || byte == '>' as u8 || byte == ',' as u8 || byte
        == '.' as u8 || byte == '`' as u8 || byte == '~' as u8 || byte == '/' as u8 || byte
        == '\\' as u8 || byte == ';' as u8 || byte == ':' as u8 || byte == '\'' as u8 || byte
        == '"' as u8
}

/// Whether `byte` may appear inside an identifier.
#[verifier::when_used_as_spec(is_identifier_byte)]
pub fn identifier_byte(byte: u8) -> (r: bool)
    ensures
        r == is_identifier_byte(byte),
{
    !whitespace(byte) && !reserved_symbol(byte)
}

/// Whether `byte` may begin an identifier.
#[verifier::when_used_as_spec(is_identifier_start)]
pub fn identifier_start(byte: u8) -> (r: bool)
    ensures
        r == is_identifier_start(byte),
{
    identifier_byte(byte) && !digit(byte)
}

/// Whether `byte` may follow a backslash in a two-byte escape.
#[verifier::when_used_as_spec(is_simple_escape)]
pub fn simple_escape(byte: u8) -> (r: bool)
    ensures
        r == is_simple_escape(byte),
{
    byte == '"' as u8 || byte == '\\' as u8 || byte == 'b' as u8 || byte == 'n' as u8 || byte
        == 'f' as u8 || byte == 'r' as u8 || byte == 't' as u8
}

} // verus!
