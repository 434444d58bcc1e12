//! Executable scanners over the bytes of a source buffer, one for each run
//! or delimiter of the lexical grammar.

use vstd::prelude::*;
use vstd::string::StringSliceAdditionalSpecFns;
use crate::charset::{digit, hex_digit, identifier_byte, is_digit, simple_escape, whitespace};
use crate::lexer::{
    block_comment_end, decimal_value, digits_end, identifier_end, line_end, occurs_at, skip_trivia,
    string_end,
};

verus! {

/// Whether `word` occurs in `bytes` at offset `at`.
pub(crate) fn starts_with(bytes: &[u8], at: usize, word: &str) -> (found: bool)
    ensures
        found == occurs_at(bytes@, at as int, word.spec_bytes()),
{
    let word_bytes = word.as_bytes();
    let n = word_bytes.len();
    if n > bytes.len() || at > bytes.len() - n {
        return false;
    }
    let mut k: usize = 0;
    while k < n
        invariant
            k <= n,
            n == word_bytes@.len(),
            word_bytes@ == word.spec_bytes(),
            at + n <= bytes@.len() <= usize::MAX,
            forall|j: int| 0 <= j < k ==> bytes@[at + j] == word_bytes@[j],
        decreases n - k,
    {
        if bytes[at + k] != word_bytes[k] {
            proof {
                let part = bytes@.subrange(at as int, at + n);
                assert(part[k as int] == bytes@[at + k]);
            }
            return false;
        }
        k += 1;
    }
    proof {
        assert(bytes@.subrange(at as int, at + n) =~= word_bytes@);
    }
    true
}

/// The end of the run of digits that starts at `at`.
pub(crate) fn scan_digits(bytes: &[u8], at: usize) -> (end: usize)
    requires
        at <= bytes@.len(),
    ensures
        end == digits_end(bytes@, at as int),
        at <= end <= bytes@.len(),
{
    let mut k = at;
    while k < bytes.len() && digit(bytes[k])
        invariant
            at <= k <= bytes@.len(),
            digits_end(bytes@, at as int) == digits_end(bytes@, k as int),
        decreases bytes@.len() - k,
    {
        k += 1;
    }
    k
}

/// The end of the run of identifier bytes that starts at `at`.
pub(crate) fn scan_identifier(bytes: &[u8], at: usize) -> (end: usize)
    requires
        at <= bytes@.len(),
    ensures
        end == identifier_end(bytes@, at as int),
        at <= end <= bytes@.len(),
{
    let mut k = at;
    while k < bytes.len() && identifier_byte(bytes[k])
        invariant
            at <= k <= bytes@.len(),
            identifier_end(bytes@, at as int) == identifier_end(bytes@, k as int),
        decreases bytes@.len() - k,
    {
        k += 1;
    }
    k
}

/// The offset of the first line feed at or after `at`, or the end of input.
pub(crate) fn scan_line(bytes: &[u8], at: usize) -> (end: usize)
    requires
        at <= bytes@.len(),
    ensures
        end == line_end(bytes@, at as int),
        at <= end <= bytes@.len(),
{
    let mut k = at;
    while k < bytes.len() && bytes[k] != '\n' as u8
        invariant
            at <= k <= bytes@.len(),
            line_end(bytes@, at as int) == line_end(bytes@, k as int),
        decreases bytes@.len() - k,
    {
        k += 1;
    }
    k
}

/// The offset just past the first `*/` at or after `at`, if there is one.
pub(crate) fn scan_block_comment(bytes: &[u8], at: usize) -> (end: Option<usize>)
    ensures
        end is Some == block_comment_end(bytes@, at as int) is Some,
        end matches Some(e) ==> e == block_comment_end(bytes@, at as int)->0 && at + 2 <= e
            <= bytes@.len(),
{
    let mut k = at;
    while k < bytes.len() && bytes.len() - k >= 2
        invariant
            at <= k,
            block_comment_end(bytes@, at as int) == block_comment_end(bytes@, k as int),
        decreases bytes@.len() - k,
    {
        if bytes[k] == '*' as u8 && bytes[k + 1] == '/' as u8 {
            return Some(k + 2);
        }
        k += 1;
    }
    None
}

/// The start of the next token at or after `at`, or the end of input.
pub(crate) fn skip(bytes: &[u8], at: usize) -> (start: usize)
    requires
        at <= bytes@.len(),
    ensures
        start == skip_trivia(bytes@, at as int),
        at <= start <= bytes@.len(),
{
    let mut k = at;
    loop
        invariant
            at <= k <= bytes@.len(),
            skip_trivia(bytes@, at as int) == skip_trivia(bytes@, k as int),
        ensures
            at <= k <= bytes@.len(),
            k == skip_trivia(bytes@, at as int),
        decreases bytes@.len() - k,
    {
        if k >= bytes.len() {
            break ;
        }
        if whitespace(bytes[k]) {
            k += 1;
        } else if bytes.len() - k >= 2 && bytes[k] == '/' as u8 && bytes[k + 1] == '/' as u8 {
            k = scan_line(bytes, k + 2);
        } else if bytes.len() - k >= 2 && bytes[k] == '/' as u8 && bytes[k + 1] == '*' as u8 {
            match scan_block_comment(bytes, k + 2) {
                Some(end) => {
                    k = end;
                },
                None => {
                    break ;
                },
            }
        } else {
            break ;
        }
    }
    k
}

/// For a string literal whose body continues at `at`: the offset just past
/// its closing quote, if the body is well formed and closed.
pub(crate) fn scan_string(bytes: &[u8], at: usize) -> (end: Option<usize>)
    requires
        at <= bytes@.len(),
    ensures
        end is Some == string_end(bytes@, at as int) is Some,
        end matches Some(e) ==> e == string_end(bytes@, at as int)->0 && at < e <= bytes@.len(),
{
    let mut k = at;
    while k < bytes.len()
        invariant
            at <= k <= bytes@.len(),
            string_end(bytes@, at as int) == string_end(bytes@, k as int),
        decreases bytes@.len() - k,
    {
        let byte = bytes[k];
        if byte == '"' as u8 {
            return Some(k + 1);
        } else if byte == '\\' as u8 {
            if bytes.len() - k >= 2 && simple_escape(bytes[k + 1]) {
                k += 2;
            } else if bytes.len() - k >= 6 && bytes[k + 1] == 'u' as u8 && hex_digit(bytes[k + 2])
                && hex_digit(bytes[k + 3]) && hex_digit(bytes[k + 4]) && hex_digit(bytes[k + 5]) {
                k += 6;
            } else {
                return None;
            }
        } else {
            k += 1;
        }
    }
    None
}

/// Extending a run of digits by one digit multiplies its value by ten and
/// adds the digit.
pub proof fn lemma_decimal_value_step(bytes: Seq<u8>, first: int, end: int)
    requires
        0 <= first <= end < bytes.len(),
    ensures
        decimal_value(bytes.subrange(first, end + 1)) == (10 * decimal_value(
            bytes.subrange(first, end),
        ) + (bytes[end] - '0' as u8)) as nat,
{
    let longer = bytes.subrange(first, end + 1);
    assert(longer.drop_last() =~= bytes.subrange(first, end));
    assert(longer.last() == bytes[end]);
}

/// A run of digits denotes at least as much as each of its prefixes.
pub proof fn lemma_decimal_value_grows(bytes: Seq<u8>, first: int, mid: int, end: int)
    requires
        0 <= first <= mid <= end <= bytes.len(),
        forall|k: int| first <= k < end ==> is_digit(#[trigger] bytes[k]),
    ensures
        decimal_value(bytes.subrange(first, mid)) <= decimal_value(bytes.subrange(first, end)),
    decreases end - mid,
{
    if mid < end {
        lemma_decimal_value_step(bytes, first, end - 1);
        lemma_decimal_value_grows(bytes, first, mid, end - 1);
    }
}

/// The value of the digits in `first .. end`, unless it exceeds 2^63.
pub(crate) fn magnitude(bytes: &[u8], first: usize, end: usize) -> (value: Option<u64>)
    requires
        first <= end <= bytes@.len(),
        forall|k: int| first <= k < end ==> is_digit(#[trigger] bytes@[k]),
    ensures
        value is Some == (decimal_value(bytes@.subrange(first as int, end as int))
            <= 0x8000_0000_0000_0000),
        value matches Some(v) ==> v == decimal_value(bytes@.subrange(first as int, end as int)),
{
    let mut total: u64 = 0;
    let mut k = first;
    proof {
        assert(bytes@.subrange(first as int, first as int).len() == 0);
    }
    while k < end
        invariant
            first <= k <= end <= bytes@.len(),
            forall|j: int| first <= j < end ==> is_digit(#[trigger] bytes@[j]),
            total == decimal_value(bytes@.subrange(first as int, k as int)),
            total <= 0x8000_0000_0000_0000,
        decreases end - k,
    {
        let d: u64 = (bytes[k] - '0' as u8) as u64;
        proof {
            lemma_decimal_value_step(bytes@, first as int, k as int);
            lemma_decimal_value_grows(bytes@, first as int, k + 1, end as int);
        }
        if total > 922_337_203_685_477_580 || (total == 922_337_203_685_477_580 && d > 8) {
            return None;
        }
        total = total * 10 + d;
        k += 1;
    }
    Some(total)
}

} // verus!
