//! Slicing of UTF-8 text at byte offsets.

use vstd::prelude::*;
use vstd::string::StringSliceAdditionalSpecFns;
use vstd::utf8::*;

verus! {

/// The bytes of a string slice are valid UTF-8.
pub proof fn lemma_source_valid(source: &str)
    ensures
        valid_utf8(source.spec_bytes()),
{
    encode_utf8_valid_utf8(source@);
}

/// An ASCII byte starts a character, and the next character starts right
/// after it.
pub proof fn lemma_ascii_boundaries(bytes: Seq<u8>, index: int)
    requires
        valid_utf8(bytes),
        0 <= index < bytes.len(),
        bytes[index] < 0x80,
    ensures
        is_char_boundary(bytes, index),
        is_char_boundary(bytes, index + 1),
{
    is_char_boundary_iff_not_is_continuation_byte(bytes, index);
    if index + 1 == bytes.len() {
        is_char_boundary_start_end_of_seq(bytes);
    } else {
        valid_utf8_split(bytes, index);
        let suffix = bytes.subrange(index, bytes.len() as int);
        assert(suffix[0] == bytes[index]);
        assert(suffix[1] == bytes[index + 1]);
        assert(is_char_boundary(suffix, 1)) by {
            reveal_with_fuel(is_char_boundary, 2);
        }
        is_char_boundary_iff_not_is_continuation_byte(suffix, 1);
        is_char_boundary_iff_not_is_continuation_byte(bytes, index + 1);
    }
}

/// The text between two character boundaries of `source`.
pub(crate) fn slice<'a>(source: &'a str, start: usize, end: usize) -> (text: &'a str)
    requires
        start <= end <= source.spec_bytes().len(),
        is_char_boundary(source.spec_bytes(), start as int),
        is_char_boundary(source.spec_bytes(), end as int),
    ensures
        text.spec_bytes() == source.spec_bytes().subrange(start as int, end as int),
        text@ == decode_utf8(source.spec_bytes().subrange(start as int, end as int)),
{
    let ghost bytes = source.spec_bytes();
    proof {
        lemma_source_valid(source);
    }
    let (head, _) = source.split_at(end);
    proof {
        lemma_source_valid(head);
        assert(head.spec_bytes() =~= bytes.subrange(0, end as int));
        if start < end {
            is_char_boundary_iff_not_is_continuation_byte(bytes, start as int);
            is_char_boundary_iff_not_is_continuation_byte(head.spec_bytes(), start as int);
        } else {
            is_char_boundary_start_end_of_seq(head.spec_bytes());
        }
    }
    let (_, text) = head.split_at(start);
    proof {
        assert(text.spec_bytes() =~= bytes.subrange(start as int, end as int));
        encode_utf8_decode_utf8(text@);
    }
    text
}

} // verus!
