//! How characters consumed relate to bytes advanced: the facts about UTF-8
//! that a byte cursor over a string needs.

use vstd::prelude::*;
use vstd::utf8::*;

verus! {

/// The number of bytes that `chars` take up in UTF-8.
pub open spec fn utf8_len(chars: Seq<char>) -> nat {
    encode_utf8(chars).len()
}

/// Only the empty text takes up no bytes.
pub proof fn lemma_empty_encoding(chars: Seq<char>)
    ensures
        utf8_len(chars) == 0 <==> chars.len() == 0,
{
    if chars.len() > 0 {
        encode_utf8_first_scalar(chars);
    }
}

/// Encoding a concatenation concatenates the encodings.
pub proof fn lemma_encode_concat(a: Seq<char>, b: Seq<char>)
    ensures
        encode_utf8(a + b) == encode_utf8(a) + encode_utf8(b),
    decreases a.len(),
{
    if a.len() == 0 {
        assert(a + b =~= b);
        assert(encode_utf8(a) + encode_utf8(b) =~= encode_utf8(b));
    } else {
        assert((a + b).drop_first() =~= a.drop_first() + b);
        lemma_encode_concat(a.drop_first(), b);
        assert(encode_utf8(a + b) =~= encode_utf8(a) + encode_utf8(b));
    }
}

/// The end of an encoded prefix is a character boundary of the whole.
pub proof fn lemma_prefix_is_boundary(a: Seq<char>, b: Seq<char>)
    ensures
        is_char_boundary(encode_utf8(a + b), utf8_len(a) as int),
    decreases a.len(),
{
    broadcast use encode_utf8_valid_utf8;

    if a.len() > 0 {
        let whole = a + b;
        encode_utf8_first_scalar(whole);
        encode_utf8_first_scalar(a);
        assert(whole.drop_first() =~= a.drop_first() + b);
        assert(pop_first_scalar(encode_utf8(whole)) =~= encode_utf8(whole.drop_first()));
        assert(pop_first_scalar(encode_utf8(a)) =~= encode_utf8(a.drop_first()));
        lemma_prefix_is_boundary(a.drop_first(), b);
    }
}

/// A valid byte string cut at a character boundary decodes to two halves
/// that encode back to the two byte ranges.
pub proof fn lemma_split_at_boundary(bytes: Seq<u8>, at: int)
    requires
        valid_utf8(bytes),
        is_char_boundary(bytes, at),
    ensures
        0 <= at <= bytes.len(),
        decode_utf8(bytes) == decode_utf8(bytes.subrange(0, at)) + decode_utf8(
            bytes.subrange(at, bytes.len() as int),
        ),
        encode_utf8(decode_utf8(bytes.subrange(0, at))) == bytes.subrange(0, at),
        encode_utf8(decode_utf8(bytes.subrange(at, bytes.len() as int))) == bytes.subrange(
            at,
            bytes.len() as int,
        ),
{
    broadcast use decode_utf8_encode_utf8;

    valid_utf8_split(bytes, at);
    decode_utf8_split(bytes, at);
    lemma_boundary_in_range(bytes, at);
}

/// A character boundary lies within the byte string.
pub proof fn lemma_boundary_in_range(bytes: Seq<u8>, at: int)
    requires
        valid_utf8(bytes),
        is_char_boundary(bytes, at),
    ensures
        0 <= at <= bytes.len(),
    decreases bytes.len(),
{
    if at != 0 {
        lemma_boundary_in_range(pop_first_scalar(bytes), at - length_of_first_scalar(bytes));
    }
}

} // verus!
