//! How the characters that matter to a heartbeat look as UTF-8 bytes, and
//! how a byte sequence that is read front to back relates to the text it
//! encodes.

use crate::text::{is_digit, is_plus, is_whitespace};
use vstd::prelude::*;
use vstd::utf8::*;

verus! {

/// The number of bytes of the whitespace character that `bytes` starts
/// with, in UTF-8; zero if `bytes` starts with no whitespace character.
pub open spec fn whitespace_width(bytes: Seq<u8>) -> nat {
    if bytes.len() >= 1 && (0x09 <= bytes[0] <= 0x0D || bytes[0] == 0x20) {
        1
    } else if bytes.len() >= 2 && bytes[0] == 0xC2 && (bytes[1] == 0x85 || bytes[1] == 0xA0) {
        2
    } else if bytes.len() >= 3 && bytes[0] == 0xE1 && bytes[1] == 0x9A && bytes[2] == 0x80 {
        3
    } else if bytes.len() >= 3 && bytes[0] == 0xE2 && bytes[1] == 0x80 && (0x80 <= bytes[2] <= 0x8A
        || bytes[2] == 0xA8 || bytes[2] == 0xA9 || bytes[2] == 0xAF) {
        3
    } else if bytes.len() >= 3 && bytes[0] == 0xE2 && bytes[1] == 0x81 && bytes[2] == 0x9F {
        3
    } else if bytes.len() >= 3 && bytes[0] == 0xE3 && bytes[1] == 0x80 && bytes[2] == 0x80 {
        3
    } else {
        0
    }
}

/// The byte width of the whitespace character that starts at `at`, or zero
/// if none starts there.
pub fn whitespace_width_at(bytes: &[u8], at: usize) -> (width: usize)
    ensures
        at < bytes.len() ==> width == whitespace_width(
            bytes@.subrange(at as int, bytes.len() as int),
        ),
        at < bytes.len() ==> at + width <= bytes.len(),
        at >= bytes.len() ==> width == 0,
{
    let len: usize = bytes.len();
    if at >= len {
        return 0;
    }
    let first: u8 = bytes[at];
    if (0x09 <= first && first <= 0x0D) || first == 0x20 {
        return 1;
    }
    if len - at >= 2 {
        let second: u8 = bytes[at + 1];
        if first == 0xC2 && (second == 0x85 || second == 0xA0) {
            return 2;
        }
        if len - at >= 3 {
            let third: u8 = bytes[at + 2];
            if first == 0xE1 && second == 0x9A && third == 0x80 {
                return 3;
            }
            if first == 0xE2 && second == 0x80 && ((0x80 <= third && third <= 0x8A) || third == 0xA8
                || third == 0xA9 || third == 0xAF) {
                return 3;
            }
            if first == 0xE2 && second == 0x81 && third == 0x9F {
                return 3;
            }
            if first == 0xE3 && second == 0x80 && third == 0x80 {
                return 3;
            }
        }
    }
    0
}

/// A byte below 0x80 is a character of its own, with the byte's value.
pub proof fn lemma_ascii_scalar(bytes: Seq<u8>)
    requires
        bytes.len() >= 1,
        bytes[0] < 0x80,
    ensures
        valid_first_scalar(bytes),
        length_of_first_scalar(bytes) == 1,
        decode_first_scalar(bytes) == bytes[0],
{
    let b: u8 = bytes[0];
    assert((b & 0x7F) as u32 == b as u32) by (bit_vector)
        requires
            b < 0x80,
    ;
}

/// A well-formed character has a code that a `char` can hold.
pub proof fn lemma_scalar_is_char(bytes: Seq<u8>)
    requires
        valid_first_scalar(bytes),
    ensures
        (decode_first_scalar(bytes) as char) as u32 == decode_first_scalar(bytes),
{
    let b0: u8 = bytes[0];
    let code: u32 = decode_first_scalar(bytes);
    if is_leading_byte_width_1(b0) {
        lemma_ascii_scalar(bytes);
    } else if is_leading_byte_width_2(b0) {
        let b1: u8 = bytes[1];
        assert(code == ((b0 & 0x1F) as u32) << 6 | ((b1 & 0x3F) as u32));
        assert(code < 0x800) by (bit_vector)
            requires
                code == ((b0 & 0x1F) as u32) << 6 | ((b1 & 0x3F) as u32),
        ;
    } else if is_leading_byte_width_3(b0) {
        let b1: u8 = bytes[1];
        let b2: u8 = bytes[2];
        assert(code == ((b0 & 0x0F) as u32) << 12 | ((b1 & 0x3F) as u32) << 6 | ((b2 & 0x3F) as u32));
        assert(code < 0x10000) by (bit_vector)
            requires
                code == ((b0 & 0x0F) as u32) << 12 | ((b1 & 0x3F) as u32) << 6 | ((b2 & 0x3F) as u32),
        ;
    } else {
        assert(0x10000 <= code <= 0x10FFFF);
    }
}

/// A character that starts with a byte of 0x80 or above is no ASCII
/// character: neither a digit nor a plus sign.
pub proof fn lemma_wide_scalar_is_not_ascii(bytes: Seq<u8>)
    requires
        valid_first_scalar(bytes),
        bytes[0] >= 0x80,
    ensures
        decode_first_scalar(bytes) >= 0x80,
        !is_digit(decode_first_scalar(bytes) as char),
        !is_plus(decode_first_scalar(bytes) as char),
{
    lemma_scalar_is_char(bytes);
}

/// The byte patterns of `whitespace_width` are exactly the UTF-8 encodings
/// of the whitespace characters.
pub proof fn lemma_whitespace_scalar(bytes: Seq<u8>)
    requires
        valid_first_scalar(bytes),
    ensures
        is_whitespace(decode_first_scalar(bytes) as char) <==> whitespace_width(bytes) > 0,
        whitespace_width(bytes) > 0 ==> length_of_first_scalar(bytes) == whitespace_width(bytes),
{
    let b0: u8 = bytes[0];
    let code: u32 = decode_first_scalar(bytes);
    if is_leading_byte_width_1(b0) {
        lemma_ascii_scalar(bytes);
    } else if is_leading_byte_width_2(b0) {
        let b1: u8 = bytes[1];
        assert(code == ((b0 & 0x1F) as u32) << 6 | ((b1 & 0x3F) as u32));
        assert({
            &&& code < 0x800
            &&& (code == 0x85 <==> b0 == 0xC2 && b1 == 0x85)
            &&& (code == 0xA0 <==> b0 == 0xC2 && b1 == 0xA0)
        }) by (bit_vector)
            requires
                code == ((b0 & 0x1F) as u32) << 6 | ((b1 & 0x3F) as u32),
                0xC0 <= b0 <= 0xDF,
                0x80 <= b1 <= 0xBF,
        ;
    } else if is_leading_byte_width_3(b0) {
        let b1: u8 = bytes[1];
        let b2: u8 = bytes[2];
        assert(code == ((b0 & 0x0F) as u32) << 12 | ((b1 & 0x3F) as u32) << 6 | ((b2 & 0x3F) as u32));
        assert({
            &&& code < 0x10000
            &&& (code == 0x1680 <==> b0 == 0xE1 && b1 == 0x9A && b2 == 0x80)
            &&& (0x2000 <= code <= 0x200A <==> b0 == 0xE2 && b1 == 0x80 && 0x80 <= b2 <= 0x8A)
            &&& (code == 0x2028 <==> b0 == 0xE2 && b1 == 0x80 && b2 == 0xA8)
            &&& (code == 0x2029 <==> b0 == 0xE2 && b1 == 0x80 && b2 == 0xA9)
            &&& (code == 0x202F <==> b0 == 0xE2 && b1 == 0x80 && b2 == 0xAF)
            &&& (code == 0x205F <==> b0 == 0xE2 && b1 == 0x81 && b2 == 0x9F)
            &&& (code == 0x3000 <==> b0 == 0xE3 && b1 == 0x80 && b2 == 0x80)
        }) by (bit_vector)
            requires
                code == ((b0 & 0x0F) as u32) << 12 | ((b1 & 0x3F) as u32) << 6 | ((b2 & 0x3F) as u32),
                0xE0 <= b0 <= 0xEF,
                0x80 <= b1 <= 0xBF,
                0x80 <= b2 <= 0xBF,
        ;
    } else {
        assert(0x10000 <= code <= 0x10FFFF);
    }
}

/// Bytes that start with one of the patterns of `whitespace_width` start
/// with a well-formed character.
pub proof fn lemma_whitespace_pattern_is_scalar(bytes: Seq<u8>)
    requires
        whitespace_width(bytes) > 0,
    ensures
        valid_first_scalar(bytes),
{
    let b0: u8 = bytes[0];
    if whitespace_width(bytes) == 1 {
        lemma_ascii_scalar(bytes);
    } else if whitespace_width(bytes) == 2 {
        let b1: u8 = bytes[1];
        let code: u32 = decode_first_codepoint(bytes);
        assert(code == ((b0 & 0x1F) as u32) << 6 | ((b1 & 0x3F) as u32));
        assert(0x80 <= code < 0x800) by (bit_vector)
            requires
                code == ((b0 & 0x1F) as u32) << 6 | ((b1 & 0x3F) as u32),
                b0 == 0xC2,
                0x80 <= b1 <= 0xBF,
        ;
    } else {
        let b1: u8 = bytes[1];
        let b2: u8 = bytes[2];
        let code: u32 = decode_first_codepoint(bytes);
        assert(code == ((b0 & 0x0F) as u32) << 12 | ((b1 & 0x3F) as u32) << 6 | ((b2 & 0x3F) as u32));
        assert(0x1000 <= code < 0x4000) by (bit_vector)
            requires
                code == ((b0 & 0x0F) as u32) << 12 | ((b1 & 0x3F) as u32) << 6 | ((b2 & 0x3F) as u32),
                0xE1 <= b0 <= 0xE3,
                0x80 <= b1 <= 0xBF,
                0x80 <= b2 <= 0xBF,
        ;
    }
}

/// The bytes of one well-formed character are valid UTF-8 for the text of
/// that one character.
pub proof fn lemma_single_scalar(bytes: Seq<u8>)
    requires
        valid_first_scalar(bytes),
    ensures
        valid_utf8(take_first_scalar(bytes)),
        decode_utf8(take_first_scalar(bytes)) == seq![decode_first_scalar(bytes) as char],
{
    let one = take_first_scalar(bytes);
    assert(valid_first_scalar(one));
    assert(decode_first_scalar(one) == decode_first_scalar(bytes));
    assert(pop_first_scalar(one) =~= Seq::<u8>::empty());
    assert(valid_utf8(pop_first_scalar(one)));
    assert(valid_utf8(one));
    assert(decode_utf8(pop_first_scalar(one)) =~= Seq::<char>::empty());
    assert(decode_utf8(one) =~= seq![decode_first_scalar(bytes) as char]);
}

/// Two valid UTF-8 sequences in a row are valid UTF-8 for the two texts in
/// a row.
pub proof fn lemma_decode_concat(front: Seq<u8>, back: Seq<u8>)
    requires
        valid_utf8(front),
        valid_utf8(back),
    ensures
        valid_utf8(front + back),
        decode_utf8(front + back) == decode_utf8(front) + decode_utf8(back),
    decreases front.len(),
{
    if front.len() == 0 {
        assert(front + back =~= back);
        assert(decode_utf8(front) + decode_utf8(back) =~= decode_utf8(back));
    } else {
        let whole = front + back;
        assert(valid_first_scalar(whole)) by {
            assert(forall|k: int| 0 <= k < front.len() ==> whole[k] == front[k]);
        }
        assert(decode_first_scalar(whole) == decode_first_scalar(front));
        assert(pop_first_scalar(whole) =~= pop_first_scalar(front) + back);
        lemma_decode_concat(pop_first_scalar(front), back);
        assert(decode_utf8(whole) =~= decode_utf8(front) + decode_utf8(back));
    }
}

/// What follows a valid UTF-8 prefix in a valid UTF-8 sequence is valid
/// UTF-8 as well.
pub proof fn lemma_valid_remainder(front: Seq<u8>, back: Seq<u8>)
    requires
        valid_utf8(front),
        valid_utf8(front + back),
    ensures
        valid_utf8(back),
    decreases front.len(),
{
    if front.len() == 0 {
        assert(front + back =~= back);
    } else {
        let whole = front + back;
        assert(forall|k: int| 0 <= k < front.len() ==> whole[k] == front[k]);
        assert(pop_first_scalar(whole) =~= pop_first_scalar(front) + back);
        lemma_valid_remainder(pop_first_scalar(front), back);
    }
}

/// Reading one more well-formed character extends the valid prefix of
/// `bytes` by that character.
pub proof fn lemma_read_scalar(bytes: Seq<u8>, at: int)
    requires
        0 <= at < bytes.len(),
        valid_utf8(bytes.subrange(0, at)),
        valid_first_scalar(bytes.subrange(at, bytes.len() as int)),
    ensures
        at + length_of_first_scalar(bytes.subrange(at, bytes.len() as int)) <= bytes.len(),
        valid_utf8(
            bytes.subrange(0, at + length_of_first_scalar(bytes.subrange(at, bytes.len() as int))),
        ),
        decode_utf8(
            bytes.subrange(0, at + length_of_first_scalar(bytes.subrange(at, bytes.len() as int))),
        ) == decode_utf8(bytes.subrange(0, at)).push(
            decode_first_scalar(bytes.subrange(at, bytes.len() as int)) as char,
        ),
{
    let rest = bytes.subrange(at, bytes.len() as int);
    let width: int = length_of_first_scalar(rest);
    lemma_single_scalar(rest);
    lemma_decode_concat(bytes.subrange(0, at), take_first_scalar(rest));
    assert(bytes.subrange(0, at) + take_first_scalar(rest) =~= bytes.subrange(0, at + width));
    assert(decode_utf8(bytes.subrange(0, at)) + seq![decode_first_scalar(rest) as char]
        =~= decode_utf8(bytes.subrange(0, at)).push(decode_first_scalar(rest) as char));
}

/// If `bytes` as a whole is valid UTF-8 and so is its prefix up to `at`,
/// the text of `bytes` is the text of the prefix, then the character that
/// starts at `at`, then the text of what follows.
pub proof fn lemma_text_around(bytes: Seq<u8>, at: int)
    requires
        0 <= at < bytes.len(),
        valid_utf8(bytes),
        valid_utf8(bytes.subrange(0, at)),
    ensures
        valid_first_scalar(bytes.subrange(at, bytes.len() as int)),
        decode_utf8(bytes) == decode_utf8(bytes.subrange(0, at)) + seq![
            decode_first_scalar(bytes.subrange(at, bytes.len() as int)) as char,
        ] + decode_utf8(pop_first_scalar(bytes.subrange(at, bytes.len() as int))),
{
    let front = bytes.subrange(0, at);
    let back = bytes.subrange(at, bytes.len() as int);
    assert(front + back =~= bytes);
    lemma_valid_remainder(front, back);
    lemma_decode_concat(front, back);
    assert(decode_utf8(back) =~= seq![decode_first_scalar(back) as char] + decode_utf8(
        pop_first_scalar(back),
    ));
    assert(decode_utf8(bytes) =~= decode_utf8(front) + seq![decode_first_scalar(back) as char]
        + decode_utf8(pop_first_scalar(back)));
}

} // verus!
