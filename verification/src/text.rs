//! UTF-8 validation for the text carried in version frames.
//!
//! The host treats a version string that is not valid UTF-8 as a hard
//! failure, so the decoder needs an executable check proved against vstd's
//! model of UTF-8 (`vstd::utf8::valid_utf8`).

use vstd::prelude::*;
use vstd::utf8::{
    decode_first_codepoint, is_continuation_byte, is_leading_byte_width_1,
    is_leading_byte_width_2, is_leading_byte_width_3, is_leading_byte_width_4,
    length_of_first_codepoint, pop_first_scalar, valid_first_scalar,
    valid_leading_and_continuation_bytes_first_codepoint, valid_utf8,
};

verus! {

/// One step of the validation loop: consuming a well-formed leading scalar
/// of `width` bytes keeps the remainder's validity equivalent.
proof fn lemma_consume_scalar(s: Seq<u8>, width: int)
    requires
        s.len() > 0,
        valid_first_scalar(s),
        length_of_first_codepoint(s) == width,
    ensures
        valid_utf8(s) <==> valid_utf8(s.skip(width)),
{
    assert(pop_first_scalar(s) =~= s.skip(width));
}

/// Whether `bytes` is a valid UTF-8 encoding, byte for byte as
/// `String::from_utf8` would judge it.
pub fn is_valid_utf8(bytes: &Vec<u8>) -> (r: bool)
    ensures
        r == valid_utf8(bytes@),
{
    let n: usize = bytes.len();
    let mut pos: usize = 0;
    assert(bytes@.skip(0) =~= bytes@);
    while pos < n
        invariant
            pos <= n,
            n == bytes@.len(),
            valid_utf8(bytes@) <==> valid_utf8(bytes@.skip(pos as int)),
        decreases n - pos,
    {
        let ghost tail = bytes@.skip(pos as int);
        assert(tail.len() == n - pos);
        let b0: u8 = bytes[pos];
        assert(tail[0] == b0);
        if b0 < 0x80 {
            // One-byte scalar: always well formed.
            proof {
                assert(is_leading_byte_width_1(b0));
                lemma_consume_scalar(tail, 1);
                assert(bytes@.skip(pos as int).skip(1) =~= bytes@.skip(pos as int + 1));
            }
            pos = pos + 1;
        } else if b0 < 0xc0 {
            // A continuation byte cannot lead a scalar.
            proof {
                assert(!valid_leading_and_continuation_bytes_first_codepoint(tail));
            }
            return false;
        } else if b0 < 0xe0 {
            if n - pos < 2 || !is_continuation(bytes[pos + 1]) {
                return false;
            }
            let b1: u8 = bytes[pos + 1];
            assert(tail[1] == b1);
            let code: u32 = (((b0 & 0x1f) as u32) << 6u32) | ((b1 & 0x3f) as u32);
            assert(code == decode_first_codepoint(tail));
            if code < 0x80 {
                // Overlong two-byte encoding.
                return false;
            }
            proof {
                assert((((b0 & 0x1f) as u32) << 6u32) | ((b1 & 0x3f) as u32) <= 0x7ff)
                    by (bit_vector);
                lemma_consume_scalar(tail, 2);
                assert(bytes@.skip(pos as int).skip(2) =~= bytes@.skip(pos as int + 2));
            }
            pos = pos + 2;
        } else if b0 < 0xf0 {
            if n - pos < 3 || !is_continuation(bytes[pos + 1]) || !is_continuation(bytes[pos + 2]) {
                return false;
            }
            let b1: u8 = bytes[pos + 1];
            let b2: u8 = bytes[pos + 2];
            assert(tail[1] == b1 && tail[2] == b2);
            let code: u32 = (((b0 & 0x0f) as u32) << 12u32) | (((b1 & 0x3f) as u32) << 6u32) | (
            (b2 & 0x3f) as u32);
            assert(code == decode_first_codepoint(tail));
            if code < 0x800 {
                // Overlong three-byte encoding.
                return false;
            }
            if 0xd800 <= code && code <= 0xdfff {
                // Surrogate range: not a Unicode scalar.
                return false;
            }
            proof {
                lemma_consume_scalar(tail, 3);
                assert(bytes@.skip(pos as int).skip(3) =~= bytes@.skip(pos as int + 3));
            }
            pos = pos + 3;
        } else if b0 < 0xf8 {
            if n - pos < 4 || !is_continuation(bytes[pos + 1]) || !is_continuation(bytes[pos + 2])
                || !is_continuation(bytes[pos + 3]) {
                return false;
            }
            let b1: u8 = bytes[pos + 1];
            let b2: u8 = bytes[pos + 2];
            let b3: u8 = bytes[pos + 3];
            assert(tail[1] == b1 && tail[2] == b2 && tail[3] == b3);
            let code: u32 = (((b0 & 0x07) as u32) << 18u32) | (((b1 & 0x3f) as u32) << 12u32) | (
            ((b2 & 0x3f) as u32) << 6u32) | ((b3 & 0x3f) as u32);
            assert(code == decode_first_codepoint(tail));
            if code < 0x10000 || code > 0x10ffff {
                // Overlong four-byte encoding, or beyond the last codepoint.
                return false;
            }
            proof {
                lemma_consume_scalar(tail, 4);
                assert(bytes@.skip(pos as int).skip(4) =~= bytes@.skip(pos as int + 4));
            }
            pos = pos + 4;
        } else {
            // 0xf8..=0xff can lead no scalar at all.
            proof {
                assert(!valid_leading_and_continuation_bytes_first_codepoint(tail));
            }
            return false;
        }
    }
    assert(bytes@.skip(pos as int) =~= Seq::<u8>::empty());
    true
}

/// Whether a byte has the continuation shape `10xxxxxx`.
fn is_continuation(b: u8) -> (r: bool)
    ensures
        r == is_continuation_byte(b),
{
    0x80 <= b && b <= 0xbf
}

} // verus!
