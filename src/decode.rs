//! Lenient UTF-8 decoding: well-formed sequences decode to their scalar value,
//! and each maximal ill-formed subpart decodes to U+FFFD.

use vstd::prelude::*;
use vstd::utf8::{
    codepoint_width_2, codepoint_width_3, codepoint_width_4, decode_first_scalar, decode_utf8,
    length_of_first_scalar, pop_first_scalar, valid_first_scalar, valid_utf8,
};

verus! {

/// The scalar value that stands in for an ill-formed byte sequence.
pub const REPLACEMENT: u32 = 0xFFFD;

/// A continuation byte, `10xxxxxx`.
pub open spec fn is_cont(b: u8) -> bool {
    0x80 <= b <= 0xBF
}

/// The length of the well-formed sequence that a lead byte announces, or 0
/// for a byte that can never start one.
pub open spec fn width(b0: u8) -> nat {
    if b0 <= 0x7F {
        1
    } else if 0xC2 <= b0 <= 0xDF {
        2
    } else if 0xE0 <= b0 <= 0xEF {
        3
    } else if 0xF0 <= b0 <= 0xF4 {
        4
    } else {
        0
    }
}

/// Whether `b1` may follow the lead byte `b0` in a well-formed sequence.
/// The narrowed ranges after E0, ED, F0 and F4 exclude overlong forms,
/// surrogates and values above U+10FFFF.
pub open spec fn second_ok(b0: u8, b1: u8) -> bool {
    if b0 == 0xE0 {
        0xA0 <= b1 <= 0xBF
    } else if b0 == 0xED {
        0x80 <= b1 <= 0x9F
    } else if b0 == 0xF0 {
        0x90 <= b1 <= 0xBF
    } else if b0 == 0xF4 {
        0x80 <= b1 <= 0x8F
    } else {
        is_cont(b1)
    }
}

/// The number of bytes that the first decoding unit of `b` takes: a whole
/// well-formed sequence, or else the longest prefix of one (at least one byte).
pub open spec fn unit_len(b: Seq<u8>) -> nat
    recommends
        b.len() > 0,
{
    let w = width(b[0]);
    if w <= 1 {
        1
    } else if b.len() < 2 || !second_ok(b[0], b[1]) {
        1
    } else if w == 2 {
        2
    } else if b.len() < 3 || !is_cont(b[2]) {
        2
    } else if w == 3 {
        3
    } else if b.len() < 4 || !is_cont(b[3]) {
        3
    } else {
        4
    }
}

/// Whether `b` starts with a well-formed sequence.
pub open spec fn unit_valid(b: Seq<u8>) -> bool
    recommends
        b.len() > 0,
{
    width(b[0]) >= 1 && unit_len(b) == width(b[0])
}

/// The scalar value of the well-formed sequence at the start of `b`.
pub open spec fn scalar_value(b: Seq<u8>) -> int
    recommends
        unit_valid(b),
{
    let w = width(b[0]);
    if w == 1 {
        b[0] as int
    } else if w == 2 {
        (b[0] - 0xC0) * 0x40 + (b[1] - 0x80)
    } else if w == 3 {
        (b[0] - 0xE0) * 0x1000 + (b[1] - 0x80) * 0x40 + (b[2] - 0x80)
    } else {
        (b[0] - 0xF0) * 0x40000 + (b[1] - 0x80) * 0x1000 + (b[2] - 0x80) * 0x40 + (b[3] - 0x80)
    }
}

/// The scalar that the first decoding unit of `b` yields.
pub open spec fn unit_scalar(b: Seq<u8>) -> u32
    recommends
        b.len() > 0,
{
    if unit_valid(b) {
        scalar_value(b) as u32
    } else {
        REPLACEMENT
    }
}

/// The scalar values of `b` decoded leniently.
pub open spec fn decode_lossy(b: Seq<u8>) -> Seq<u32>
    decreases b.len(),
{
    if b.len() == 0 {
        seq![]
    } else {
        seq![unit_scalar(b)] + decode_lossy(b.subrange(unit_len(b) as int, b.len() as int))
    }
}

/// Every unit takes at least one byte, so decoding never yields more scalars
/// than there are bytes.
pub proof fn lemma_decode_len(b: Seq<u8>)
    ensures
        decode_lossy(b).len() <= b.len(),
    decreases b.len(),
{
    if b.len() > 0 {
        lemma_decode_len(b.subrange(unit_len(b) as int, b.len() as int));
    }
}

/// The value of a two-byte sequence, from its bits.
proof fn lemma_value_width_2(b0: u8, b1: u8)
    by (bit_vector)
    requires
        0xC0 <= b0 <= 0xDF,
        0x80 <= b1 <= 0xBF,
    ensures
        codepoint_width_2(b0, b1) == (b0 - 0xC0) * 0x40 + (b1 - 0x80),
{
}

/// The value of a three-byte sequence, from its bits.
proof fn lemma_value_width_3(b0: u8, b1: u8, b2: u8)
    by (bit_vector)
    requires
        0xE0 <= b0 <= 0xEF,
        0x80 <= b1 <= 0xBF,
        0x80 <= b2 <= 0xBF,
    ensures
        codepoint_width_3(b0, b1, b2) == (b0 - 0xE0) * 0x1000 + (b1 - 0x80) * 0x40 + (b2 - 0x80),
{
}

/// The value of a four-byte sequence, from its bits.
proof fn lemma_value_width_4(b0: u8, b1: u8, b2: u8, b3: u8)
    by (bit_vector)
    requires
        0xF0 <= b0 <= 0xF7,
        0x80 <= b1 <= 0xBF,
        0x80 <= b2 <= 0xBF,
        0x80 <= b3 <= 0xBF,
    ensures
        codepoint_width_4(b0, b1, b2, b3) == (b0 - 0xF0) * 0x40000 + (b1 - 0x80) * 0x1000 + (b2
            - 0x80) * 0x40 + (b3 - 0x80),
{
}

/// A well-formed first scalar, in the sense of `vstd::utf8`, is a well-formed
/// unit here, of the same length and value.
proof fn lemma_first_scalar(b: Seq<u8>)
    requires
        valid_first_scalar(b),
    ensures
        unit_valid(b),
        unit_len(b) == length_of_first_scalar(b),
        unit_scalar(b) == decode_first_scalar(b),
{
    let b0 = b[0];
    if b0 <= 0x7F {
        assert((b0 & 0x7F) == b0) by (bit_vector)
            requires
                b0 <= 0x7F,
        ;
    } else if b[0] <= 0xDF {
        lemma_value_width_2(b[0], b[1]);
    } else if b[0] <= 0xEF {
        lemma_value_width_3(b[0], b[1], b[2]);
    } else {
        lemma_value_width_4(b[0], b[1], b[2], b[3]);
    }
}

/// Well-formed UTF-8 decodes without loss: the lenient decoding agrees with
/// the standard decoding of `vstd::utf8`.
pub proof fn lemma_decode_valid(b: Seq<u8>)
    requires
        valid_utf8(b),
    ensures
        decode_lossy(b).map_values(|v: u32| v as char) == decode_utf8(b),
    decreases b.len(),
{
    if b.len() > 0 {
        lemma_first_scalar(b);
        let rest = pop_first_scalar(b);
        lemma_decode_valid(rest);
        assert(decode_lossy(b).map_values(|v: u32| v as char) =~= decode_utf8(b));
    }
}

/// Decodes the unit that starts at `bytes[i]`: its length and its scalar.
pub fn next_unit(bytes: &[u8], i: usize) -> (r: (usize, u32))
    requires
        i < bytes@.len(),
    ensures
        r.0 as nat == unit_len(bytes@.subrange(i as int, bytes@.len() as int)),
        r.1 == unit_scalar(bytes@.subrange(i as int, bytes@.len() as int)),
        1 <= r.0 <= bytes@.len() - i,
{
    let ghost rest = bytes@.subrange(i as int, bytes@.len() as int);
    let n = bytes.len() - i;
    let b0 = bytes[i];
    let w: usize = if b0 <= 0x7F {
        1
    } else if 0xC2 <= b0 && b0 <= 0xDF {
        2
    } else if 0xE0 <= b0 && b0 <= 0xEF {
        3
    } else if 0xF0 <= b0 && b0 <= 0xF4 {
        4
    } else {
        0
    };
    assert(w as nat == width(rest[0]));
    if w == 1 {
        return (1, b0 as u32);
    }
    if w == 0 || n < 2 {
        return (1, REPLACEMENT);
    }
    let b1 = bytes[i + 1];
    let ok1 = if b0 == 0xE0 {
        0xA0 <= b1 && b1 <= 0xBF
    } else if b0 == 0xED {
        0x80 <= b1 && b1 <= 0x9F
    } else if b0 == 0xF0 {
        0x90 <= b1 && b1 <= 0xBF
    } else if b0 == 0xF4 {
        0x80 <= b1 && b1 <= 0x8F
    } else {
        0x80 <= b1 && b1 <= 0xBF
    };
    if !ok1 {
        return (1, REPLACEMENT);
    }
    let c1 = (b1 - 0x80) as u32;
    if w == 2 {
        return (2, (b0 - 0xC0) as u32 * 0x40 + c1);
    }
    if n < 3 {
        return (2, REPLACEMENT);
    }
    let b2 = bytes[i + 2];
    if !(0x80 <= b2 && b2 <= 0xBF) {
        return (2, REPLACEMENT);
    }
    let c2 = (b2 - 0x80) as u32;
    if w == 3 {
        return (3, (b0 - 0xE0) as u32 * 0x1000 + c1 * 0x40 + c2);
    }
    if n < 4 {
        return (3, REPLACEMENT);
    }
    let b3 = bytes[i + 3];
    if !(0x80 <= b3 && b3 <= 0xBF) {
        return (3, REPLACEMENT);
    }
    let c3 = (b3 - 0x80) as u32;
    (4, (b0 - 0xF0) as u32 * 0x40000 + c1 * 0x1000 + c2 * 0x40 + c3)
}

} // verus!
