//! Packing numbers into the bit fields of a 32-bit word, and taking them out
//! again.
//!
//! A field is named by its `place`, the number of the bit just above it, and
//! its `precision`, the number of bits it holds: it covers the bits
//! `place - precision .. place`.

use crate::fixed::{quot, Fixed, ONE};
use vstd::prelude::*;

verus! {

/// The word with ones everywhere but in the field at `place` of `precision`
/// bits; zero for a field of the whole word.
pub open spec fn field_mask(place: u8, precision: u8) -> u32 {
    if precision < 32 {
        (u32::MAX - ((((1u32 << precision) - 1) as u32) << ((place - precision) as u8))) as u32
    } else {
        0
    }
}

/// The word `input` with `value` put at the field at `place` of `precision`
/// bits: the field is cleared and `value`, shifted to it, is or-ed in.
pub open spec fn packed(input: u32, value: u32, place: u8, precision: u8) -> u32 {
    (input & field_mask(place, precision)) | (value << ((place - precision) as u8))
}

/// What the field at `place` of `precision` bits holds in `word`.
pub open spec fn field_of(word: u32, place: u8, precision: u8) -> u32 {
    if precision < 32 {
        (word >> ((place - precision) as u8)) & (((1u32 << precision) - 1) as u32)
    } else {
        word >> ((place - precision) as u8)
    }
}

/// The field at `place` of `precision` bits lies within a word.
pub open spec fn is_field(place: u8, precision: u8) -> bool {
    precision <= place && place - precision < 32
}

/// `x` as a whole number between zero and `max`: below zero it is zero,
/// above `max` it is `max`.
pub open spec fn clamp_to(x: int, max: int) -> int {
    if x < 0 {
        0
    } else if x > max {
        max
    } else {
        x
    }
}

/// A number between zero and one as a count of steps of `2^-(precision-1)`,
/// rounded toward zero.
pub open spec fn quantized_unit(raw: int, precision: u8) -> u32 {
    clamp_to(quot(raw * (1u32 << ((precision - 1) as u8)), ONE as int), u32::MAX as int) as u32
}

/// What can be put into a bit field of a word.
pub trait EncodableToU32 {
    /// The field at `place` of the value's own width can be written.
    spec fn can_encode(&self, place: u8) -> bool;

    /// The word `input` after the value has been put at `place`.
    spec fn encoded(&self, input: u32, place: u8) -> u32;

    /// The field at `place` of `precision` bits can be written.
    spec fn can_encode_with(&self, place: u8, precision: u8) -> bool;

    /// The word `input` after the value has been put at the field at `place`
    /// of `precision` bits.
    spec fn encoded_with(&self, input: u32, place: u8, precision: u8) -> u32;

    /// Puts the value into `input`, at the field at `place` of the value's own
    /// width.
    fn encode(&self, input: &mut u32, place: u8)
        requires
            self.can_encode(place),
        ensures
            *final(input) == self.encoded(*old(input), place),
    ;

    /// Puts the value into `input`, at the field at `place` of `precision`
    /// bits. A value that needs more bits spills into the fields above.
    fn encode_to_u32_with_precision(&self, input: &mut u32, place: u8, precision: u8)
        requires
            self.can_encode_with(place, precision),
        ensures
            *final(input) == self.encoded_with(*old(input), place, precision),
    ;
}

/// What a number between zero and one can be read from.
pub trait DecodableToF32 {
    /// The field at `place` of `precision` bits can be read.
    spec fn can_decode(&self, place: u8, precision: u8) -> bool;

    /// The number that the field at `place` of `precision` bits holds.
    spec fn decoded(&self, place: u8, precision: u8) -> Fixed;

    /// Reads the number that the field at `place` of `precision` bits holds:
    /// its count of steps of `2^-(precision-1)`.
    fn decode(&self, place: u8, precision: u8) -> (r: Fixed)
        requires
            self.can_decode(place, precision),
        ensures
            r == self.decoded(place, precision),
    ;
}

/// A whole number as a share of the largest of its type.
pub trait ConvertableToUnitf32 {
    /// The share, between zero and one.
    spec fn unit_share(&self) -> Fixed;

    /// The number as a share of the largest of its type, between zero and one.
    fn to_f32(&self) -> (r: Fixed)
        ensures
            r == self.unit_share(),
    ;
}

/// A number between zero and one as a byte.
pub trait ConvertableToU8 {
    /// The byte: the number of 255ths, rounded toward zero.
    spec fn byte_share(&self) -> u8;

    /// The number as a byte: its count of 255ths, rounded toward zero, and
    /// held between 0 and 255.
    fn to_u8(&self) -> (r: u8)
        ensures
            r == self.byte_share(),
    ;
}

/// Puts `value` into `input` at the field at `place` of `precision` bits.
pub fn pack(input: &mut u32, value: u32, place: u8, precision: u8)
    requires
        is_field(place, precision),
    ensures
        *final(input) == packed(*old(input), value, place, precision),
{
    let shift: u8 = place - precision;
    let value_u32: u32 = value << shift;
    let mut mask: u32 = 0;
    if precision < 32 {
        assert((1u32 << precision) >= 1) by (bit_vector)
            requires
                precision < 32,
        ;
        mask = u32::MAX - (((1u32 << precision) - 1) << shift);
    }
    *input = (*input & mask) | value_u32;
}

/// What the field at `place` of `precision` bits holds in `word`.
pub fn unpack(word: u32, place: u8, precision: u8) -> (r: u32)
    requires
        is_field(place, precision),
    ensures
        r == field_of(word, place, precision),
{
    let value_u32: u32 = word >> (place - precision);
    if precision < 32 {
        assert((1u32 << precision) >= 1) by (bit_vector)
            requires
                precision < 32,
        ;
        value_u32 & ((1u32 << precision) - 1)
    } else {
        value_u32
    }
}

/// A value that fits its field is read back from it as it was written.
pub proof fn lemma_field_holds_value(input: u32, value: u32, place: u8, precision: u8)
    requires
        precision <= place <= 32,
        0 < precision,
        precision < 32 ==> value < (1u32 << precision),
    ensures
        field_of(packed(input, value, place, precision), place, precision) == value,
{
    let shift: u8 = (place - precision) as u8;
    if precision < 32 {
        assert(((((input & ((u32::MAX - ((((1u32 << precision) - 1) as u32) << shift)) as u32)) | (
        value << shift)) >> shift) & (((1u32 << precision) - 1) as u32)) == value)
            by (bit_vector)
            requires
                0 < precision < 32,
                shift <= 32 - precision,
                value < (1u32 << precision),
        ;
    } else {
        assert(shift == 0);
        assert((((input & 0u32) | (value << 0u8)) >> 0u8) == value) by (bit_vector);
    }
}

/// Writing one field leaves every field below it and above it as it was, for
/// a value that fits.
pub proof fn lemma_other_fields_stay(
    input: u32,
    value: u32,
    place: u8,
    precision: u8,
    other_place: u8,
    other_precision: u8,
)
    requires
        0 < precision < 32,
        precision <= place <= 32,
        value < (1u32 << precision),
        0 < other_precision < 32,
        other_precision <= other_place <= 32,
        other_place <= place - precision || place <= other_place - other_precision,
    ensures
        field_of(packed(input, value, place, precision), other_place, other_precision) == field_of(
            input,
            other_place,
            other_precision,
        ),
{
    let shift: u8 = (place - precision) as u8;
    let other_shift: u8 = (other_place - other_precision) as u8;
    assert(((((input & ((u32::MAX - ((((1u32 << precision) - 1) as u32) << shift)) as u32)) | (value
        << shift)) >> other_shift) & (((1u32 << other_precision) - 1) as u32)) == ((input
        >> other_shift) & (((1u32 << other_precision) - 1) as u32))) by (bit_vector)
        requires
            0 < precision < 32,
            shift <= 32 - precision,
            value < (1u32 << precision),
            0 < other_precision < 32,
            other_shift <= 32 - other_precision,
            other_shift + other_precision <= shift || shift + precision <= other_shift,
    ;
}

impl EncodableToU32 for u8 {
    open spec fn can_encode(&self, place: u8) -> bool {
        is_field(place, 8)
    }

    open spec fn encoded(&self, input: u32, place: u8) -> u32 {
        packed(input, *self as u32, place, 8)
    }

    open spec fn can_encode_with(&self, place: u8, precision: u8) -> bool {
        is_field(place, precision)
    }

    open spec fn encoded_with(&self, input: u32, place: u8, precision: u8) -> u32 {
        packed(input, *self as u32, place, precision)
    }

    fn encode(&self, input: &mut u32, place: u8) {
        pack(input, *self as u32, place, 8);
    }

    fn encode_to_u32_with_precision(&self, input: &mut u32, place: u8, precision: u8) {
        pack(input, *self as u32, place, precision);
    }
}

impl EncodableToU32 for u16 {
    open spec fn can_encode(&self, place: u8) -> bool {
        is_field(place, 16)
    }

    open spec fn encoded(&self, input: u32, place: u8) -> u32 {
        packed(input, *self as u32, place, 16)
    }

    open spec fn can_encode_with(&self, place: u8, precision: u8) -> bool {
        is_field(place, precision)
    }

    open spec fn encoded_with(&self, input: u32, place: u8, precision: u8) -> u32 {
        packed(input, *self as u32, place, precision)
    }

    fn encode(&self, input: &mut u32, place: u8) {
        pack(input, *self as u32, place, 16);
    }

    fn encode_to_u32_with_precision(&self, input: &mut u32, place: u8, precision: u8) {
        pack(input, *self as u32, place, precision);
    }
}

impl EncodableToU32 for u32 {
    open spec fn can_encode(&self, place: u8) -> bool {
        is_field(place, 32)
    }

    open spec fn encoded(&self, input: u32, place: u8) -> u32 {
        packed(input, *self, place, 32)
    }

    open spec fn can_encode_with(&self, place: u8, precision: u8) -> bool {
        is_field(place, precision)
    }

    open spec fn encoded_with(&self, input: u32, place: u8, precision: u8) -> u32 {
        packed(input, *self, place, precision)
    }

    fn encode(&self, input: &mut u32, place: u8) {
        pack(input, *self, place, 32);
    }

    fn encode_to_u32_with_precision(&self, input: &mut u32, place: u8, precision: u8) {
        pack(input, *self, place, precision);
    }
}

/// The count of steps of `2^-(precision-1)` in a number, between zero and the
/// largest word.
pub fn quantize(value: Fixed, precision: u8) -> (r: u32)
    requires
        1 <= precision <= 32,
    ensures
        r == quantized_unit(value@, precision),
{
    let steps: u32 = 1u32 << (precision - 1);
    let a: i64 = value.raw;
    assert(-0x8000_0000_0000_0000 * 0x1_0000_0000 <= a * steps <= 0x8000_0000_0000_0000
        * 0x1_0000_0000) by (nonlinear_arith)
        requires
            -0x8000_0000_0000_0000 <= a <= 0x8000_0000_0000_0000,
            0 <= steps <= 0x1_0000_0000,
    ;
    let n: i128 = (a as i128) * (steps as i128);
    if n < 0 {
        assert(quot(n as int, ONE as int) <= 0);
        0
    } else {
        let q: i128 = n / (ONE as i128);
        if q > u32::MAX as i128 {
            u32::MAX
        } else {
            q as u32
        }
    }
}

impl EncodableToU32 for Fixed {
    open spec fn can_encode(&self, place: u8) -> bool {
        true
    }

    /// A number of the whole word's precision takes the word over, wherever
    /// its place is said to be.
    open spec fn encoded(&self, input: u32, place: u8) -> u32 {
        quantized_unit(self@, 32)
    }

    open spec fn can_encode_with(&self, place: u8, precision: u8) -> bool {
        1 <= precision <= 32 && is_field(place, precision)
    }

    open spec fn encoded_with(&self, input: u32, place: u8, precision: u8) -> u32 {
        packed(input, quantized_unit(self@, precision), place, precision)
    }

    fn encode(&self, input: &mut u32, place: u8) {
        *input = quantize(*self, 32);
    }

    fn encode_to_u32_with_precision(&self, input: &mut u32, place: u8, precision: u8) {
        pack(input, quantize(*self, precision), place, precision);
    }
}

impl DecodableToF32 for u32 {
    open spec fn can_decode(&self, place: u8, precision: u8) -> bool {
        1 <= precision <= 32 && is_field(place, precision)
    }

    open spec fn decoded(&self, place: u8, precision: u8) -> Fixed {
        Fixed::of(
            quot(
                field_of(*self, place, precision) * ONE,
                (1u32 << ((precision - 1) as u8)) as int,
            ),
        )
    }

    fn decode(&self, place: u8, precision: u8) -> (r: Fixed) {
        let masked_value_u32: u32 = unpack(*self, place, precision);
        let steps: u32 = 1u32 << (precision - 1);
        assert(steps >= 1) by (bit_vector)
            requires
                steps == 1u32 << ((precision - 1) as u8),
                1 <= precision <= 32,
        ;
        assert(0 <= masked_value_u32 * 1_000_000 <= 0xffff_ffff * 1_000_000) by (nonlinear_arith)
            requires
                0 <= masked_value_u32 <= 0xffff_ffff,
        ;
        let n: u64 = (masked_value_u32 as u64) * (ONE as u64);
        Fixed { raw: (n / (steps as u64)) as i64 }
    }
}

impl ConvertableToUnitf32 for u8 {
    open spec fn unit_share(&self) -> Fixed {
        Fixed::of((*self * ONE) / 255)
    }

    fn to_f32(&self) -> (r: Fixed) {
        Fixed { raw: ((*self as i64) * ONE) / 255 }
    }
}

impl ConvertableToUnitf32 for u16 {
    open spec fn unit_share(&self) -> Fixed {
        Fixed::of((*self * ONE) / 65535)
    }

    fn to_f32(&self) -> (r: Fixed) {
        Fixed { raw: ((*self as i64) * ONE) / 65535 }
    }
}

impl ConvertableToUnitf32 for u32 {
    open spec fn unit_share(&self) -> Fixed {
        Fixed::of((*self * ONE) / 4294967295)
    }

    fn to_f32(&self) -> (r: Fixed) {
        assert(0 <= *self * 1_000_000 <= 0xffff_ffff * 1_000_000) by (nonlinear_arith)
            requires
                0 <= *self <= 0xffff_ffff,
        ;
        Fixed { raw: ((*self as i64) * ONE) / 4294967295 }
    }
}

impl ConvertableToU8 for Fixed {
    open spec fn byte_share(&self) -> u8 {
        clamp_to(quot(self@ * 255, ONE as int), 255) as u8
    }

    fn to_u8(&self) -> (r: u8) {
        let a: i64 = self.raw;
        let n: i128 = (a as i128) * 255;
        if n < 0 {
            assert(quot(n as int, ONE as int) <= 0);
            0
        } else {
            let q: i128 = n / (ONE as i128);
            if q > 255 {
                255
            } else {
                q as u8
            }
        }
    }
}

} // verus!
