//! The shape of a character as the renderer takes it: the points of its
//! body, each packed into two words.
//!
//! The first word of a point holds, from the top, its x (16 bits), its
//! largest size (8), its frequency (4) and its noise (4); the second its y
//! (16), its least size (8), its morph (4) and the size of its core (4). A
//! joint is a point whose noise is at its largest.

use crate::encoding::{
    field_of, lemma_field_holds_value, lemma_other_fields_stay, packed, quantized_unit,
    DecodableToF32, EncodableToU32,
};
use crate::fixed::{quot, Fixed, ONE};
use crate::vec2::Vec2;
use vstd::prelude::*;

verus! {

/// Half the number of points that a character holds.
pub const ATTR_SIZE: usize = 13;

/// Raw value of a half.
pub const HALF: i64 = 500_000;

/// Raw coordinate of a point that is taken out: far off.
pub const FAR_OFF: i64 = 1_000_000_000_000_000;

/// Raw noise above which a point is a joint.
pub const JOINT_NOISE: i64 = 990_000;

/// A point in space.
#[derive(Clone, Copy, Debug, PartialEq, Eq, Structural)]
pub struct Vec3 {
    pub x: Fixed,
    pub y: Fixed,
    pub z: Fixed,
}

/// A colour, or any four numbers.
#[derive(Clone, Copy, Debug, PartialEq, Eq, Structural)]
pub struct Vec4 {
    pub x: Fixed,
    pub y: Fixed,
    pub z: Fixed,
    pub w: Fixed,
}

/// A point of a character before it is packed.
#[derive(Clone, Copy, Debug, PartialEq, Eq, Structural)]
pub struct InstanceDataNotEncoded {
    /// Where the point is, each coordinate between minus a half and a half.
    pub pos: Vec2,
    pub max_size: Fixed,
    pub frequency: Fixed,
    pub noise: Fixed,
    pub min_size: Fixed,
    pub morph: Fixed,
    pub core_size: Fixed,
    pub is_joint: bool,
}

/// A character as it is kept: its place, its scale and colour as words, and
/// its points unpacked.
#[derive(Clone, Debug)]
pub struct CharacterSaveFormat {
    pub group_position: [u32; 3],
    pub scale: u32,
    pub color: [u32; 4],
    pub data: Vec<InstanceDataNotEncoded>,
}

/// A character as the renderer takes it: everything packed into words.
#[derive(Clone, Copy, Debug, PartialEq, Eq)]
pub struct MarkerInstanceData {
    pub group_position: [u32; 3],
    pub scale: u32,
    pub color: [u32; 4],
    pub data: [[u32; 2]; 26],
}

/// The characters of one batch.
#[derive(Clone, Debug)]
pub struct MarkerInstanceMatData(pub Vec<MarkerInstanceData>);

/// The number that a field of a word holds: its count of steps of
/// `2^-(precision-1)`.
pub open spec fn unpacked(word: u32, place: u8, precision: u8) -> Fixed {
    Fixed::of(quot(field_of(word, place, precision) * ONE, (1u32 << ((precision - 1) as u8)) as int))
}

/// The word `word` with the number `value` written to a field.
pub open spec fn written(word: u32, value: Fixed, place: u8, precision: u8) -> u32 {
    packed(word, quantized_unit(value@, precision), place, precision)
}

/// The first word of the point `v`.
pub open spec fn first_word(v: InstanceDataNotEncoded) -> u32 {
    written(
        written(
            written(written(0, v.pos.x.sum(Fixed::of(HALF as int)), 32, 16), v.max_size, 16, 8),
            v.frequency,
            8,
            4,
        ),
        if v.is_joint {
            Fixed::of(ONE as int)
        } else {
            v.noise
        },
        4,
        4,
    )
}

/// The second word of the point `v`.
pub open spec fn second_word(v: InstanceDataNotEncoded) -> u32 {
    written(
        written(
            written(written(0, v.pos.y.sum(Fixed::of(HALF as int)), 32, 16), v.min_size, 16, 8),
            v.morph,
            8,
            4,
        ),
        v.core_size,
        4,
        4,
    )
}

/// The point that the two words `words` hold.
pub open spec fn point_of(words: [u32; 2]) -> InstanceDataNotEncoded {
    InstanceDataNotEncoded {
        pos: Vec2 {
            x: unpacked(words@[0], 32, 16).diff(Fixed::of(HALF as int)),
            y: unpacked(words@[1], 32, 16).diff(Fixed::of(HALF as int)),
        },
        max_size: unpacked(words@[0], 16, 8),
        frequency: unpacked(words@[0], 8, 4),
        noise: unpacked(words@[0], 4, 4),
        min_size: unpacked(words@[1], 16, 8),
        morph: unpacked(words@[1], 8, 4),
        core_size: unpacked(words@[1], 4, 4),
        is_joint: unpacked(words@[0], 4, 4)@ > JOINT_NOISE,
    }
}

/// `value` fits a field of `precision` bits: its count of steps is below
/// `2^precision`.
pub open spec fn fits(value: Fixed, precision: u8) -> bool {
    quantized_unit(value@, precision) < (1u32 << precision)
}

/// `value` as it is read back from a field of `precision` bits: rounded
/// toward zero to steps of `2^-(precision-1)`.
pub open spec fn rounded(value: Fixed, precision: u8) -> Fixed {
    Fixed::of(
        quot(quantized_unit(value@, precision) * ONE, (1u32 << ((precision - 1) as u8)) as int),
    )
}

/// What is written to the four fields of a word, each value one that fits,
/// is read back from them, rounded to the steps of its field.
pub proof fn lemma_word_round_trip(a: Fixed, b: Fixed, c: Fixed, d: Fixed)
    requires
        fits(a, 16),
        fits(b, 8),
        fits(c, 4),
        fits(d, 4),
    ensures
        ({
            let word = written(written(written(written(0, a, 32, 16), b, 16, 8), c, 8, 4), d, 4, 4);
            &&& unpacked(word, 32, 16) == rounded(a, 16)
            &&& unpacked(word, 16, 8) == rounded(b, 8)
            &&& unpacked(word, 8, 4) == rounded(c, 4)
            &&& unpacked(word, 4, 4) == rounded(d, 4)
        }),
{
    let qa = quantized_unit(a@, 16);
    let qb = quantized_unit(b@, 8);
    let qc = quantized_unit(c@, 4);
    let qd = quantized_unit(d@, 4);
    let w1 = packed(0, qa, 32, 16);
    let w2 = packed(w1, qb, 16, 8);
    let w3 = packed(w2, qc, 8, 4);
    let w4 = packed(w3, qd, 4, 4);
    lemma_field_holds_value(0, qa, 32, 16);
    lemma_other_fields_stay(w1, qb, 16, 8, 32, 16);
    lemma_other_fields_stay(w2, qc, 8, 4, 32, 16);
    lemma_other_fields_stay(w3, qd, 4, 4, 32, 16);
    lemma_field_holds_value(w1, qb, 16, 8);
    lemma_other_fields_stay(w2, qc, 8, 4, 16, 8);
    lemma_other_fields_stay(w3, qd, 4, 4, 16, 8);
    lemma_field_holds_value(w2, qc, 8, 4);
    lemma_other_fields_stay(w3, qd, 4, 4, 8, 4);
    lemma_field_holds_value(w3, qd, 4, 4);
}

/// A point is read back from its two words as it was written, each of its
/// numbers rounded to the steps of its field; a joint is read back as a
/// joint. This holds of a point whose numbers fit their fields.
pub proof fn lemma_point_round_trip(v: InstanceDataNotEncoded, words: [u32; 2])
    requires
        words@[0] == first_word(v),
        words@[1] == second_word(v),
        fits(v.pos.x.sum(Fixed::of(HALF as int)), 16),
        fits(v.pos.y.sum(Fixed::of(HALF as int)), 16),
        fits(v.max_size, 8),
        fits(v.min_size, 8),
        fits(v.frequency, 4),
        fits(v.morph, 4),
        fits(v.core_size, 4),
        v.is_joint || fits(v.noise, 4),
    ensures
        point_of(words).pos.x == rounded(v.pos.x.sum(Fixed::of(HALF as int)), 16).diff(
            Fixed::of(HALF as int),
        ),
        point_of(words).pos.y == rounded(v.pos.y.sum(Fixed::of(HALF as int)), 16).diff(
            Fixed::of(HALF as int),
        ),
        point_of(words).max_size == rounded(v.max_size, 8),
        point_of(words).min_size == rounded(v.min_size, 8),
        point_of(words).frequency == rounded(v.frequency, 4),
        point_of(words).morph == rounded(v.morph, 4),
        point_of(words).core_size == rounded(v.core_size, 4),
        v.is_joint ==> point_of(words).is_joint && point_of(words).noise@ == ONE,
        !v.is_joint ==> point_of(words).noise == rounded(v.noise, 4),
{
    let noise = if v.is_joint {
        Fixed::of(ONE as int)
    } else {
        v.noise
    };
    assert((1u32 << 3u8) == 8 && (1u32 << 4u8) == 16) by (bit_vector);
    crate::fixed::lemma_quot_exact(8, ONE as int);
    crate::fixed::lemma_quot_exact(ONE as int, 8);
    let one = Fixed::of(ONE as int);
    assert(one@ == ONE);
    assert(quot(ONE * 8, ONE as int) == 8);
    assert(quantized_unit(ONE as int, 4) == 8);
    assert(quot(8 * ONE, 8) == ONE);
    assert(fits(one, 4));
    assert(rounded(one, 4)@ == ONE);
    lemma_word_round_trip(v.pos.x.sum(Fixed::of(HALF as int)), v.max_size, v.frequency, noise);
    lemma_word_round_trip(v.pos.y.sum(Fixed::of(HALF as int)), v.min_size, v.morph, v.core_size);
}

/// The two words of the point `v`.
pub fn encode_point(v: &InstanceDataNotEncoded) -> (r: [u32; 2])
    ensures
        r@[0] == first_word(*v),
        r@[1] == second_word(*v),
{
    let mut encoded_x: u32 = 0;
    v.pos.x.plus(Fixed::new(HALF)).encode_to_u32_with_precision(&mut encoded_x, 32, 16);
    v.max_size.encode_to_u32_with_precision(&mut encoded_x, 16, 8);
    v.frequency.encode_to_u32_with_precision(&mut encoded_x, 8, 4);
    // a joint is told by the largest noise
    if v.is_joint {
        Fixed::one().encode_to_u32_with_precision(&mut encoded_x, 4, 4);
    } else {
        v.noise.encode_to_u32_with_precision(&mut encoded_x, 4, 4);
    }
    let mut encoded_y: u32 = 0;
    v.pos.y.plus(Fixed::new(HALF)).encode_to_u32_with_precision(&mut encoded_y, 32, 16);
    v.min_size.encode_to_u32_with_precision(&mut encoded_y, 16, 8);
    v.morph.encode_to_u32_with_precision(&mut encoded_y, 8, 4);
    v.core_size.encode_to_u32_with_precision(&mut encoded_y, 4, 4);
    [encoded_x, encoded_y]
}

impl Default for InstanceDataNotEncoded {
    /// A point far off that is no joint.
    fn default() -> (r: InstanceDataNotEncoded)
        ensures
            r == (InstanceDataNotEncoded {
                pos: Vec2 { x: Fixed::of(10_000_000_000_000), y: Fixed::of(10_000_000_000_000) },
                max_size: Fixed::of(800_000),
                frequency: Fixed::of(600_000),
                noise: Fixed::of(50_000),
                min_size: Fixed::of(700_000),
                morph: Fixed::of(500_000),
                core_size: Fixed::of(700_000),
                is_joint: false,
            }),
    {
        InstanceDataNotEncoded {
            pos: Vec2::new(Fixed::new(10_000_000_000_000), Fixed::new(10_000_000_000_000)),
            max_size: Fixed::new(800_000),
            frequency: Fixed::new(600_000),
            noise: Fixed::new(50_000),
            min_size: Fixed::new(700_000),
            morph: Fixed::new(500_000),
            core_size: Fixed::new(700_000),
            is_joint: false,
        }
    }
}

impl InstanceDataNotEncoded {
    /// A joint at `pos`.
    pub fn new_joint_at_pos(pos: Vec2) -> (r: InstanceDataNotEncoded)
        ensures
            r == (InstanceDataNotEncoded {
                pos,
                max_size: Fixed::of(400_000),
                frequency: Fixed::of(400_000),
                noise: Fixed::of(ONE as int),
                min_size: Fixed::of(300_000),
                morph: Fixed::of(200_000),
                core_size: Fixed::of(0),
                is_joint: true,
            }),
    {
        InstanceDataNotEncoded {
            pos,
            max_size: Fixed::new(400_000),
            frequency: Fixed::new(400_000),
            noise: Fixed::new(ONE),
            min_size: Fixed::new(300_000),
            morph: Fixed::new(200_000),
            core_size: Fixed::new(0),
            is_joint: true,
        }
    }
}

impl MarkerInstanceData {
    /// `self` is `before` but for one word of its point `index`, which is
    /// `word`.
    pub open spec fn is_with_word(
        self,
        before: MarkerInstanceData,
        index: int,
        which: int,
        word: u32,
    ) -> bool {
        &&& self.data@[index]@[which] == word
        &&& self.data@[index]@[1 - which] == before.data@[index]@[1 - which]
        &&& forall|k: int| 0 <= k < 26 && k != index ==> self.data@[k] == before.data@[k]
        &&& self.group_position == before.group_position
        &&& self.scale == before.scale
        &&& self.color == before.color
    }

    pub fn set_group_position(&mut self, pos: Vec3)
        ensures
            final(self).group_position@ == seq![
                written(old(self).group_position@[0], pos.x, 32, 32),
                written(old(self).group_position@[1], pos.y, 32, 32),
                written(old(self).group_position@[2], pos.z, 32, 32),
            ],
            final(self).scale == old(self).scale,
            final(self).color == old(self).color,
            final(self).data == old(self).data,
    {
        pos.x.encode_to_u32_with_precision(&mut self.group_position[0], 32, 32);
        pos.y.encode_to_u32_with_precision(&mut self.group_position[1], 32, 32);
        pos.z.encode_to_u32_with_precision(&mut self.group_position[2], 32, 32);
    }

    pub fn set_scale(&mut self, scale: Fixed)
        ensures
            *final(self) == (MarkerInstanceData {
                scale: written(old(self).scale, scale, 32, 32),
                ..*old(self)
            }),
    {
        scale.encode_to_u32_with_precision(&mut self.scale, 32, 32);
    }

    pub fn set_color(&mut self, color: Vec4)
        ensures
            final(self).color@ == seq![
                written(old(self).color@[0], color.x, 32, 32),
                written(old(self).color@[1], color.y, 32, 32),
                written(old(self).color@[2], color.z, 32, 32),
                written(old(self).color@[3], color.w, 32, 32),
            ],
            final(self).scale == old(self).scale,
            final(self).group_position == old(self).group_position,
            final(self).data == old(self).data,
    {
        color.x.encode_to_u32_with_precision(&mut self.color[0], 32, 32);
        color.y.encode_to_u32_with_precision(&mut self.color[1], 32, 32);
        color.z.encode_to_u32_with_precision(&mut self.color[2], 32, 32);
        color.w.encode_to_u32_with_precision(&mut self.color[3], 32, 32);
    }

    /// Takes the point `index` out: it is put far off.
    pub fn delete(&mut self, index: usize)
        requires
            index < 26,
        ensures
            final(self).data@[index as int]@ == seq![
                written(
                    old(self).data@[index as int]@[0],
                    Fixed::of(FAR_OFF as int).sum(Fixed::of(HALF as int)),
                    32,
                    16,
                ),
                written(
                    old(self).data@[index as int]@[1],
                    Fixed::of(FAR_OFF as int).sum(Fixed::of(HALF as int)),
                    32,
                    16,
                ),
            ],
            forall|k: int|
                0 <= k < 26 && k != index ==> final(self).data@[k] == old(self).data@[k],
            final(self).group_position == old(self).group_position,
            final(self).scale == old(self).scale,
            final(self).color == old(self).color,
    {
        self.set_pos(Vec2::new(Fixed::new(FAR_OFF), Fixed::new(FAR_OFF)), index);
    }

    /// Packs the point `v` into the place `index`.
    pub fn set_data(&mut self, index: usize, v: InstanceDataNotEncoded)
        requires
            index < 26,
        ensures
            final(self).data@[index as int]@ == seq![first_word(v), second_word(v)],
            forall|k: int|
                0 <= k < 26 && k != index ==> final(self).data@[k] == old(self).data@[k],
            final(self).group_position == old(self).group_position,
            final(self).scale == old(self).scale,
            final(self).color == old(self).color,
    {
        let words: [u32; 2] = encode_point(&v);
        self.data[index] = words;
        proof {
            assert(self.data@[index as int]@ =~= seq![first_word(v), second_word(v)]);
        }
    }

    /// A character of the points `vs`, at no place, of the largest scale and
    /// of a middle grey; the places beyond `vs` hold zeros.
    pub fn new(vs: Vec<InstanceDataNotEncoded>) -> (r: MarkerInstanceData)
        requires
            vs@.len() <= 26,
        ensures
            r.group_position@ == seq![0u32, 0u32, 0u32],
            r.scale == u32::MAX,
            r.color@ == seq![0x7fff_ffffu32, 0x7fff_ffffu32, 0x7fff_ffffu32, 0x7fff_ffffu32],
            forall|k: int|
                0 <= k < vs@.len() ==> (#[trigger] r.data@[k])@ == seq![
                    first_word(vs@[k]),
                    second_word(vs@[k]),
                ],
            forall|k: int| vs@.len() <= k < 26 ==> (#[trigger] r.data@[k])@ == seq![0u32, 0u32],
    {
        let mut instances = MarkerInstanceData {
            group_position: [0;3],
            scale: u32::MAX,
            color: [u32::MAX / 2;4],
            data: [[0;2];26],
        };
        proof {
            assert(instances.group_position@ =~= seq![0u32, 0u32, 0u32]);
            assert(instances.color@ =~= seq![
                0x7fff_ffffu32,
                0x7fff_ffffu32,
                0x7fff_ffffu32,
                0x7fff_ffffu32,
            ]);
            assert forall|k: int| 0 <= k < 26 implies (#[trigger] instances.data@[k])@ =~= seq![
                0u32,
                0u32,
            ] by {}
        }
        instances.set_all_data(vs);
        instances
    }

    /// Packs the points `vs` into the first places; the places beyond stay.
    pub fn set_all_data(&mut self, vs: Vec<InstanceDataNotEncoded>)
        requires
            vs@.len() <= 26,
        ensures
            forall|k: int|
                0 <= k < vs@.len() ==> (#[trigger] final(self).data@[k])@ == seq![
                    first_word(vs@[k]),
                    second_word(vs@[k]),
                ],
            forall|k: int|
                vs@.len() <= k < 26 ==> #[trigger] final(self).data@[k] == old(self).data@[k],
            final(self).group_position == old(self).group_position,
            final(self).scale == old(self).scale,
            final(self).color == old(self).color,
    {
        let mut i: usize = 0;
        while i < vs.len()
            invariant
                0 <= i <= vs@.len(),
                vs@.len() <= 26,
                forall|k: int|
                    0 <= k < i ==> (#[trigger] self.data@[k])@ == seq![
                        first_word(vs@[k]),
                        second_word(vs@[k]),
                    ],
                forall|k: int| i <= k < 26 ==> #[trigger] self.data@[k] == old(self).data@[k],
                self.group_position == old(self).group_position,
                self.scale == old(self).scale,
                self.color == old(self).color,
            decreases vs@.len() - i,
        {
            self.set_data(i, vs[i]);
            i = i + 1;
        }
    }

    /// Puts the point `index` at `pos`.
    pub fn set_pos(&mut self, pos: Vec2, index: usize)
        requires
            index < 26,
        ensures
            final(self).data@[index as int]@ == seq![
                written(old(self).data@[index as int]@[0], pos.x.sum(Fixed::of(HALF as int)), 32, 16),
                written(old(self).data@[index as int]@[1], pos.y.sum(Fixed::of(HALF as int)), 32, 16),
            ],
            forall|k: int|
                0 <= k < 26 && k != index ==> final(self).data@[k] == old(self).data@[k],
            final(self).group_position == old(self).group_position,
            final(self).scale == old(self).scale,
            final(self).color == old(self).color,
    {
        pos.x.plus(Fixed::new(HALF)).encode_to_u32_with_precision(&mut self.data[index][0], 32, 16);
        pos.y.plus(Fixed::new(HALF)).encode_to_u32_with_precision(&mut self.data[index][1], 32, 16);
        proof {
            assert(self.data@[index as int]@ =~= seq![
                written(old(self).data@[index as int]@[0], pos.x.sum(Fixed::of(HALF as int)), 32, 16),
                written(old(self).data@[index as int]@[1], pos.y.sum(Fixed::of(HALF as int)), 32, 16),
            ]);
        }
    }

    /// Writes `value` to a field of one word of the point `index`.
    fn set_field(&mut self, index: usize, which: usize, value: Fixed, place: u8, precision: u8)
        requires
            index < 26,
            which < 2,
            1 <= precision <= 32,
            precision <= place,
            place - precision < 32,
        ensures
            final(self).is_with_word(
                *old(self),
                index as int,
                which as int,
                written(old(self).data@[index as int]@[which as int], value, place, precision),
            ),
    {
        value.encode_to_u32_with_precision(&mut self.data[index][which], place, precision);
    }

    pub fn set_max_size(&mut self, max_size: Fixed, index: usize)
        requires
            index < 26,
        ensures
            final(self).is_with_word(
                *old(self),
                index as int,
                0,
                written(old(self).data@[index as int]@[0], max_size, 16, 8),
            ),
    {
        self.set_field(index, 0, max_size, 16, 8);
    }

    pub fn set_frequency(&mut self, frequency: Fixed, index: usize)
        requires
            index < 26,
        ensures
            final(self).is_with_word(
                *old(self),
                index as int,
                0,
                written(old(self).data@[index as int]@[0], frequency, 8, 4),
            ),
    {
        self.set_field(index, 0, frequency, 8, 4);
    }

    pub fn set_noise(&mut self, noise: Fixed, index: usize)
        requires
            index < 26,
        ensures
            final(self).is_with_word(
                *old(self),
                index as int,
                0,
                written(old(self).data@[index as int]@[0], noise, 4, 4),
            ),
    {
        self.set_field(index, 0, noise, 4, 4);
    }

    pub fn set_min_size(&mut self, min_size: Fixed, index: usize)
        requires
            index < 26,
        ensures
            final(self).is_with_word(
                *old(self),
                index as int,
                1,
                written(old(self).data@[index as int]@[1], min_size, 16, 8),
            ),
    {
        self.set_field(index, 1, min_size, 16, 8);
    }

    pub fn set_morph(&mut self, morph: Fixed, index: usize)
        requires
            index < 26,
        ensures
            final(self).is_with_word(
                *old(self),
                index as int,
                1,
                written(old(self).data@[index as int]@[1], morph, 8, 4),
            ),
    {
        self.set_field(index, 1, morph, 8, 4);
    }

    pub fn set_core_size(&mut self, core_size: Fixed, index: usize)
        requires
            index < 26,
        ensures
            final(self).is_with_word(
                *old(self),
                index as int,
                1,
                written(old(self).data@[index as int]@[1], core_size, 4, 4),
            ),
    {
        self.set_field(index, 1, core_size, 4, 4);
    }

    /// Writes one or zero to the lowest field of the second word of the
    /// point `index`.
    pub fn set_is_joint(&mut self, is_joint: bool, index: usize)
        requires
            index < 26,
        ensures
            final(self).is_with_word(
                *old(self),
                index as int,
                1,
                written(
                    old(self).data@[index as int]@[1],
                    if is_joint {
                        Fixed::of(ONE as int)
                    } else {
                        Fixed::of(0)
                    },
                    4,
                    4,
                ),
            ),
    {
        if is_joint {
            self.set_field(index, 1, Fixed::one(), 4, 4);
        } else {
            self.set_field(index, 1, Fixed::zero(), 4, 4);
        }
    }

    pub fn get_pos(&self, index: usize) -> (r: Vec2)
        requires
            index < 26,
        ensures
            r == point_of(self.data@[index as int]).pos,
    {
        Vec2::new(
            self.data[index][0].decode(32, 16).minus(Fixed::new(HALF)),
            self.data[index][1].decode(32, 16).minus(Fixed::new(HALF)),
        )
    }

    pub fn get_max_size(&self, index: usize) -> (r: Fixed)
        requires
            index < 26,
        ensures
            r == unpacked(self.data@[index as int]@[0], 16, 8),
    {
        self.data[index][0].decode(16, 8)
    }

    pub fn get_frequency(&self, index: usize) -> (r: Fixed)
        requires
            index < 26,
        ensures
            r == unpacked(self.data@[index as int]@[0], 8, 4),
    {
        self.data[index][0].decode(8, 4)
    }

    pub fn get_noise(&self, index: usize) -> (r: Fixed)
        requires
            index < 26,
        ensures
            r == unpacked(self.data@[index as int]@[0], 4, 4),
    {
        self.data[index][0].decode(4, 4)
    }

    pub fn get_min_size(&self, index: usize) -> (r: Fixed)
        requires
            index < 26,
        ensures
            r == unpacked(self.data@[index as int]@[1], 16, 8),
    {
        self.data[index][1].decode(16, 8)
    }

    pub fn get_morph(&self, index: usize) -> (r: Fixed)
        requires
            index < 26,
        ensures
            r == unpacked(self.data@[index as int]@[1], 8, 4),
    {
        self.data[index][1].decode(8, 4)
    }

    pub fn get_core_size(&self, index: usize) -> (r: Fixed)
        requires
            index < 26,
        ensures
            r == unpacked(self.data@[index as int]@[1], 4, 4),
    {
        self.data[index][1].decode(4, 4)
    }

    /// The point `index`, unpacked.
    pub fn get_all(&self, index: usize) -> (r: InstanceDataNotEncoded)
        requires
            index < 26,
        ensures
            r == point_of(self.data@[index as int]),
    {
        let noise: Fixed = self.get_noise(index);
        InstanceDataNotEncoded {
            pos: self.get_pos(index),
            max_size: self.get_max_size(index),
            frequency: self.get_frequency(index),
            noise,
            min_size: self.get_min_size(index),
            morph: self.get_morph(index),
            core_size: self.get_core_size(index),
            is_joint: noise.raw > JOINT_NOISE,
        }
    }

    pub fn get_group_position(&self) -> (r: Vec3)
        ensures
            r == (Vec3 {
                x: unpacked(self.group_position@[0], 32, 32).diff(Fixed::of(HALF as int)),
                y: unpacked(self.group_position@[1], 32, 32).diff(Fixed::of(HALF as int)),
                z: unpacked(self.group_position@[2], 32, 32).diff(Fixed::of(HALF as int)),
            }),
    {
        Vec3 {
            x: self.group_position[0].decode(32, 32).minus(Fixed::new(HALF)),
            y: self.group_position[1].decode(32, 32).minus(Fixed::new(HALF)),
            z: self.group_position[2].decode(32, 32).minus(Fixed::new(HALF)),
        }
    }

    pub fn get_scale(&self) -> (r: Fixed)
        ensures
            r == unpacked(self.scale, 32, 32),
    {
        self.scale.decode(32, 32)
    }

    pub fn get_color(&self) -> (r: Vec4)
        ensures
            r == (Vec4 {
                x: unpacked(self.color@[0], 32, 32),
                y: unpacked(self.color@[1], 32, 32),
                z: unpacked(self.color@[2], 32, 32),
                w: unpacked(self.color@[3], 32, 32),
            }),
    {
        Vec4 {
            x: self.color[0].decode(32, 32),
            y: self.color[1].decode(32, 32),
            z: self.color[2].decode(32, 32),
            w: self.color[3].decode(32, 32),
        }
    }
}

/// `cursor_pos` lies within the square of side `quad_size` around `pos`.
pub open spec fn in_square(cursor_pos: Vec2, pos: Vec2, quad_size: Fixed) -> bool {
    let half = quad_size.ratio(Fixed::of(2 * ONE));
    &&& cursor_pos.x@ < pos.x.sum(half)@
    &&& cursor_pos.x@ > pos.x.diff(half)@
    &&& cursor_pos.y@ < pos.y.sum(half)@
    &&& cursor_pos.y@ > pos.y.diff(half)@
}

impl MarkerInstanceMatData {
    /// The point that stands for the character `i` of the batch: its point
    /// with the same number.
    pub open spec fn handle(self, i: int) -> Vec2 {
        point_of(self.0@[i].data@[i]).pos
    }

    /// The first character of the batch whose handle has `cursor_pos` within
    /// the square of side `quad_size` around it.
    pub fn within_rect(&self, cursor_pos: Vec2, quad_size: Fixed) -> (r: Option<usize>)
        requires
            self.0@.len() <= 26,
        ensures
            match r {
                Some(i) => i < self.0@.len() && in_square(cursor_pos, self.handle(i as int), quad_size)
                    && forall|j: int|
                    0 <= j < i ==> !in_square(cursor_pos, #[trigger] self.handle(j), quad_size),
                None => forall|j: int|
                    0 <= j < self.0@.len() ==> !in_square(
                        cursor_pos,
                        #[trigger] self.handle(j),
                        quad_size,
                    ),
            },
    {
        let half: Fixed = quad_size.over(Fixed::new(2 * ONE));
        let mut i: usize = 0;
        while i < self.0.len()
            invariant
                0 <= i <= self.0@.len(),
                self.0@.len() <= 26,
                half == quad_size.ratio(Fixed::of(2 * ONE)),
                forall|j: int|
                    0 <= j < i ==> !in_square(cursor_pos, #[trigger] self.handle(j), quad_size),
            decreases self.0@.len() - i,
        {
            let pos: Vec2 = self.0[i].get_pos(i);
            if cursor_pos.x.raw < pos.x.plus(half).raw && cursor_pos.x.raw > pos.x.minus(half).raw
                && cursor_pos.y.raw < pos.y.plus(half).raw && cursor_pos.y.raw > pos.y.minus(
                half,
            ).raw {
                return Some(i);
            }
            i = i + 1;
        }
        None
    }

    /// Whether some character of the batch has `cursor_pos` within the
    /// square of side `quad_size` around its handle.
    pub fn within_rect_delta(&self, cursor_pos: Vec2, quad_size: Fixed) -> (r: bool)
        requires
            self.0@.len() <= 26,
        ensures
            r == exists|j: int|
                0 <= j < self.0@.len() && in_square(cursor_pos, #[trigger] self.handle(j), quad_size),
    {
        self.within_rect(cursor_pos, quad_size).is_some()
    }

    /// The first character of the batch as it is kept, its points unpacked.
    pub fn into_save_format(&self) -> (r: CharacterSaveFormat)
        requires
            self.0@.len() > 0,
        ensures
            r.group_position == self.0@[0].group_position,
            r.scale == self.0@[0].scale,
            r.color == self.0@[0].color,
            r.data@.len() == 26,
            forall|k: int| 0 <= k < 26 ==> #[trigger] r.data@[k] == point_of(self.0@[0].data@[k]),
    {
        let mut data: Vec<InstanceDataNotEncoded> = Vec::new();
        let mut k: usize = 0;
        while k < 26
            invariant
                0 <= k <= 26,
                self.0@.len() > 0,
                data@.len() == k,
                forall|j: int| 0 <= j < k ==> #[trigger] data@[j] == point_of(self.0@[0].data@[j]),
            decreases 26 - k,
        {
            data.push(self.0[0].get_all(k));
            k = k + 1;
        }
        CharacterSaveFormat {
            group_position: self.0[0].group_position,
            scale: self.0[0].scale,
            color: self.0[0].color,
            data,
        }
    }
}

impl CharacterSaveFormat {
    /// A batch of this one character, its points packed.
    pub fn into_instances(self) -> (r: MarkerInstanceMatData)
        requires
            self.data@.len() <= 26,
        ensures
            r.0@.len() == 1,
            r.0@[0].group_position == self.group_position,
            r.0@[0].scale == self.scale,
            r.0@[0].color == self.color,
            forall|k: int|
                0 <= k < self.data@.len() ==> (#[trigger] r.0@[0].data@[k])@ == seq![
                    first_word(self.data@[k]),
                    second_word(self.data@[k]),
                ],
            forall|k: int|
                self.data@.len() <= k < 26 ==> (#[trigger] r.0@[0].data@[k])@ == seq![0u32, 0u32],
    {
        let packed: MarkerInstanceData = MarkerInstanceData::new(self.data);
        let mut batch: Vec<MarkerInstanceData> = Vec::new();
        batch.push(
            MarkerInstanceData {
                group_position: self.group_position,
                scale: self.scale,
                color: self.color,
                data: packed.data,
            },
        );
        MarkerInstanceMatData(batch)
    }

    /// Where the points of the character are.
    pub fn take_pos(&self) -> (r: Vec<Vec2>)
        ensures
            r@.len() == self.data@.len(),
            forall|k: int| 0 <= k < r@.len() ==> #[trigger] r@[k] == self.data@[k].pos,
    {
        let mut positions: Vec<Vec2> = Vec::new();
        let mut k: usize = 0;
        while k < self.data.len()
            invariant
                0 <= k <= self.data@.len(),
                positions@.len() == k,
                forall|j: int| 0 <= j < k ==> #[trigger] positions@[j] == self.data@[j].pos,
            decreases self.data@.len() - k,
        {
            positions.push(self.data[k].pos);
            k = k + 1;
        }
        positions
    }
}

} // verus!
