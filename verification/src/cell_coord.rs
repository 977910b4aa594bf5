//! A map position packed into one 64-bit word.
//!
//! From the most to the least significant bit the word holds a 10-bit chunk
//! index, a 9-bit x, a 9-bit y and a 7-bit z that is stored with a bias of 32:
//! 35 bits in all. Construction never fails: a component that does not fit
//! its field loses its high bits.

use vstd::prelude::*;

verus! {

/// Bias added to z before it is stored, so that -32 becomes 0.
pub const Z_BIAS: i8 = 32;

/// The chunk index as its field holds it: the lowest 10 bits.
pub open spec fn chunk_field(chunk_idx: u16) -> int {
    chunk_idx as int % 1024
}

/// An x or y as its field holds it: the lowest 9 bits.
pub open spec fn axis_field(v: u16) -> int {
    v as int % 512
}

/// The z as its field holds it: biased by 32, then the lowest 7 bits.
pub open spec fn z_field(z: i8) -> int {
    (z as int + 32) % 128
}

/// The packed word of a position: `[chunk:10][x:9][y:9][z:7]`.
pub open spec fn pack(chunk_idx: u16, x: u16, y: u16, z: i8) -> int {
    chunk_field(chunk_idx) * 0x200_0000 + axis_field(x) * 0x1_0000 + axis_field(y) * 0x80
        + z_field(z)
}

/// The chunk index held by a packed word.
pub open spec fn chunk_idx_of(word: int) -> int {
    (word / 0x200_0000) % 1024
}

/// The x held by a packed word.
pub open spec fn x_of(word: int) -> int {
    (word / 0x1_0000) % 512
}

/// The y held by a packed word.
pub open spec fn y_of(word: int) -> int {
    (word / 0x80) % 512
}

/// The z held by a packed word, with the bias taken off again.
pub open spec fn z_of(word: int) -> int {
    word % 128 - 32
}

proof fn lemma_pack_bits(c: u64, x: u64, y: u64, z: u64)
    by (bit_vector)
    requires
        c < 0x1_0000,
        x < 0x1_0000,
        y < 0x1_0000,
        z < 0x200,
    ensures
        ((c & 0x3FF) << 25) | ((x & 0x1FF) << 16) | ((y & 0x1FF) << 7) | (z & 0x7F) == (c % 1024)
            * 0x200_0000 + (x % 512) * 0x1_0000 + (y % 512) * 0x80 + (z % 128),
        (c % 1024) * 0x200_0000 + (x % 512) * 0x1_0000 + (y % 512) * 0x80 + (z % 128)
            < 0x8_0000_0000,
{
}

proof fn lemma_unpack_bits(w: u64)
    by (bit_vector)
    ensures
        (w >> 25) & 0x3FF == (w / 0x200_0000) % 1024,
        (w >> 16) & 0x1FF == (w / 0x1_0000) % 512,
        (w >> 7) & 0x1FF == (w / 0x80) % 512,
        w & 0x7F == w % 128,
{
}

/// A packed position. Two of them are equal exactly when their words are.
#[derive(Clone, Copy, PartialEq, Eq, Hash, Structural)]
pub struct CellCoord(u64);

impl View for CellCoord {
    type V = int;

    /// The packed word.
    closed spec fn view(&self) -> int {
        self.0 as int
    }
}

impl CellCoord {
    #[verifier::type_invariant]
    spec fn fits_35_bits(self) -> bool {
        self.0 < 0x8_0000_0000
    }

    /// Packs a position. Each component is cut down to its field, so any
    /// input is accepted.
    pub fn new(chunk_idx: u16, x: u16, y: u16, z: i8) -> (coord: Self)
        ensures
            coord@ == pack(chunk_idx, x, y, z),
    {
        let biased: u64 = (z as i16 + Z_BIAS as i16 + 128) as u64;
        let z_bits: u64 = biased & 0x7F;
        let y_bits: u64 = y as u64 & 0x1FF;
        let x_bits: u64 = x as u64 & 0x1FF;
        let chunk_bits: u64 = chunk_idx as u64 & 0x3FF;
        proof {
            lemma_pack_bits(chunk_idx as u64, x as u64, y as u64, biased);
        }
        CellCoord((chunk_bits << 25) | (x_bits << 16) | (y_bits << 7) | z_bits)
    }

    /// The chunk index that was packed, as its field holds it.
    pub fn chunk_idx(&self) -> (chunk_idx: u16)
        ensures
            chunk_idx == chunk_idx_of(self@),
    {
        proof {
            lemma_unpack_bits(self.0);
        }
        ((self.0 >> 25) & 0x3FF) as u16
    }

    /// The x that was packed, as its field holds it.
    pub fn x(&self) -> (x: u16)
        ensures
            x == x_of(self@),
    {
        proof {
            lemma_unpack_bits(self.0);
        }
        ((self.0 >> 16) & 0x1FF) as u16
    }

    /// The y that was packed, as its field holds it.
    pub fn y(&self) -> (y: u16)
        ensures
            y == y_of(self@),
    {
        proof {
            lemma_unpack_bits(self.0);
        }
        ((self.0 >> 7) & 0x1FF) as u16
    }

    /// The z that was packed, as its field holds it: from -32 to 95.
    pub fn z(&self) -> (z: i8)
        ensures
            z == z_of(self@),
    {
        proof {
            lemma_unpack_bits(self.0);
        }
        ((self.0 & 0x7F) as i8) - Z_BIAS
    }

    /// All four components at once: chunk index, x, y, z.
    pub fn unpack(&self) -> (parts: (u16, u16, u16, i8))
        ensures
            parts.0 == chunk_idx_of(self@),
            parts.1 == x_of(self@),
            parts.2 == y_of(self@),
            parts.3 == z_of(self@),
    {
        (self.chunk_idx(), self.x(), self.y(), self.z())
    }
}

proof fn lemma_fields_of_word(c: u64, x: u64, y: u64, z: u64)
    by (bit_vector)
    requires
        c < 1024,
        x < 512,
        y < 512,
        z < 128,
    ensures
        ((c * 0x200_0000 + x * 0x1_0000 + y * 0x80 + z) / 0x200_0000) % 1024 == c,
        ((c * 0x200_0000 + x * 0x1_0000 + y * 0x80 + z) / 0x1_0000) % 512 == x,
        ((c * 0x200_0000 + x * 0x1_0000 + y * 0x80 + z) / 0x80) % 512 == y,
        (c * 0x200_0000 + x * 0x1_0000 + y * 0x80 + z) % 128 == z,
{
}

/// Unpacking gives each component as its field holds it: cut down to the
/// width of the field, whatever was packed.
pub proof fn lemma_unpack_gives_fields(chunk_idx: u16, x: u16, y: u16, z: i8)
    ensures
        chunk_idx_of(pack(chunk_idx, x, y, z)) == chunk_field(chunk_idx),
        x_of(pack(chunk_idx, x, y, z)) == axis_field(x),
        y_of(pack(chunk_idx, x, y, z)) == axis_field(y),
        z_of(pack(chunk_idx, x, y, z)) == z_field(z) - 32,
{
    lemma_fields_of_word(
        chunk_field(chunk_idx) as u64,
        axis_field(x) as u64,
        axis_field(y) as u64,
        z_field(z) as u64,
    );
}

/// Unpacking a packed position gives the position back, if each component
/// fits its field: a chunk index up to 1023, x and y up to 511, and z from
/// -32 to 95.
pub proof fn lemma_unpack_pack(chunk_idx: u16, x: u16, y: u16, z: i8)
    requires
        chunk_idx <= 1023,
        x <= 511,
        y <= 511,
        -32 <= z <= 95,
    ensures
        chunk_idx_of(pack(chunk_idx, x, y, z)) == chunk_idx,
        x_of(pack(chunk_idx, x, y, z)) == x,
        y_of(pack(chunk_idx, x, y, z)) == y,
        z_of(pack(chunk_idx, x, y, z)) == z,
{
    lemma_unpack_gives_fields(chunk_idx, x, y, z);
}

/// Two positions pack to the same word exactly when they agree in every
/// field. So a chunk index wraps at 1024, x and y wrap at 512, and z wraps
/// at 128.
pub proof fn lemma_pack_wraps(a: (u16, u16, u16, i8), b: (u16, u16, u16, i8))
    ensures
        pack(a.0, a.1, a.2, a.3) == pack(b.0, b.1, b.2, b.3) <==> {
            &&& chunk_field(a.0) == chunk_field(b.0)
            &&& axis_field(a.1) == axis_field(b.1)
            &&& axis_field(a.2) == axis_field(b.2)
            &&& z_field(a.3) == z_field(b.3)
        },
{
    lemma_unpack_gives_fields(a.0, a.1, a.2, a.3);
    lemma_unpack_gives_fields(b.0, b.1, b.2, b.3);
}

} // verus!
