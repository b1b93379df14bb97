//! A voxel packed into sixteen bits.

use vstd::prelude::*;

verus! {

/// Number of distinct ids a block can carry (ten bits).
pub const BLOCK_IDS: u16 = 1024;

/// Number of distinct values of the variant and of the orientation field
/// (three bits each).
pub const BLOCK_FIELD_VALUES: u16 = 8;

/// A voxel: ten bits of id, then three bits of variant, then three bits of
/// orientation, counted from the least significant bit.
///
/// `Block(0)` is air, the only block that is not solid.
#[derive(Clone, Copy, Debug, PartialEq, Eq, Structural, PartialOrd, Ord, Hash)]
pub struct Block(pub u16);

impl Block {
    /// The id field as a number in `0..1024`.
    pub open spec fn spec_id(self) -> int {
        self.0 as int % 1024
    }

    /// The variant field as a number in `0..8`.
    pub open spec fn spec_variant(self) -> int {
        (self.0 as int / 1024) % 8
    }

    /// The orientation field as a number in `0..8`.
    pub open spec fn spec_orientation(self) -> int {
        self.0 as int / 8192
    }

    /// The packed value that carries the three given fields.
    pub open spec fn pack(id: int, variant: int, orientation: int) -> int {
        id + 1024 * variant + 8192 * orientation
    }

    /// Whether the block is anything but air.
    pub open spec fn spec_is_solid(&self) -> bool {
        self.0 != 0
    }

    /// Builds a block from its fields. Each input is cut down to the width of
    /// its field: the id to ten bits, the other two to three bits.
    pub fn new(id: u16, variant: u8, orientation: u8) -> (b: Block)
        ensures
            b.0 as int == Self::pack(id as int % 1024, variant as int % 8, orientation as int % 8),
            b.spec_id() == id as int % 1024,
            b.spec_variant() == variant as int % 8,
            b.spec_orientation() == orientation as int % 8,
    {
        let i: u16 = id & 0x3ff;
        let v: u16 = (variant as u16) & 7;
        let o: u16 = (orientation as u16) & 7;
        let raw: u16 = i | (v << 10) | (o << 13);
        proof {
            lemma_pack_fields(id, variant as u16, orientation as u16);
        }
        Block(raw)
    }

    /// The id field.
    pub fn id(&self) -> (r: u16)
        ensures
            r as int == self.spec_id(),
            r < 1024,
    {
        proof {
            lemma_unpack_fields(self.0);
        }
        self.0 & 0x3ff
    }

    /// The variant field.
    pub fn variant(&self) -> (r: u8)
        ensures
            r as int == self.spec_variant(),
            r < 8,
    {
        proof {
            lemma_unpack_fields(self.0);
        }
        ((self.0 >> 10) & 7) as u8
    }

    /// The orientation field.
    pub fn orientation(&self) -> (r: u8)
        ensures
            r as int == self.spec_orientation(),
            r < 8,
    {
        proof {
            lemma_unpack_fields(self.0);
        }
        ((self.0 >> 13) & 7) as u8
    }

    /// Replaces the id, cut down to ten bits; variant and orientation stay.
    pub fn set_id(&mut self, id: u16)
        ensures
            final(self).spec_id() == id as int % 1024,
            final(self).spec_variant() == old(self).spec_variant(),
            final(self).spec_orientation() == old(self).spec_orientation(),
    {
        let raw: u16 = (self.0 & 0xfc00) | (id & 0x3ff);
        proof {
            lemma_replace_id(self.0, id);
        }
        self.0 = raw;
    }

    /// Replaces the variant, cut down to three bits; id and orientation stay.
    pub fn set_variant(&mut self, variant: u8)
        ensures
            final(self).spec_id() == old(self).spec_id(),
            final(self).spec_variant() == variant as int % 8,
            final(self).spec_orientation() == old(self).spec_orientation(),
    {
        let raw: u16 = (self.0 & 0xe3ff) | (((variant as u16) & 7) << 10);
        proof {
            lemma_replace_variant(self.0, variant as u16);
        }
        self.0 = raw;
    }

    /// Replaces the orientation, cut down to three bits; id and variant stay.
    pub fn set_orientation(&mut self, orientation: u8)
        ensures
            final(self).spec_id() == old(self).spec_id(),
            final(self).spec_variant() == old(self).spec_variant(),
            final(self).spec_orientation() == orientation as int % 8,
    {
        let raw: u16 = (self.0 & 0x1fff) | (((orientation as u16) & 7) << 13);
        proof {
            lemma_replace_orientation(self.0, orientation as u16);
        }
        self.0 = raw;
    }

    /// Whether the block is anything but air.
    #[verifier::when_used_as_spec(spec_is_solid)]
    pub fn is_solid(&self) -> (r: bool)
        ensures
            r == self.spec_is_solid(),
    {
        self.0 != 0
    }
}

impl Default for Block {
    /// Air.
    fn default() -> (b: Block)
        ensures
            b == Block(0),
    {
        Block(0)
    }
}

proof fn lemma_pack_fields(id: u16, variant: u16, orientation: u16)
    by (bit_vector)
    ensures
        ((id & 0x3ff) | ((variant & 7) << 10) | ((orientation & 7) << 13)) == (id % 1024) + 1024 * (
        variant % 8) + 8192 * (orientation % 8),
        (((id & 0x3ff) | ((variant & 7) << 10) | ((orientation & 7) << 13)) % 1024) == id % 1024,
        ((((id & 0x3ff) | ((variant & 7) << 10) | ((orientation & 7) << 13)) / 1024) % 8) == variant
            % 8,
        (((id & 0x3ff) | ((variant & 7) << 10) | ((orientation & 7) << 13)) / 8192) == orientation
            % 8,
{
}

proof fn lemma_unpack_fields(raw: u16)
    by (bit_vector)
    ensures
        raw & 0x3ff == raw % 1024,
        (raw >> 10) & 7 == (raw / 1024) % 8,
        (raw >> 13) & 7 == raw / 8192,
        raw & 0x3ff < 1024,
        (raw >> 10) & 7 < 8,
        (raw >> 13) & 7 < 8,
{
}

proof fn lemma_replace_id(raw: u16, id: u16)
    by (bit_vector)
    ensures
        ((raw & 0xfc00) | (id & 0x3ff)) % 1024 == id % 1024,
        (((raw & 0xfc00) | (id & 0x3ff)) / 1024) % 8 == (raw / 1024) % 8,
        ((raw & 0xfc00) | (id & 0x3ff)) / 8192 == raw / 8192,
{
}

proof fn lemma_replace_variant(raw: u16, variant: u16)
    by (bit_vector)
    ensures
        ((raw & 0xe3ff) | ((variant & 7) << 10)) % 1024 == raw % 1024,
        (((raw & 0xe3ff) | ((variant & 7) << 10)) / 1024) % 8 == variant % 8,
        ((raw & 0xe3ff) | ((variant & 7) << 10)) / 8192 == raw / 8192,
{
}

proof fn lemma_replace_orientation(raw: u16, orientation: u16)
    by (bit_vector)
    ensures
        ((raw & 0x1fff) | ((orientation & 7) << 13)) % 1024 == raw % 1024,
        (((raw & 0x1fff) | ((orientation & 7) << 13)) / 1024) % 8 == (raw / 1024) % 8,
        ((raw & 0x1fff) | ((orientation & 7) << 13)) / 8192 == orientation % 8,
{
}

/// A block built from fields that fit their widths gives the same fields
/// back, and two blocks with the same three fields are the same block.
pub proof fn lemma_block_round_trip(id: int, variant: int, orientation: int)
    requires
        0 <= id < 1024,
        0 <= variant < 8,
        0 <= orientation < 8,
    ensures
        0 <= Block::pack(id, variant, orientation) < 65536,
        Block(Block::pack(id, variant, orientation) as u16).spec_id() == id,
        Block(Block::pack(id, variant, orientation) as u16).spec_variant() == variant,
        Block(Block::pack(id, variant, orientation) as u16).spec_orientation() == orientation,
{
}

/// Every block is the packing of its own three fields.
pub proof fn lemma_block_is_packed_fields(b: Block)
    ensures
        b.0 as int == Block::pack(b.spec_id(), b.spec_variant(), b.spec_orientation()),
        0 <= b.spec_id() < 1024,
        0 <= b.spec_variant() < 8,
        0 <= b.spec_orientation() < 8,
{
}

} // verus!
