//! Voxel storage: sections of 16×16×16 blocks, and chunks that stack them.

use crate::block::Block;
use crate::math::{IVec2, IVec3};
use std::sync::Arc;
use vstd::prelude::*;

verus! {

/// The edge of a section, in voxels.
pub const CHUNK_SIZE: i32 = 16;

/// The number of voxels in one layer of a section.
pub const CHUNK_SIZE2: i32 = 256;

/// The number of voxels in a section.
pub const CHUNK_SIZE3: i32 = 4096;

/// The edge of the lattice that the mesher works on: a section with one
/// layer of cells around it.
pub const PADDED_CHUNK_SIZE: i32 = 18;

/// [`PADDED_CHUNK_SIZE`] for indexing.
pub const PADDED_CHUNK_SIZE_USIZE: usize = 18;

/// The number of cells in one layer of the padded lattice.
pub const PADDED_CHUNK_SIZE2: i32 = 324;

/// [`PADDED_CHUNK_SIZE2`] for indexing.
pub const PADDED_CHUNK_SIZE2_USIZE: usize = 324;

/// The number of cells in the padded lattice.
pub const PADDED_CHUNK_SIZE3: i32 = 5832;

/// [`PADDED_CHUNK_SIZE3`] for indexing.
pub const PADDED_CHUNK_SIZE3_USIZE: usize = 5832;

/// The position of a chunk: its column, in chunk units.
#[derive(Clone, Copy, Debug, PartialEq, Eq, Structural, Hash)]
pub struct ChunkPos(pub IVec2);

impl ChunkPos {
    /// The number that stands for this position in hashed collections:
    /// both coordinates shifted to be non-negative, x in the upper half.
    pub open spec fn spec_key(&self) -> u64 {
        ((self.0.x + 0x8000_0000) * 0x1_0000_0000 + (self.0.y + 0x8000_0000)) as u64
    }

    /// The number that stands for this position in hashed collections.
    /// Different positions have different keys.
    #[verifier::when_used_as_spec(spec_key)]
    pub fn key(&self) -> (k: u64)
        ensures
            k == self.spec_key(),
    {
        let hi: u64 = (self.0.x as i64 + 0x8000_0000) as u64;
        let lo: u64 = (self.0.y as i64 + 0x8000_0000) as u64;
        hi * 0x1_0000_0000 + lo
    }

    /// The position that a key stands for.
    pub open spec fn spec_from_key(k: u64) -> ChunkPos {
        ChunkPos(
            IVec2 {
                x: (k / 0x1_0000_0000 - 0x8000_0000) as i32,
                y: (k % 0x1_0000_0000 - 0x8000_0000) as i32,
            },
        )
    }

    /// The position that a key stands for.
    #[verifier::when_used_as_spec(spec_from_key)]
    pub fn from_key(k: u64) -> (p: ChunkPos)
        ensures
            p == Self::spec_from_key(k),
            p.spec_key() == k,
    {
        let hi: i64 = (k / 0x1_0000_0000) as i64;
        let lo: i64 = (k % 0x1_0000_0000) as i64;
        ChunkPos(IVec2 { x: (hi - 0x8000_0000) as i32, y: (lo - 0x8000_0000) as i32 })
    }

    /// The position moved by `dx` columns along x and `dz` along z, or
    /// `None` where that leaves the range of the coordinates.
    pub fn offset(&self, dx: i32, dz: i32) -> (r: Option<ChunkPos>)
        ensures
            r.is_some() <==> (i32::MIN <= self.0.x + dx <= i32::MAX && i32::MIN <= self.0.y + dz
                <= i32::MAX),
            r matches Some(p) ==> p.0.x == self.0.x + dx && p.0.y == self.0.y + dz,
    {
        match (self.0.x.checked_add(dx), self.0.y.checked_add(dz)) {
            (Some(x), Some(y)) => Some(ChunkPos(IVec2 { x, y })),
            _ => None,
        }
    }
}

impl Default for ChunkPos {
    fn default() -> (p: ChunkPos)
        ensures
            p == ChunkPos(IVec2 { x: 0, y: 0 }),
    {
        ChunkPos(IVec2 { x: 0, y: 0 })
    }
}

/// Keys and positions correspond one to one.
pub proof fn lemma_key_round_trip(p: ChunkPos, k: u64)
    ensures
        ChunkPos::spec_from_key(p.spec_key()) == p,
        ChunkPos::spec_from_key(k).spec_key() == k,
{
}

/// Whether a voxel coordinate lies inside a section.
pub open spec fn in_section(x: int, y: int, z: int) -> bool {
    0 <= x < 16 && 0 <= y < 16 && 0 <= z < 16
}

/// Where the voxel at `(x, y, z)` stands in a section's storage.
pub open spec fn section_index(x: int, y: int, z: int) -> int {
    x + 16 * y + 256 * z
}

/// The block that a section holds at `(x, y, z)`: air outside the section.
pub open spec fn section_get(blocks: Seq<Block>, x: int, y: int, z: int) -> Block {
    if in_section(x, y, z) {
        blocks[section_index(x, y, z)]
    } else {
        Block(0)
    }
}

/// The section after a write at `(x, y, z)`: unchanged where the position is
/// outside the section.
pub open spec fn section_set(blocks: Seq<Block>, x: int, y: int, z: int, b: Block) -> Seq<Block> {
    if in_section(x, y, z) {
        blocks.update(section_index(x, y, z), b)
    } else {
        blocks
    }
}

/// Whether a section holds nothing but air.
pub open spec fn section_is_empty(blocks: Seq<Block>) -> bool {
    forall|i: int| 0 <= i < blocks.len() ==> blocks[i] == Block(0)
}

/// A cube of 16×16×16 blocks.
#[derive(Debug, PartialEq, Eq, PartialOrd, Ord)]
pub struct ChunkSection {
    blocks: Vec<Block>,
}

impl View for ChunkSection {
    type V = Seq<Block>;

    /// The 4096 blocks, the one at `(x, y, z)` at index `x + 16·y + 256·z`.
    closed spec fn view(&self) -> Seq<Block> {
        self.blocks@
    }
}

impl ChunkSection {
    /// A section holds exactly 4096 blocks. Every section that executable
    /// code can reach is well formed.
    #[verifier::type_invariant]
    pub open spec fn wf(&self) -> bool {
        self@.len() == 4096
    }

    /// A section of air.
    pub fn new() -> (s: Self)
        ensures
            s.wf(),
            section_is_empty(s@),
    {
        Self { blocks: vec![Block(0); 4096] }
    }

    /// The block at `(x, y, z)`; air for a position outside the section.
    pub fn get_by_xyz(&self, x: i32, y: i32, z: i32) -> (b: Block)
        ensures
            self.wf(),
            b == section_get(self@, x as int, y as int, z as int),
    {
        proof {
            use_type_invariant(self);
        }
        if x < 0 || x >= CHUNK_SIZE || y < 0 || y >= CHUNK_SIZE || z < 0 || z >= CHUNK_SIZE {
            return Block(0);
        }
        self.blocks[(x + (y * CHUNK_SIZE) + (z * CHUNK_SIZE2)) as usize]
    }

    /// Writes the block at `(x, y, z)`; does nothing for a position outside
    /// the section.
    pub fn set_by_xyz(&mut self, x: i32, y: i32, z: i32, id: Block)
        ensures
            final(self).wf(),
            final(self)@ == section_set(old(self)@, x as int, y as int, z as int, id),
    {
        proof {
            use_type_invariant(&*self);
        }
        if x < 0 || x >= CHUNK_SIZE || y < 0 || y >= CHUNK_SIZE || z < 0 || z >= CHUNK_SIZE {
            return ;
        }
        self.blocks[(x + (y * CHUNK_SIZE) + (z * CHUNK_SIZE2)) as usize] = id;
    }

    /// Whether the section holds nothing but air.
    pub fn is_empty(&self) -> (r: bool)
        ensures
            self.wf(),
            r == section_is_empty(self@),
    {
        proof {
            use_type_invariant(self);
        }
        let mut i: usize = 0;
        while i < 4096
            invariant
                i <= 4096,
                self.blocks@.len() == 4096,
                forall|j: int| 0 <= j < i ==> self.blocks@[j] == Block(0),
            decreases 4096 - i,
        {
            if self.blocks[i].0 != 0 {
                return false;
            }
            i += 1;
        }
        true
    }
}

impl Clone for ChunkSection {
    fn clone(&self) -> (s: Self)
        ensures
            s.wf(),
            s@ == self@,
    {
        proof {
            use_type_invariant(self);
        }
        let mut blocks: Vec<Block> = Vec::with_capacity(4096);
        let mut i: usize = 0;
        while i < 4096
            invariant
                i <= 4096,
                self.blocks@.len() == 4096,
                blocks@ == self.blocks@.take(i as int),
            decreases 4096 - i,
        {
            blocks.push(self.blocks[i]);
            i += 1;
        }
        Self { blocks }
    }
}

impl Default for ChunkSection {
    /// A section of air.
    fn default() -> (s: Self)
        ensures
            s.wf(),
            section_is_empty(s@),
    {
        Self::new()
    }
}

/// Another handle to a shared section. Calls `Arc::clone` of the standard
/// library, of which this states that the new handle points to the same
/// section as the old one.
#[verifier::external_body]
pub(crate) fn share_section(section: &Arc<ChunkSection>) -> (res: Arc<ChunkSection>)
    ensures
        res == *section,
{
    Arc::clone(section)
}

/// The block that a stack of sections holds at `(x, y, z)`: the section is
/// chosen by `y / 16`; air below the stack, above it, and beside it.
pub open spec fn chunk_get(sections: Seq<Seq<Block>>, x: int, y: int, z: int) -> Block {
    if 0 <= y && y / 16 < sections.len() {
        section_get(sections[y / 16], x, y % 16, z)
    } else {
        Block(0)
    }
}

/// The stack of sections after a write at `(x, y, z)`: unchanged where no
/// section holds the position.
pub open spec fn chunk_set(sections: Seq<Seq<Block>>, x: int, y: int, z: int, b: Block) -> Seq<
    Seq<Block>,
> {
    if 0 <= y && y / 16 < sections.len() {
        sections.update(y / 16, section_set(sections[y / 16], x, y % 16, z, b))
    } else {
        sections
    }
}

/// The block at `(x, y, z)` of the section that terrain generation makes:
/// solid inside the ball of radius 8 around `(8, 8, 8)`.
pub open spec fn sphere_block(x: int, y: int, z: int) -> Block {
    if (x - 8) * (x - 8) + (y - 8) * (y - 8) + (z - 8) * (z - 8) < 64 {
        Block(1)
    } else {
        Block(0)
    }
}

/// The section that terrain generation makes.
pub open spec fn sphere_section() -> Seq<Block> {
    Seq::new(4096, |i: int| sphere_block(i % 16, (i / 16) % 16, i / 256))
}

/// A column of the world: sections stacked upwards, each shared with the
/// meshing work that reads it.
#[derive(Debug)]
pub struct Chunk {
    pub sections: Vec<Arc<ChunkSection>>,
}

impl View for Chunk {
    type V = Seq<Seq<Block>>;

    /// The sections from the bottom up, each as its 4096 blocks.
    open spec fn view(&self) -> Seq<Seq<Block>> {
        Seq::new(self.sections@.len(), |i: int| self.sections@[i]@)
    }
}

impl Chunk {
    /// Every section of the chunk is well formed.
    pub open spec fn wf(&self) -> bool {
        forall|i: int| 0 <= i < self.sections@.len() ==> (#[trigger] self.sections@[i]).wf()
    }

    /// A chunk without sections.
    pub fn new() -> (c: Self)
        ensures
            c@ == Seq::<Seq<Block>>::empty(),
            c.wf(),
    {
        let c = Self { sections: vec![] };
        assert(c@ =~= Seq::<Seq<Block>>::empty());
        c
    }

    /// Puts two sections on top of the chunk, each holding a ball of
    /// `Block(1)` of radius 8 around its centre and air elsewhere.
    pub fn generate(&mut self)
        ensures
            final(self)@ == old(self)@.push(sphere_section()).push(sphere_section()),
            old(self).wf() ==> final(self).wf(),
    {
        let mut n: usize = 0;
        while n < 2
            invariant
                n <= 2,
                self.sections@.len() == old(self).sections@.len() + n,
                forall|i: int|
                    0 <= i < old(self).sections@.len() ==> self.sections@[i] == old(
                        self,
                    ).sections@[i],
                forall|i: int|
                    old(self).sections@.len() <= i < self.sections@.len() ==> (
                    #[trigger] self.sections@[i])@ == sphere_section(),
                forall|i: int|
                    old(self).sections@.len() <= i < self.sections@.len() ==> (
                    #[trigger] self.sections@[i]).wf(),
            decreases 2 - n,
        {
            let section = Self::generate_section();
            self.sections.push(Arc::new(section));
            n += 1;
        }
        assert(self@ =~= old(self)@.push(sphere_section()).push(sphere_section()));
    }

    /// One section of generated terrain.
    fn generate_section() -> (section: ChunkSection)
        ensures
            section.wf(),
            section@ == sphere_section(),
    {
        let mut section = ChunkSection::new();
        let mut x: i32 = 0;
        while x < CHUNK_SIZE
            invariant
                0 <= x <= 16,
                section.wf(),
                forall|cx: int, cy: int, cz: int|
                    0 <= cx < x && 0 <= cy < 16 && 0 <= cz < 16 ==> #[trigger] section_get(
                        section@,
                        cx,
                        cy,
                        cz,
                    ) == sphere_block(cx, cy, cz),
            decreases 16 - x,
        {
            let mut y: i32 = 0;
            while y < CHUNK_SIZE
                invariant
                    0 <= x < 16,
                    0 <= y <= 16,
                    section.wf(),
                    forall|cx: int, cy: int, cz: int|
                        0 <= cx <= x && 0 <= cy < 16 && 0 <= cz < 16 && (cx < x || cy < y)
                            ==> #[trigger] section_get(section@, cx, cy, cz) == sphere_block(
                            cx,
                            cy,
                            cz,
                        ),
                decreases 16 - y,
            {
                let mut z: i32 = 0;
                while z < CHUNK_SIZE
                    invariant
                        0 <= x < 16,
                        0 <= y < 16,
                        0 <= z <= 16,
                        section.wf(),
                        forall|cx: int, cy: int, cz: int|
                            0 <= cx <= x && 0 <= cy < 16 && 0 <= cz < 16 && (cx < x || cy < y || (
                            cx == x && cy == y && cz < z)) ==> #[trigger] section_get(
                                section@,
                                cx,
                                cy,
                                cz,
                            ) == sphere_block(cx, cy, cz),
                    decreases 16 - z,
                {
                    let dx: i32 = x - 8;
                    let dy: i32 = y - 8;
                    let dz: i32 = z - 8;
                    assert(0 <= dx * dx <= 64 && 0 <= dy * dy <= 64 && 0 <= dz * dz <= 64) by (
                        nonlinear_arith)
                        requires
                            -8 <= dx < 8,
                            -8 <= dy < 8,
                            -8 <= dz < 8,
                    ;
                    let voxel = if dx * dx + dy * dy + dz * dz < 64 {
                        Block(1)
                    } else {
                        Block(0)
                    };
                    let ghost before = section@;
                    section.set_by_xyz(x, y, z, voxel);
                    assert forall|cx: int, cy: int, cz: int|
                        0 <= cx <= x && 0 <= cy < 16 && 0 <= cz < 16 && (cx < x || cy < y || (cx
                            == x && cy == y && cz < z + 1)) implies #[trigger] section_get(
                        section@,
                        cx,
                        cy,
                        cz,
                    ) == sphere_block(cx, cy, cz) by {
                        if cx == x && cy == y && cz == z {
                        } else {
                            assert(section_get(section@, cx, cy, cz) == section_get(
                                before,
                                cx,
                                cy,
                                cz,
                            ));
                        }
                    }
                    z += 1;
                }
                y += 1;
            }
            x += 1;
        }
        assert(section@ =~= sphere_section()) by {
            assert forall|i: int| 0 <= i < 4096 implies section@[i] == sphere_section()[i] by {
                let cx = i % 16;
                let cy = (i / 16) % 16;
                let cz = i / 256;
                assert(section_index(cx, cy, cz) == i);
                assert(section_get(section@, cx, cy, cz) == sphere_block(cx, cy, cz));
            }
        }
        section
    }

    /// The voxel position of an index into a section's storage. An index
    /// outside the storage gives a position outside the section: below it
    /// for a negative index, above it for one from 4096 on.
    pub fn coords_by_index(index: i32) -> (v: IVec3)
        ensures
            v.x + 16 * v.y + 256 * v.z == index,
            index >= 0 ==> 0 <= v.x < 16 && 0 <= v.y < 16 && 0 <= v.z,
            index <= 0 ==> -16 < v.x <= 0 && -16 < v.y <= 0 && v.z <= 0,
            0 <= index < 4096 ==> in_section(v.x as int, v.y as int, v.z as int) && section_index(
                v.x as int,
                v.y as int,
                v.z as int,
            ) == index,
    {
        let mut index = index;
        let z = index / CHUNK_SIZE2;
        index -= z * CHUNK_SIZE2;
        let y = index / CHUNK_SIZE;
        index -= y * CHUNK_SIZE;
        let x = index;
        IVec3 { x, y, z }
    }

    /// The block at `(x, y, z)`, where `y` counts from the bottom of the
    /// chunk; air for a position that no section holds.
    pub fn get_by_xyz(&self, x: i32, y: i32, z: i32) -> (b: Block)
        ensures
            b == chunk_get(self@, x as int, y as int, z as int),
    {
        if y < 0 {
            return Block(0);
        }
        let section = (y / CHUNK_SIZE) as usize;
        if section >= self.sections.len() {
            return Block(0);
        }
        let y_in_section = y % CHUNK_SIZE;
        self.sections[section].get_by_xyz(x, y_in_section, z)
    }

    /// Writes the block at `(x, y, z)`; does nothing for a position that no
    /// section holds. The section written to is replaced by a changed copy,
    /// so work that still reads the old section is not disturbed.
    pub fn set_by_xyz(&mut self, x: i32, y: i32, z: i32, id: Block)
        ensures
            final(self)@ == chunk_set(old(self)@, x as int, y as int, z as int, id),
            old(self).wf() ==> final(self).wf(),
    {
        if y < 0 {
            return ;
        }
        let section = (y / CHUNK_SIZE) as usize;
        if section >= self.sections.len() {
            return ;
        }
        let y_in_section = y % CHUNK_SIZE;
        let mut changed: ChunkSection = (*self.sections[section]).clone();
        changed.set_by_xyz(x, y_in_section, z, id);
        self.sections.set(section, Arc::new(changed));
        assert(self@ =~= chunk_set(old(self)@, x as int, y as int, z as int, id));
    }

    /// The block at `coords`; air for a position that no section holds.
    pub fn get(&self, coords: IVec3) -> (b: Block)
        ensures
            b == chunk_get(self@, coords.x as int, coords.y as int, coords.z as int),
    {
        let x = coords.x;
        let y = coords.y;
        let z = coords.z;
        self.get_by_xyz(x, y, z)
    }

    /// Writes the block at `coords`; does nothing for a position that no
    /// section holds.
    pub fn set(&mut self, coords: IVec3, id: Block)
        ensures
            final(self)@ == chunk_set(
                old(self)@,
                coords.x as int,
                coords.y as int,
                coords.z as int,
                id,
            ),
            old(self).wf() ==> final(self).wf(),
    {
        let x = coords.x;
        let y = coords.y;
        let z = coords.z;
        self.set_by_xyz(x, y, z, id);
    }
}

impl Default for Chunk {
    /// A chunk without sections.
    fn default() -> (c: Self)
        ensures
            c@ == Seq::<Seq<Block>>::empty(),
    {
        Self::new()
    }
}

/// Writing a block inside a section and reading the same position gives the
/// block back; every other position reads as before.
pub proof fn lemma_section_set_get(
    blocks: Seq<Block>,
    x: int,
    y: int,
    z: int,
    b: Block,
    x2: int,
    y2: int,
    z2: int,
)
    requires
        blocks.len() == 4096,
        in_section(x, y, z),
    ensures
        section_set(blocks, x, y, z, b).len() == 4096,
        section_get(section_set(blocks, x, y, z, b), x, y, z) == b,
        (x2, y2, z2) != (x, y, z) ==> section_get(section_set(blocks, x, y, z, b), x2, y2, z2)
            == section_get(blocks, x2, y2, z2),
{
    lemma_section_index(x, y, z);
    if in_section(x2, y2, z2) {
        lemma_section_index(x2, y2, z2);
    }
}

/// Every position inside a section has an index of its own, from which
/// the position can be read.
pub proof fn lemma_section_index(x: int, y: int, z: int)
    requires
        in_section(x, y, z),
    ensures
        0 <= section_index(x, y, z) < 4096,
        section_index(x, y, z) % 16 == x,
        (section_index(x, y, z) / 16) % 16 == y,
        section_index(x, y, z) / 256 == z,
{
}

/// Outside a section every read gives air and every write leaves the
/// section as it was.
pub proof fn lemma_section_out_of_bounds(blocks: Seq<Block>, x: int, y: int, z: int, b: Block)
    requires
        !in_section(x, y, z),
    ensures
        section_get(blocks, x, y, z) == Block(0),
        section_set(blocks, x, y, z, b) == blocks,
{
}

} // verus!
