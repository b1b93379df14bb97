//! A section together with the six sections that touch its faces: what the
//! mesher reads.

use crate::block::Block;
use crate::chunk::{in_section, section_get, share_section, Chunk, ChunkPos, ChunkSection};
use crate::math::IVec2;
use std::collections::HashMap;
use std::sync::Arc;
use vstd::prelude::*;

verus! {

/// A section and its neighbours, held by shared handles. `up` and `down`
/// are the sections above and below in the same chunk; `north` and `south`
/// lie towards +z and −z, `east` and `west` towards +x and −x. A neighbour
/// is absent at the top and bottom of the world and where the chunk beside
/// is not resident.
pub struct SectionNeighbors {
    pub center: Arc<ChunkSection>,
    pub up: Option<Arc<ChunkSection>>,
    pub down: Option<Arc<ChunkSection>>,
    pub north: Option<Arc<ChunkSection>>,
    pub south: Option<Arc<ChunkSection>>,
    pub east: Option<Arc<ChunkSection>>,
    pub west: Option<Arc<ChunkSection>>,
}

/// The blocks of a section and of its neighbours.
pub struct NeighborsView {
    pub center: Seq<Block>,
    pub up: Option<Seq<Block>>,
    pub down: Option<Seq<Block>>,
    pub north: Option<Seq<Block>>,
    pub south: Option<Seq<Block>>,
    pub east: Option<Seq<Block>>,
    pub west: Option<Seq<Block>>,
}

/// The blocks of a section that may be absent.
pub open spec fn section_view(section: Option<Arc<ChunkSection>>) -> Option<Seq<Block>> {
    match section {
        Some(s) => Some(s@),
        None => None,
    }
}

/// The block at `(x, y, z)` of a section that may be absent: air where it
/// is, and outside the section.
pub open spec fn optional_section_get(section: Option<Seq<Block>>, x: int, y: int, z: int) -> Block {
    match section {
        Some(s) => section_get(s, x, y, z),
        None => Block(0),
    }
}

impl NeighborsView {
    /// Every section that is present holds 4096 blocks.
    pub open spec fn wf(&self) -> bool {
        &&& self.center.len() == 4096
        &&& self.up matches Some(s) ==> s.len() == 4096
        &&& self.down matches Some(s) ==> s.len() == 4096
        &&& self.north matches Some(s) ==> s.len() == 4096
        &&& self.south matches Some(s) ==> s.len() == 4096
        &&& self.east matches Some(s) ==> s.len() == 4096
        &&& self.west matches Some(s) ==> s.len() == 4096
    }

    /// The block at `(x, y, z)`, counted from the low corner of the centre
    /// section, each coordinate in `-1..=16`. Inside the centre it is the
    /// centre's block. One step outside through a face it is the block of
    /// the neighbour beyond that face, at the position wrapped into that
    /// neighbour, and air where the neighbour is absent.
    pub open spec fn block_at(&self, x: int, y: int, z: int) -> Block {
        if in_section(x, y, z) {
            section_get(self.center, x, y, z)
        } else if y < 0 {
            optional_section_get(self.down, x % 16, y % 16, z % 16)
        } else if y >= 16 {
            optional_section_get(self.up, x % 16, y % 16, z % 16)
        } else if x < 0 {
            optional_section_get(self.west, x % 16, y % 16, z % 16)
        } else if x >= 16 {
            optional_section_get(self.east, x % 16, y % 16, z % 16)
        } else if z < 0 {
            optional_section_get(self.south, x % 16, y % 16, z % 16)
        } else {
            optional_section_get(self.north, x % 16, y % 16, z % 16)
        }
    }
}

impl View for SectionNeighbors {
    type V = NeighborsView;

    open spec fn view(&self) -> NeighborsView {
        NeighborsView {
            center: self.center@,
            up: section_view(self.up),
            down: section_view(self.down),
            north: section_view(self.north),
            south: section_view(self.south),
            east: section_view(self.east),
            west: section_view(self.west),
        }
    }
}

/// The blocks of section `y` of the chunk at column `(x, z)` of a map of
/// resident chunks, keyed by [`ChunkPos::key`]; `None` where the column is
/// outside the world, the chunk not resident, or the section not in it.
pub open spec fn resident_section(world_data: Map<u64, Arc<Chunk>>, x: int, z: int, y: int) -> Option<
    Seq<Block>,
> {
    let key = ChunkPos(IVec2 { x: x as i32, y: z as i32 }).spec_key();
    if i32::MIN <= x <= i32::MAX && i32::MIN <= z <= i32::MAX && world_data.contains_key(key) && 0
        <= y < world_data[key]@.len() {
        Some(world_data[key]@[y])
    } else {
        None
    }
}

/// Section `section_y` of the chunk at `middle_chunk` with its six
/// neighbours, as a map of resident chunks holds them.
pub open spec fn neighbors_at(
    world_data: Map<u64, Arc<Chunk>>,
    middle_chunk: ChunkPos,
    section_y: int,
) -> NeighborsView {
    let x = middle_chunk.0.x as int;
    let z = middle_chunk.0.y as int;
    NeighborsView {
        center: world_data[middle_chunk.spec_key()]@[section_y],
        up: resident_section(world_data, x, z, section_y + 1),
        down: resident_section(world_data, x, z, section_y - 1),
        north: resident_section(world_data, x, z + 1, section_y),
        south: resident_section(world_data, x, z - 1, section_y),
        east: resident_section(world_data, x + 1, z, section_y),
        west: resident_section(world_data, x - 1, z, section_y),
    }
}

/// A handle to section `section_y` of the chunk at `pos`, if the chunk is
/// resident and has that section.
fn section_handle(
    world_data: &HashMap<u64, Arc<Chunk>>,
    pos: Option<ChunkPos>,
    section_y: Option<usize>,
) -> (r: Option<Arc<ChunkSection>>)
    ensures
        match (pos, section_y) {
            (Some(p), Some(y)) => section_view(r) == resident_section(
                world_data@,
                p.0.x as int,
                p.0.y as int,
                y as int,
            ),
            _ => r.is_none(),
        },
{
    broadcast use vstd::std_specs::hash::group_hash_axioms;

    match (pos, section_y) {
        (Some(p), Some(y)) => {
            match world_data.get(&p.key()) {
                Some(chunk) => {
                    if y < chunk.sections.len() {
                        Some(share_section(&chunk.sections[y]))
                    } else {
                        None
                    }
                },
                None => None,
            }
        },
        _ => None,
    }
}

impl SectionNeighbors {
    /// Takes handles to section `section_y` of the chunk at `middle_chunk`
    /// and to the sections around it that are resident.
    pub fn new(world_data: &HashMap<u64, Arc<Chunk>>, middle_chunk: ChunkPos, section_y: usize) -> (nb:
        Self)
        requires
            world_data@.contains_key(middle_chunk.spec_key()),
            section_y < world_data@[middle_chunk.spec_key()]@.len(),
        ensures
            nb@ == neighbors_at(world_data@, middle_chunk, section_y as int),
    {
        broadcast use vstd::std_specs::hash::group_hash_axioms;

        let here = Some(middle_chunk);
        let sections_here = match world_data.get(&middle_chunk.key()) {
            Some(chunk) => chunk.sections.len(),
            None => 0,
        };
        assert(section_y < sections_here);
        let center = section_handle(world_data, here, Some(section_y)).unwrap();
        let up = section_handle(world_data, here, section_y.checked_add(1));
        let down = section_handle(world_data, here, section_y.checked_sub(1));
        let north = section_handle(world_data, middle_chunk.offset(0, 1), Some(section_y));
        let south = section_handle(world_data, middle_chunk.offset(0, -1), Some(section_y));
        let east = section_handle(world_data, middle_chunk.offset(1, 0), Some(section_y));
        let west = section_handle(world_data, middle_chunk.offset(-1, 0), Some(section_y));
        Self { center, up, down, north, south, east, west }
    }
}

} // verus!
