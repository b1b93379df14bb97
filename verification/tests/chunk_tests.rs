use boxel::block::Block;
use boxel::chunk::{Chunk, ChunkPos, ChunkSection, CHUNK_SIZE, CHUNK_SIZE2, CHUNK_SIZE3};
use boxel::math::{IVec2, IVec3};

#[test]
fn new_section_is_air() {
    let s = ChunkSection::new();
    assert!(s.is_empty());
    for x in 0..16 {
        for y in 0..16 {
            for z in 0..16 {
                assert_eq!(s.get_by_xyz(x, y, z), Block(0));
            }
        }
    }
    assert!(ChunkSection::default().is_empty());
}

#[test]
fn section_set_then_get_everywhere() {
    let mut s = ChunkSection::new();
    for x in 0..16 {
        for y in 0..16 {
            for z in 0..16 {
                let b = Block((1 + x + 16 * y + 256 * z) as u16);
                s.set_by_xyz(x, y, z, b);
                assert_eq!(s.get_by_xyz(x, y, z), b);
            }
        }
    }
    // every cell still holds what was written to it
    for x in 0..16 {
        for y in 0..16 {
            for z in 0..16 {
                assert_eq!(s.get_by_xyz(x, y, z), Block((1 + x + 16 * y + 256 * z) as u16));
            }
        }
    }
    assert!(!s.is_empty());
}

#[test]
fn section_set_changes_one_cell() {
    let mut s = ChunkSection::new();
    s.set_by_xyz(3, 4, 5, Block(9));
    let mut solid = 0;
    for x in 0..16 {
        for y in 0..16 {
            for z in 0..16 {
                if s.get_by_xyz(x, y, z) != Block(0) {
                    solid += 1;
                    assert_eq!((x, y, z), (3, 4, 5));
                }
            }
        }
    }
    assert_eq!(solid, 1);
}

#[test]
fn section_out_of_bounds_reads_air_and_drops_writes() {
    let mut s = ChunkSection::new();
    s.set_by_xyz(0, 0, 0, Block(1));
    s.set_by_xyz(15, 15, 15, Block(2));
    let before = s.clone();
    let outside = [
        (-1, 0, 0),
        (0, -1, 0),
        (0, 0, -1),
        (16, 0, 0),
        (0, 16, 0),
        (0, 0, 16),
        (-1, -1, -1),
        (16, 16, 16),
        (i32::MIN, 0, 0),
        (0, i32::MAX, 0),
        (0, 0, i32::MIN),
        (i32::MAX, i32::MAX, i32::MAX),
    ];
    for (x, y, z) in outside {
        assert_eq!(s.get_by_xyz(x, y, z), Block(0));
        s.set_by_xyz(x, y, z, Block(7));
        assert_eq!(s, before);
    }
}

#[test]
fn section_is_empty_after_clearing() {
    let mut s = ChunkSection::new();
    s.set_by_xyz(15, 0, 15, Block(3));
    assert!(!s.is_empty());
    s.set_by_xyz(15, 0, 15, Block(0));
    assert!(s.is_empty());
}

#[test]
fn chunk_sizes() {
    assert_eq!(CHUNK_SIZE, 16);
    assert_eq!(CHUNK_SIZE2, 256);
    assert_eq!(CHUNK_SIZE3, 4096);
}

#[test]
fn new_chunk_has_no_sections() {
    let c = Chunk::new();
    assert_eq!(c.sections.len(), 0);
    assert_eq!(c.get_by_xyz(0, 0, 0), Block(0));
    assert_eq!(Chunk::default().sections.len(), 0);
}

#[test]
fn generate_stacks_two_spheres() {
    let mut c = Chunk::new();
    c.generate();
    assert_eq!(c.sections.len(), 2);
    for section in 0..2 {
        for x in 0..16 {
            for y in 0..16 {
                for z in 0..16 {
                    let (dx, dy, dz) = (x - 8, y - 8, z - 8);
                    let want = if dx * dx + dy * dy + dz * dz < 64 { Block(1) } else { Block(0) };
                    assert_eq!(c.get_by_xyz(x, y + 16 * section, z), want);
                }
            }
        }
    }
    // the centre is solid, the corner is air, and radius 8 itself is outside
    assert_eq!(c.get_by_xyz(8, 8, 8), Block(1));
    assert_eq!(c.get_by_xyz(0, 0, 0), Block(0));
    assert_eq!(c.get_by_xyz(0, 8, 8), Block(0));
    assert_eq!(c.get_by_xyz(1, 8, 8), Block(1));
    c.generate();
    assert_eq!(c.sections.len(), 4);
}

#[test]
fn chunk_get_outside_is_air() {
    let mut c = Chunk::new();
    c.generate();
    assert_eq!(c.get_by_xyz(8, 32, 8), Block(0));
    assert_eq!(c.get_by_xyz(8, -1, 8), Block(0));
    assert_eq!(c.get_by_xyz(8, -16, 8), Block(0));
    assert_eq!(c.get_by_xyz(8, -17, 8), Block(0));
    assert_eq!(c.get_by_xyz(8, i32::MIN, 8), Block(0));
    assert_eq!(c.get_by_xyz(8, i32::MAX, 8), Block(0));
    assert_eq!(c.get_by_xyz(-1, 8, 8), Block(0));
    assert_eq!(c.get_by_xyz(16, 8, 8), Block(0));
    assert_eq!(c.get(IVec3::new(8, 8, 16)), Block(0));
}

#[test]
fn chunk_set_writes_the_right_section() {
    let mut c = Chunk::new();
    c.generate();
    c.set_by_xyz(0, 0, 0, Block(5));
    c.set_by_xyz(0, 17, 0, Block(6));
    c.set(IVec3::new(15, 31, 15), Block(7));
    assert_eq!(c.get_by_xyz(0, 0, 0), Block(5));
    assert_eq!(c.get_by_xyz(0, 17, 0), Block(6));
    assert_eq!(c.get(IVec3::new(15, 31, 15)), Block(7));
    assert_eq!(c.sections[0].get_by_xyz(0, 0, 0), Block(5));
    assert_eq!(c.sections[1].get_by_xyz(0, 1, 0), Block(6));
    assert_eq!(c.sections[1].get_by_xyz(15, 15, 15), Block(7));
    assert_eq!(c.sections[0].get_by_xyz(0, 1, 0), Block(0));
    // writes outside are dropped
    c.set_by_xyz(0, 32, 0, Block(8));
    c.set_by_xyz(0, -1, 0, Block(8));
    c.set_by_xyz(0, -20, 0, Block(8));
    c.set_by_xyz(-1, 0, 0, Block(8));
    assert_eq!(c.sections.len(), 2);
    assert_eq!(c.get_by_xyz(0, 0, 0), Block(5));
}

#[test]
fn chunk_set_leaves_shared_section_alone() {
    let mut c = Chunk::new();
    c.generate();
    let held = c.sections[0].clone();
    c.set_by_xyz(0, 0, 0, Block(9));
    assert_eq!(held.get_by_xyz(0, 0, 0), Block(0));
    assert_eq!(c.get_by_xyz(0, 0, 0), Block(9));
}

#[test]
fn coords_by_index_inverts_the_layout() {
    for z in 0..16 {
        for y in 0..16 {
            for x in 0..16 {
                let v = Chunk::coords_by_index(x + 16 * y + 256 * z);
                assert_eq!(v, IVec3::new(x, y, z));
            }
        }
    }
    assert_eq!(Chunk::coords_by_index(4096), IVec3::new(0, 0, 16));
}

#[test]
fn chunk_pos_keys_are_distinct() {
    let coords = [i32::MIN, -2, -1, 0, 1, 2, i32::MAX];
    let mut keys = Vec::new();
    for x in coords {
        for z in coords {
            let p = ChunkPos(IVec2::new(x, z));
            let k = p.key();
            assert_eq!(ChunkPos::from_key(k), p);
            assert!(!keys.contains(&k));
            keys.push(k);
        }
    }
    assert_eq!(ChunkPos(IVec2::new(i32::MIN, i32::MIN)).key(), 0);
    assert_eq!(ChunkPos(IVec2::new(i32::MAX, i32::MAX)).key(), u64::MAX);
    assert_eq!(ChunkPos(IVec2::new(0, 0)).key(), 0x8000_0000_8000_0000);
}

#[test]
fn chunk_pos_offset_stops_at_the_edge() {
    let p = ChunkPos(IVec2::new(5, -5));
    assert_eq!(p.offset(1, -1), Some(ChunkPos(IVec2::new(6, -6))));
    assert_eq!(ChunkPos(IVec2::new(i32::MAX, 0)).offset(1, 0), None);
    assert_eq!(ChunkPos(IVec2::new(0, i32::MIN)).offset(0, -1), None);
    assert_eq!(ChunkPos::default(), ChunkPos(IVec2::new(0, 0)));
}

#[test]
fn vectors() {
    assert_eq!(IVec3::splat(9999), IVec3::new(9999, 9999, 9999));
    assert_eq!(IVec3::new(1, 2, 3).xz(), IVec2::new(1, 3));
    assert_eq!(IVec3::new(1, 2, 3).to_array(), [1, 2, 3]);
    assert_eq!(IVec2::new(3, 4).distance_squared(IVec2::new(0, 0)), 25);
    assert_eq!(IVec2::new(-1, -1).distance_squared(IVec2::new(2, 3)), 25);
    assert_eq!(
        IVec2::new(i32::MIN, i32::MIN).distance_squared(IVec2::new(i32::MAX, i32::MAX)),
        2 * (u32::MAX as u128) * (u32::MAX as u128)
    );
    assert_eq!(IVec2::default(), IVec2::new(0, 0));
    assert_eq!(IVec3::default(), IVec3::new(0, 0, 0));
}
