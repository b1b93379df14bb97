use boxel::block::Block;
use boxel::chunk::{Chunk, ChunkPos, ChunkSection};
use boxel::chunk_mesh::ChunkSectionMesh;
use boxel::greedy_mesher::{generate_section_mesh, greedy_mesh_binary_plane};
use boxel::math::{IVec2, IVec3};
use boxel::quad::{Direction, GreedyQuad};
use boxel::section_neighbors::SectionNeighbors;
use std::collections::HashMap;
use std::sync::Arc;

fn alone(center: ChunkSection) -> SectionNeighbors {
    SectionNeighbors {
        center: Arc::new(center),
        up: None,
        down: None,
        north: None,
        south: None,
        east: None,
        west: None,
    }
}

fn filled(block: Block) -> ChunkSection {
    let mut s = ChunkSection::new();
    for x in 0..16 {
        for y in 0..16 {
            for z in 0..16 {
                s.set_by_xyz(x, y, z, block);
            }
        }
    }
    s
}

fn v(x: i32, y: i32, z: i32) -> IVec3 {
    IVec3::new(x, y, z)
}

/// Normal, lowest corner and highest corner of each quad of a mesh.
fn quads_of(mesh: &ChunkSectionMesh) -> Vec<(IVec3, IVec3, IVec3)> {
    let mut quads = Vec::new();
    for q in 0..mesh.vertices.len() / 4 {
        let c = &mesh.vertices[4 * q..4 * q + 4];
        let lo = v(
            c.iter().map(|p| p.x).min().unwrap(),
            c.iter().map(|p| p.y).min().unwrap(),
            c.iter().map(|p| p.z).min().unwrap(),
        );
        let hi = v(
            c.iter().map(|p| p.x).max().unwrap(),
            c.iter().map(|p| p.y).max().unwrap(),
            c.iter().map(|p| p.z).max().unwrap(),
        );
        quads.push((mesh.normals[4 * q], lo, hi));
    }
    quads
}

fn area(lo: IVec3, hi: IVec3) -> i32 {
    let d = [hi.x - lo.x, hi.y - lo.y, hi.z - lo.z];
    d.iter().filter(|e| **e != 0).product()
}

fn check_mesh_shape(mesh: &ChunkSectionMesh) {
    assert_eq!(mesh.vertices.len(), mesh.normals.len());
    assert_eq!(mesh.vertices.len() % 4, 0);
    assert_eq!(mesh.indices.len(), mesh.vertices.len() / 4 * 6);
    for (i, index) in mesh.indices.iter().enumerate() {
        assert!((*index as usize) < mesh.vertices.len());
        let corner = [0, 1, 2, 0, 2, 3][i % 6];
        assert_eq!(*index as usize, 4 * (i / 6) + corner);
    }
    // each triangle winds counter-clockwise seen from where its normal points
    for t in 0..mesh.indices.len() / 3 {
        let a = mesh.vertices[mesh.indices[3 * t] as usize];
        let b = mesh.vertices[mesh.indices[3 * t + 1] as usize];
        let c = mesh.vertices[mesh.indices[3 * t + 2] as usize];
        let n = mesh.normals[mesh.indices[3 * t] as usize];
        let (ux, uy, uz) = (b.x - a.x, b.y - a.y, b.z - a.z);
        let (wx, wy, wz) = (c.x - a.x, c.y - a.y, c.z - a.z);
        let cross = (uy * wz - uz * wy, uz * wx - ux * wz, ux * wy - uy * wx);
        let dot = cross.0 * n.x + cross.1 * n.y + cross.2 * n.z;
        assert!(dot > 0);
        assert_eq!(cross.0 * cross.0 + cross.1 * cross.1 + cross.2 * cross.2, dot * dot);
    }
}

#[test]
fn greedy_plane_of_nothing() {
    assert_eq!(greedy_mesh_binary_plane([0u16; 16]), vec![]);
}

#[test]
fn greedy_plane_full() {
    assert_eq!(
        greedy_mesh_binary_plane([0xffffu16; 16]),
        vec![GreedyQuad { x: 0, y: 0, w: 16, h: 16 }]
    );
}

#[test]
fn greedy_plane_single_cells() {
    let mut data = [0u16; 16];
    data[0] = 1;
    assert_eq!(greedy_mesh_binary_plane(data), vec![GreedyQuad { x: 0, y: 0, w: 1, h: 1 }]);
    let mut data = [0u16; 16];
    data[15] = 0x8000;
    assert_eq!(greedy_mesh_binary_plane(data), vec![GreedyQuad { x: 15, y: 15, w: 1, h: 1 }]);
    let mut data = [0u16; 16];
    data[7] = 1 << 9;
    assert_eq!(greedy_mesh_binary_plane(data), vec![GreedyQuad { x: 7, y: 9, w: 1, h: 1 }]);
}

#[test]
fn greedy_plane_runs_in_one_row() {
    let mut data = [0u16; 16];
    data[2] = 0b1110_0000_0110_1101;
    assert_eq!(
        greedy_mesh_binary_plane(data),
        vec![
            GreedyQuad { x: 2, y: 0, w: 1, h: 1 },
            GreedyQuad { x: 2, y: 2, w: 1, h: 2 },
            GreedyQuad { x: 2, y: 5, w: 1, h: 2 },
            GreedyQuad { x: 2, y: 13, w: 1, h: 3 },
        ]
    );
}

#[test]
fn greedy_plane_extends_over_rows_and_clears_them() {
    let mut data = [0u16; 16];
    data[3] = 0b0110;
    data[4] = 0b1111;
    data[5] = 0b0110;
    data[6] = 0b0100;
    assert_eq!(
        greedy_mesh_binary_plane(data),
        vec![
            GreedyQuad { x: 3, y: 1, w: 3, h: 2 },
            GreedyQuad { x: 4, y: 0, w: 1, h: 1 },
            GreedyQuad { x: 4, y: 3, w: 1, h: 1 },
            GreedyQuad { x: 6, y: 2, w: 1, h: 1 },
        ]
    );
}

#[test]
fn greedy_plane_run_to_the_last_column() {
    let mut data = [0u16; 16];
    data[14] = 0xc000;
    data[15] = 0xe000;
    assert_eq!(
        greedy_mesh_binary_plane(data),
        vec![GreedyQuad { x: 14, y: 14, w: 2, h: 2 }, GreedyQuad { x: 15, y: 13, w: 1, h: 1 }]
    );
}

#[test]
fn greedy_plane_of_alternating_cells_has_one_quad_per_cell() {
    let mut data = [0u16; 16];
    for r in 0..16 {
        data[r] = if r % 2 == 0 { 0x5555 } else { 0xaaaa };
    }
    let quads = greedy_mesh_binary_plane(data);
    assert_eq!(quads.len(), 128);
    for q in &quads {
        assert_eq!((q.w, q.h), (1, 1));
        assert_eq!((q.x + q.y) % 2, 0);
    }
}

#[test]
fn greedy_plane_covers_each_cell_once() {
    // a fixed plane with an irregular pattern
    let mut data = [0u16; 16];
    let mut state: u32 = 12345;
    for r in 0..16 {
        state = state.wrapping_mul(1103515245).wrapping_add(12345);
        data[r] = (state >> 8) as u16 | ((state >> 20) as u16);
    }
    let quads = greedy_mesh_binary_plane(data);
    let mut seen = [0u16; 16];
    for q in &quads {
        assert!(q.w >= 1 && q.h >= 1 && q.x + q.w <= 16 && q.y + q.h <= 16);
        for r in q.x..q.x + q.w {
            for c in q.y..q.y + q.h {
                assert_eq!(seen[r as usize] & (1 << c), 0);
                seen[r as usize] |= 1 << c;
            }
        }
    }
    assert_eq!(seen, data);
}

#[test]
fn empty_section_has_no_mesh() {
    assert_eq!(generate_section_mesh(alone(ChunkSection::new())), None);
}

#[test]
fn isolated_voxel_has_six_quads() {
    let mut s = ChunkSection::new();
    s.set_by_xyz(3, 4, 5, Block(1));
    let mesh = generate_section_mesh(alone(s)).unwrap();
    check_mesh_shape(&mesh);
    assert_eq!(mesh.vertices.len(), 24);
    assert_eq!(mesh.indices.len(), 36);
    assert_eq!(
        mesh.vertices,
        vec![
            // down
            v(3, 4, 5), v(4, 4, 5), v(4, 4, 6), v(3, 4, 6),
            // up
            v(3, 5, 5), v(3, 5, 6), v(4, 5, 6), v(4, 5, 5),
            // left
            v(3, 4, 5), v(3, 4, 6), v(3, 5, 6), v(3, 5, 5),
            // right
            v(4, 4, 5), v(4, 5, 5), v(4, 5, 6), v(4, 4, 6),
            // forward
            v(3, 4, 5), v(3, 5, 5), v(4, 5, 5), v(4, 4, 5),
            // back
            v(3, 4, 6), v(4, 4, 6), v(4, 5, 6), v(3, 5, 6),
        ]
    );
    let unit = [v(0, -1, 0), v(0, 1, 0), v(-1, 0, 0), v(1, 0, 0), v(0, 0, -1), v(0, 0, 1)];
    for q in 0..6 {
        for corner in 0..4 {
            assert_eq!(mesh.normals[4 * q + corner], unit[q]);
        }
    }
    assert_eq!(
        mesh.indices,
        vec![
            0, 1, 2, 0, 2, 3, 4, 5, 6, 4, 6, 7, 8, 9, 10, 8, 10, 11, 12, 13, 14, 12, 14, 15, 16,
            17, 18, 16, 18, 19, 20, 21, 22, 20, 22, 23
        ]
    );
}

#[test]
fn isolated_voxel_anywhere_has_six_quads() {
    for (x, y, z) in [(0, 0, 0), (15, 15, 15), (0, 15, 0), (15, 0, 15), (8, 8, 8), (0, 7, 15)] {
        let mut s = ChunkSection::new();
        s.set_by_xyz(x, y, z, Block(0xffff));
        let mesh = generate_section_mesh(alone(s)).unwrap();
        check_mesh_shape(&mesh);
        let mut quads = quads_of(&mesh);
        assert_eq!(quads.len(), 6);
        let mut want = vec![
            (v(0, -1, 0), v(x, y, z), v(x + 1, y, z + 1)),
            (v(0, 1, 0), v(x, y + 1, z), v(x + 1, y + 1, z + 1)),
            (v(-1, 0, 0), v(x, y, z), v(x, y + 1, z + 1)),
            (v(1, 0, 0), v(x + 1, y, z), v(x + 1, y + 1, z + 1)),
            (v(0, 0, -1), v(x, y, z), v(x + 1, y + 1, z)),
            (v(0, 0, 1), v(x, y, z + 1), v(x + 1, y + 1, z + 1)),
        ];
        let key = |q: &(IVec3, IVec3, IVec3)| (q.0.x, q.0.y, q.0.z);
        quads.sort_by_key(key);
        want.sort_by_key(key);
        assert_eq!(quads, want);
    }
}

#[test]
fn slab_merges_into_six_quads() {
    let mut s = ChunkSection::new();
    for x in 0..16 {
        for z in 0..16 {
            s.set_by_xyz(x, 0, z, Block(1));
        }
    }
    let mesh = generate_section_mesh(alone(s)).unwrap();
    check_mesh_shape(&mesh);
    let quads = quads_of(&mesh);
    assert_eq!(
        quads,
        vec![
            (v(0, -1, 0), v(0, 0, 0), v(16, 0, 16)),
            (v(0, 1, 0), v(0, 1, 0), v(16, 1, 16)),
            (v(-1, 0, 0), v(0, 0, 0), v(0, 1, 16)),
            (v(1, 0, 0), v(16, 0, 0), v(16, 1, 16)),
            (v(0, 0, -1), v(0, 0, 0), v(16, 1, 0)),
            (v(0, 0, 1), v(0, 0, 16), v(16, 1, 16)),
        ]
    );
    assert_eq!(area(quads[0].1, quads[0].2), 256);
    assert_eq!(area(quads[1].1, quads[1].2), 256);
    for side in 2..6 {
        assert_eq!(area(quads[side].1, quads[side].2), 16);
    }
}

#[test]
fn full_section_alone_has_six_big_quads() {
    let mesh = generate_section_mesh(alone(filled(Block(2)))).unwrap();
    check_mesh_shape(&mesh);
    let quads = quads_of(&mesh);
    assert_eq!(quads.len(), 6);
    for (_, lo, hi) in quads {
        assert_eq!(area(lo, hi), 256);
    }
}

#[test]
fn enclosed_section_has_no_mesh() {
    let side = || Some(Arc::new(filled(Block(1))));
    let nb = SectionNeighbors {
        center: Arc::new(filled(Block(1))),
        up: side(),
        down: side(),
        north: side(),
        south: side(),
        east: side(),
        west: side(),
    };
    assert_eq!(generate_section_mesh(nb), None);
}

#[test]
fn each_neighbor_culls_its_own_side() {
    let sides = [
        ("up", v(0, 1, 0)),
        ("down", v(0, -1, 0)),
        ("north", v(0, 0, 1)),
        ("south", v(0, 0, -1)),
        ("east", v(1, 0, 0)),
        ("west", v(-1, 0, 0)),
    ];
    for (name, normal) in sides {
        let mut nb = alone(filled(Block(1)));
        let side = Some(Arc::new(filled(Block(3))));
        match name {
            "up" => nb.up = side,
            "down" => nb.down = side,
            "north" => nb.north = side,
            "south" => nb.south = side,
            "east" => nb.east = side,
            _ => nb.west = side,
        }
        let mesh = generate_section_mesh(nb).unwrap();
        check_mesh_shape(&mesh);
        let quads = quads_of(&mesh);
        assert_eq!(quads.len(), 5);
        for (n, _, _) in quads {
            assert_ne!(n, normal);
        }
    }
}

#[test]
fn neighbor_is_read_at_the_touching_layer() {
    // the section above is air but for one block in its lowest layer
    let mut above = ChunkSection::new();
    above.set_by_xyz(2, 0, 3, Block(1));
    above.set_by_xyz(5, 15, 5, Block(1));
    let mut nb = alone(filled(Block(1)));
    nb.up = Some(Arc::new(above));
    let mesh = generate_section_mesh(nb).unwrap();
    check_mesh_shape(&mesh);
    let mut covered = 0;
    for (n, lo, hi) in quads_of(&mesh) {
        if n == v(0, 1, 0) {
            assert_eq!((lo.y, hi.y), (16, 16));
            assert!(!(lo.x <= 2 && 2 < hi.x && lo.z <= 3 && 3 < hi.z));
            covered += area(lo, hi);
        }
    }
    assert_eq!(covered, 255);
}

#[test]
fn different_blocks_do_not_merge() {
    let mut s = ChunkSection::new();
    s.set_by_xyz(0, 0, 0, Block(1));
    s.set_by_xyz(1, 0, 0, Block(2));
    let mesh = generate_section_mesh(alone(s)).unwrap();
    check_mesh_shape(&mesh);
    let quads = quads_of(&mesh);
    // two tops, two bottoms, two fronts, two backs, and one face at each end
    assert_eq!(quads.len(), 10);
    for (_, lo, hi) in &quads {
        assert_eq!(area(*lo, *hi), 1);
    }
    // on each plane the lower block number comes first
    assert_eq!(quads[0], (v(0, -1, 0), v(0, 0, 0), v(1, 0, 1)));
    assert_eq!(quads[1], (v(0, -1, 0), v(1, 0, 0), v(2, 0, 1)));
}

#[test]
fn same_blocks_merge() {
    let mut s = ChunkSection::new();
    s.set_by_xyz(0, 0, 0, Block(2));
    s.set_by_xyz(1, 0, 0, Block(2));
    let mesh = generate_section_mesh(alone(s)).unwrap();
    check_mesh_shape(&mesh);
    assert_eq!(quads_of(&mesh).len(), 6);
}

#[test]
fn sphere_has_a_mesh_and_meshing_is_repeatable() {
    let mut chunk = Chunk::new();
    chunk.generate();
    let mut world_data: HashMap<u64, Arc<Chunk>> = HashMap::new();
    let pos = ChunkPos(IVec2::new(0, 0));
    world_data.insert(pos.key(), Arc::new(chunk));
    for section_y in 0..2 {
        let first = generate_section_mesh(SectionNeighbors::new(&world_data, pos, section_y)).unwrap();
        let again = generate_section_mesh(SectionNeighbors::new(&world_data, pos, section_y)).unwrap();
        check_mesh_shape(&first);
        assert!(first.vertices.len() > 0);
        assert_eq!(first, again);
        assert_eq!(first.vertices, again.vertices);
        assert_eq!(first.normals, again.normals);
        assert_eq!(first.indices, again.indices);
    }
}

#[test]
fn sphere_faces_are_those_of_its_surface() {
    let mut chunk = Chunk::new();
    chunk.generate();
    let section = chunk.sections[0].clone();
    let mesh = generate_section_mesh(SectionNeighbors {
        center: section.clone(),
        up: None,
        down: None,
        north: None,
        south: None,
        east: None,
        west: None,
    })
    .unwrap();
    check_mesh_shape(&mesh);
    // the area of the quads of each direction is the number of faces shown in it
    let steps = [v(0, -1, 0), v(0, 1, 0), v(-1, 0, 0), v(1, 0, 0), v(0, 0, -1), v(0, 0, 1)];
    for step in steps {
        let mut faces = 0;
        for x in 0..16 {
            for y in 0..16 {
                for z in 0..16 {
                    if section.get_by_xyz(x, y, z).is_solid()
                        && !section.get_by_xyz(x + step.x, y + step.y, z + step.z).is_solid()
                    {
                        faces += 1;
                    }
                }
            }
        }
        let covered: i32 =
            quads_of(&mesh).iter().filter(|q| q.0 == step).map(|q| area(q.1, q.2)).sum();
        assert_eq!(covered, faces);
        assert!(faces > 0);
    }
}

#[test]
fn adjacent_filled_chunks_cull_their_shared_boundary() {
    let full_chunk = || Chunk { sections: vec![Arc::new(filled(Block(1)))] };
    let a = ChunkPos(IVec2::new(0, 0));
    let b = ChunkPos(IVec2::new(1, 0));
    let mut world_data: HashMap<u64, Arc<Chunk>> = HashMap::new();
    world_data.insert(a.key(), Arc::new(full_chunk()));
    world_data.insert(b.key(), Arc::new(full_chunk()));
    let mesh_a = generate_section_mesh(SectionNeighbors::new(&world_data, a, 0)).unwrap();
    let mesh_b = generate_section_mesh(SectionNeighbors::new(&world_data, b, 0)).unwrap();
    check_mesh_shape(&mesh_a);
    check_mesh_shape(&mesh_b);
    assert_eq!(quads_of(&mesh_a).len(), 5);
    assert_eq!(quads_of(&mesh_b).len(), 5);
    for (n, _, _) in quads_of(&mesh_a) {
        assert_ne!(n, v(1, 0, 0));
    }
    for (n, _, _) in quads_of(&mesh_b) {
        assert_ne!(n, v(-1, 0, 0));
    }
}

#[test]
fn neighbors_are_taken_from_the_right_places() {
    let mark = |id: u16| {
        let mut s = ChunkSection::new();
        s.set_by_xyz(0, 0, 0, Block(id));
        Chunk { sections: vec![Arc::new(ChunkSection::new()), Arc::new(s), Arc::new(ChunkSection::new())] }
    };
    let mut world_data: HashMap<u64, Arc<Chunk>> = HashMap::new();
    let at = |x: i32, z: i32| ChunkPos(IVec2::new(x, z));
    let mut middle = mark(1);
    middle.set_by_xyz(0, 0, 0, Block(10));
    middle.set_by_xyz(0, 32, 0, Block(12));
    world_data.insert(at(5, 5).key(), Arc::new(middle));
    world_data.insert(at(5, 6).key(), Arc::new(mark(2)));
    world_data.insert(at(5, 4).key(), Arc::new(mark(3)));
    world_data.insert(at(6, 5).key(), Arc::new(mark(4)));
    world_data.insert(at(4, 5).key(), Arc::new(mark(5)));
    let nb = SectionNeighbors::new(&world_data, at(5, 5), 1);
    let first = |s: &Option<Arc<ChunkSection>>| s.as_ref().map(|s| s.get_by_xyz(0, 0, 0));
    assert_eq!(nb.center.get_by_xyz(0, 0, 0), Block(1));
    assert_eq!(first(&nb.down), Some(Block(10)));
    assert_eq!(first(&nb.up), Some(Block(12)));
    assert_eq!(first(&nb.north), Some(Block(2)));
    assert_eq!(first(&nb.south), Some(Block(3)));
    assert_eq!(first(&nb.east), Some(Block(4)));
    assert_eq!(first(&nb.west), Some(Block(5)));
    // at the bottom, the top and the edge of what is resident, neighbours are absent
    let bottom = SectionNeighbors::new(&world_data, at(5, 6), 0);
    assert!(bottom.down.is_none());
    assert!(bottom.up.is_some());
    assert!(bottom.north.is_none());
    assert!(bottom.south.is_some());
    assert!(bottom.east.is_none());
    assert!(bottom.west.is_none());
    let top = SectionNeighbors::new(&world_data, at(5, 5), 2);
    assert!(top.up.is_none());
    assert!(top.down.is_some());
}

#[test]
fn quad_corners_and_normals() {
    let q = GreedyQuad { x: 1, y: 2, w: 3, h: 4 };
    let mut vertices = vec![v(9, 9, 9)];
    let mut normals = vec![];
    q.append_vertices(&mut vertices, &mut normals, Direction::Down, 7);
    q.append_vertices(&mut vertices, &mut normals, Direction::Right, 7);
    assert_eq!(
        vertices,
        vec![
            v(9, 9, 9),
            v(1, 7, 2), v(4, 7, 2), v(4, 7, 6), v(1, 7, 6),
            v(8, 2, 1), v(8, 6, 1), v(8, 6, 4), v(8, 2, 4),
        ]
    );
    assert_eq!(
        normals,
        vec![
            v(0, -1, 0), v(0, -1, 0), v(0, -1, 0), v(0, -1, 0),
            v(1, 0, 0), v(1, 0, 0), v(1, 0, 0), v(1, 0, 0),
        ]
    );
}

#[test]
fn directions() {
    let all = [
        (Direction::Left, v(-1, 0, 0), false, v(5, 2, 1)),
        (Direction::Right, v(1, 0, 0), true, v(5, 2, 1)),
        (Direction::Down, v(0, -1, 0), false, v(1, 5, 2)),
        (Direction::Up, v(0, 1, 0), true, v(1, 5, 2)),
        (Direction::Back, v(0, 0, 1), false, v(1, 2, 5)),
        (Direction::Forward, v(0, 0, -1), true, v(1, 2, 5)),
    ];
    for (dir, normal, reverse, sample) in all {
        assert_eq!(dir.normals(), normal);
        assert_eq!(dir.should_reverse(), reverse);
        assert_eq!(dir.world_to_sample(5, 1, 2), sample);
    }
}

#[test]
fn mesh_constructor_keeps_its_parts() {
    let mesh = ChunkSectionMesh::new(vec![v(1, 2, 3)], vec![v(0, 1, 0)], vec![0, 0, 0]);
    assert_eq!(mesh.vertices, vec![v(1, 2, 3)]);
    assert_eq!(mesh.normals, vec![v(0, 1, 0)]);
    assert_eq!(mesh.indices, vec![0, 0, 0]);
    let none = ChunkSectionMesh::default();
    assert!(none.vertices.is_empty() && none.normals.is_empty() && none.indices.is_empty());
}

#[test]
fn neighbors_share_the_sections_of_the_chunks() {
    let mut chunk = Chunk::new();
    chunk.generate();
    let pos = ChunkPos(IVec2::new(0, 0));
    let mut world_data: HashMap<u64, Arc<Chunk>> = HashMap::new();
    world_data.insert(pos.key(), Arc::new(chunk));
    let held = Arc::strong_count(&world_data[&pos.key()].sections[0]);
    let nb = SectionNeighbors::new(&world_data, pos, 0);
    let sections = &world_data[&pos.key()].sections;
    assert!(Arc::ptr_eq(&nb.center, &sections[0]));
    assert!(Arc::ptr_eq(nb.up.as_ref().unwrap(), &sections[1]));
    assert_eq!(Arc::strong_count(&sections[0]), held + 1);
    assert_eq!(Arc::strong_count(&sections[1]), held + 1);
}
