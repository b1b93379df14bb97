use boxel::block::Block;
use boxel::chunk::{Chunk, ChunkSection};
use boxel::chunk_render_plugin::ChunkRenderPlugin;
use boxel::math::IVec3;
use std::sync::Arc;

fn v(x: i32, y: i32, z: i32) -> IVec3 {
    IVec3::new(x, y, z)
}

fn chunk_of(sections: Vec<ChunkSection>) -> Chunk {
    Chunk { sections: sections.into_iter().map(Arc::new).collect() }
}

#[test]
fn add_face_appends_each_face() {
    let corners = [
        [v(1, 3, 3), v(1, 3, 4), v(2, 3, 4), v(2, 3, 3)],
        [v(1, 2, 3), v(2, 2, 3), v(2, 2, 4), v(1, 2, 4)],
        [v(1, 2, 3), v(1, 2, 4), v(1, 3, 4), v(1, 3, 3)],
        [v(2, 2, 4), v(2, 2, 3), v(2, 3, 3), v(2, 3, 4)],
        [v(1, 2, 4), v(2, 2, 4), v(2, 3, 4), v(1, 3, 4)],
        [v(2, 2, 3), v(1, 2, 3), v(1, 3, 3), v(2, 3, 3)],
    ];
    let normal = [v(0, 1, 0), v(0, -1, 0), v(-1, 0, 0), v(1, 0, 0), v(0, 0, 1), v(0, 0, -1)];
    let mut vertices = vec![];
    let mut normals = vec![];
    let mut indices = vec![];
    for face in 0..6usize {
        ChunkRenderPlugin::add_face(v(1, 2, 3), face as i32, &mut vertices, &mut normals, &mut indices);
        assert_eq!(vertices[4 * face..], corners[face]);
        assert_eq!(normals[4 * face..], [normal[face]; 4]);
        let base = 4 * face as u32;
        assert_eq!(indices[6 * face..], [base, base + 1, base + 2, base, base + 2, base + 3]);
    }
    assert_eq!(vertices.len(), 24);
}

#[test]
fn plain_mesh_of_nothing() {
    let mesh = ChunkRenderPlugin::generate_chunk_mesh(&Chunk::new());
    assert!(mesh.vertices.is_empty() && mesh.normals.is_empty() && mesh.indices.is_empty());
    let mesh = ChunkRenderPlugin::generate_chunk_mesh(&chunk_of(vec![ChunkSection::new()]));
    assert!(mesh.vertices.is_empty() && mesh.normals.is_empty() && mesh.indices.is_empty());
}

#[test]
fn plain_mesh_of_one_voxel() {
    let mut s = ChunkSection::new();
    s.set_by_xyz(1, 2, 3, Block(4));
    let mesh = ChunkRenderPlugin::generate_chunk_mesh(&chunk_of(vec![s]));
    assert_eq!(
        mesh.vertices,
        vec![
            v(1, 3, 3), v(1, 3, 4), v(2, 3, 4), v(2, 3, 3),
            v(1, 2, 3), v(2, 2, 3), v(2, 2, 4), v(1, 2, 4),
            v(1, 2, 3), v(1, 2, 4), v(1, 3, 4), v(1, 3, 3),
            v(2, 2, 4), v(2, 2, 3), v(2, 3, 3), v(2, 3, 4),
            v(1, 2, 4), v(2, 2, 4), v(2, 3, 4), v(1, 3, 4),
            v(2, 2, 3), v(1, 2, 3), v(1, 3, 3), v(2, 3, 3),
        ]
    );
    assert_eq!(mesh.normals.len(), 24);
    assert_eq!(mesh.normals[0], v(0, 1, 0));
    assert_eq!(mesh.normals[23], v(0, 0, -1));
    assert_eq!(mesh.indices.len(), 36);
    assert_eq!(mesh.indices[30..], [20, 21, 22, 20, 22, 23]);
}

#[test]
fn plain_mesh_does_not_merge_and_culls_between_voxels() {
    let mut s = ChunkSection::new();
    s.set_by_xyz(0, 0, 0, Block(1));
    s.set_by_xyz(0, 0, 1, Block(1));
    let mesh = ChunkRenderPlugin::generate_chunk_mesh(&chunk_of(vec![s]));
    // five faces each: the two faces between the voxels are not shown
    assert_eq!(mesh.vertices.len(), 40);
    assert_eq!(mesh.indices.len(), 60);
    // the first voxel shows no front, the second no back
    assert_eq!(mesh.normals[16], v(0, 0, -1));
    assert_eq!(mesh.normals[36], v(0, 0, 1));
    for index in &mesh.indices {
        assert!((*index as usize) < mesh.vertices.len());
    }
}

#[test]
fn plain_mesh_counts_the_faces_of_the_sphere() {
    let mut chunk = Chunk::new();
    chunk.generate();
    let mesh = ChunkRenderPlugin::generate_chunk_mesh(&chunk);
    let steps = [(0, 1, 0), (0, -1, 0), (-1, 0, 0), (1, 0, 0), (0, 0, 1), (0, 0, -1)];
    let mut faces = 0;
    for x in 0..16 {
        for y in 0..16 {
            for z in 0..16 {
                for (dx, dy, dz) in steps {
                    if chunk.get_by_xyz(x, y, z) != Block(0)
                        && chunk.get_by_xyz(x + dx, y + dy, z + dz) == Block(0)
                    {
                        faces += 1;
                    }
                }
            }
        }
    }
    assert!(faces > 0);
    assert_eq!(mesh.vertices.len(), 4 * faces);
    assert_eq!(mesh.normals.len(), 4 * faces);
    assert_eq!(mesh.indices.len(), 6 * faces);
}

#[test]
fn plain_mesh_sees_the_section_above() {
    let mut low = ChunkSection::new();
    low.set_by_xyz(5, 15, 5, Block(1));
    let mut high = ChunkSection::new();
    high.set_by_xyz(5, 0, 5, Block(1));
    let alone = ChunkRenderPlugin::generate_chunk_mesh(&chunk_of(vec![low.clone()]));
    let below = ChunkRenderPlugin::generate_chunk_mesh(&chunk_of(vec![low, high]));
    assert_eq!(alone.vertices.len(), 24);
    assert_eq!(below.vertices.len(), 20);
    assert!(!below.normals.contains(&v(0, 1, 0)));
}
