use boxel::chunk::ChunkPos;
use boxel::chunk_loader::{get_chunks_in_radius, ChunkLoader, ChunkLoaderPlugin};
use boxel::math::{IVec2, IVec3};
use boxel::world::World;

fn at(x: i32, z: i32) -> ChunkPos {
    ChunkPos(IVec2::new(x, z))
}

#[test]
fn radius_two_has_thirteen_chunks_nearest_first() {
    let chunks = get_chunks_in_radius(at(0, 0), 2);
    assert_eq!(
        chunks,
        vec![
            at(0, 0),
            at(-1, 0), at(0, -1), at(0, 1), at(1, 0),
            at(-1, -1), at(-1, 1), at(1, -1), at(1, 1),
            at(-2, 0), at(0, -2), at(0, 2), at(2, 0),
        ]
    );
}

#[test]
fn radius_zero_and_below() {
    assert_eq!(get_chunks_in_radius(at(3, -4), 0), vec![at(3, -4)]);
    assert_eq!(get_chunks_in_radius(at(3, -4), -1), vec![]);
    assert_eq!(get_chunks_in_radius(at(3, -4), i32::MIN), vec![]);
}

#[test]
fn radius_is_euclidean_and_moves_with_the_centre() {
    for (cx, cz, radius) in [(0, 0, 1), (7, -3, 3), (-100, 250, 6)] {
        let chunks = get_chunks_in_radius(at(cx, cz), radius);
        let mut count = 0;
        for x in -radius - 1..=radius + 1 {
            for z in -radius - 1..=radius + 1 {
                let inside = x * x + z * z <= radius * radius;
                assert_eq!(chunks.contains(&at(cx + x, cz + z)), inside);
                if inside {
                    count += 1;
                }
            }
        }
        assert_eq!(chunks.len(), count);
        for pair in chunks.windows(2) {
            let d = |p: &ChunkPos| p.0.distance_squared(IVec2::new(cx, cz));
            assert!(
                d(&pair[0]) < d(&pair[1])
                    || (d(&pair[0]) == d(&pair[1])
                        && (pair[0].0.x, pair[0].0.y) < (pair[1].0.x, pair[1].0.y))
            );
        }
    }
    assert_eq!(get_chunks_in_radius(at(0, 0), 1).len(), 5);
    assert_eq!(get_chunks_in_radius(at(0, 0), 6).len(), 113);
}

#[test]
fn radius_at_the_edge_of_the_world() {
    let chunks = get_chunks_in_radius(at(i32::MAX, i32::MIN), 1);
    assert_eq!(chunks, vec![at(i32::MAX, i32::MIN), at(i32::MAX - 1, i32::MIN), at(i32::MAX, i32::MIN + 1)]);
}

#[test]
fn new_loader_has_been_nowhere_near() {
    let loader = ChunkLoader::new(6);
    assert_eq!(loader.distance, 6);
    assert_eq!(loader.distance(), 6);
    assert_eq!(loader.previous_chunk(), IVec3::new(9999, 9999, 9999));
}

#[test]
fn first_look_asks_for_everything_in_reach() {
    let mut world = World::new();
    let mut loader = ChunkLoader::new(2);
    let (loads, unloads) = ChunkLoaderPlugin::update_chunks(&mut loader, IVec3::new(0, 0, 0), &mut world);
    assert_eq!(loads, get_chunks_in_radius(at(0, 0), 2));
    assert_eq!(unloads, get_chunks_in_radius(at(9999, 9999), 2));
    assert_eq!(loader.previous_chunk(), IVec3::new(0, 0, 0));
    // what was asked for is queued once, and nothing that was never there is queued to go
    let started = boxel::world::WorldPlugin::start_data_tasks(&mut world);
    assert_eq!(started, loads);
}

#[test]
fn staying_put_asks_for_nothing() {
    let mut world = World::new();
    let mut loader = ChunkLoader::new(2);
    ChunkLoaderPlugin::update_chunks(&mut loader, IVec3::new(4, 1, -2), &mut world);
    boxel::world::WorldPlugin::start_data_tasks(&mut world);
    let (loads, unloads) = ChunkLoaderPlugin::update_chunks(&mut loader, IVec3::new(4, 1, -2), &mut world);
    assert_eq!(loads, vec![]);
    assert_eq!(unloads, vec![]);
    assert_eq!(boxel::world::WorldPlugin::start_data_tasks(&mut world), vec![]);
}

#[test]
fn moving_up_or_down_asks_for_nothing() {
    let mut world = World::new();
    let mut loader = ChunkLoader::new(2);
    ChunkLoaderPlugin::update_chunks(&mut loader, IVec3::new(0, 0, 0), &mut world);
    let (loads, unloads) = ChunkLoaderPlugin::update_chunks(&mut loader, IVec3::new(0, 3, 0), &mut world);
    assert_eq!(loads, vec![]);
    assert_eq!(unloads, vec![]);
    assert_eq!(loader.previous_chunk(), IVec3::new(0, 3, 0));
}

#[test]
fn one_step_east_with_radius_two() {
    let mut world = World::new();
    let mut loader = ChunkLoader::new(2);
    ChunkLoaderPlugin::update_chunks(&mut loader, IVec3::new(0, 0, 0), &mut world);
    let (loads, unloads) = ChunkLoaderPlugin::update_chunks(&mut loader, IVec3::new(1, 0, 0), &mut world);
    // one chunk enters and one leaves in each of the five rows of the disc
    assert_eq!(loads, vec![at(2, -1), at(2, 1), at(1, -2), at(1, 2), at(3, 0)]);
    assert_eq!(unloads, vec![at(-1, -1), at(-1, 1), at(-2, 0), at(0, -2), at(0, 2)]);
    let desired = get_chunks_in_radius(at(1, 0), 2);
    let previous = get_chunks_in_radius(at(0, 0), 2);
    let kept: Vec<&ChunkPos> = desired.iter().filter(|p| previous.contains(p)).collect();
    assert_eq!(kept.len(), 8);
    for pos in kept {
        assert!(!loads.contains(pos) && !unloads.contains(pos));
    }
    for pos in &desired {
        assert_eq!(loads.contains(pos), !previous.contains(pos));
    }
    for pos in &previous {
        assert_eq!(unloads.contains(pos), !desired.contains(pos));
    }
}

#[test]
fn one_step_east_with_radius_one() {
    let mut world = World::new();
    let mut loader = ChunkLoader::new(1);
    ChunkLoaderPlugin::update_chunks(&mut loader, IVec3::new(0, 0, 0), &mut world);
    let (loads, unloads) = ChunkLoaderPlugin::update_chunks(&mut loader, IVec3::new(1, 0, 0), &mut world);
    assert_eq!(loads, vec![at(1, -1), at(1, 1), at(2, 0)]);
    // those given up come in the order in which they were wanted around the old chunk
    assert_eq!(unloads, vec![at(-1, 0), at(0, -1), at(0, 1)]);
}

#[test]
fn a_far_jump_swaps_everything() {
    let mut world = World::new();
    let mut loader = ChunkLoader::new(2);
    ChunkLoaderPlugin::update_chunks(&mut loader, IVec3::new(0, 0, 0), &mut world);
    let (loads, unloads) = ChunkLoaderPlugin::update_chunks(&mut loader, IVec3::new(50, 0, 50), &mut world);
    assert_eq!(loads, get_chunks_in_radius(at(50, 50), 2));
    assert_eq!(unloads, get_chunks_in_radius(at(0, 0), 2));
}

#[test]
fn chunk_of_rounds_down() {
    let cases = [
        (0, 0),
        (15, 0),
        (16, 1),
        (31, 1),
        (32, 2),
        (-1, -1),
        (-16, -1),
        (-17, -2),
        (-32, -2),
        (-33, -3),
        (i32::MAX, 134217727),
        (i32::MIN, -134217728),
    ];
    for (voxel, chunk) in cases {
        assert_eq!(ChunkLoaderPlugin::chunk_of(IVec3::new(voxel, 0, 0)), IVec3::new(chunk, 0, 0));
        assert_eq!(ChunkLoaderPlugin::chunk_of(IVec3::new(0, voxel, 0)), IVec3::new(0, chunk, 0));
        assert_eq!(ChunkLoaderPlugin::chunk_of(IVec3::new(0, 0, voxel)), IVec3::new(0, 0, chunk));
    }
    assert_eq!(ChunkLoaderPlugin::chunk_of(IVec3::new(16, 0, 0)), IVec3::new(1, 0, 0));
}
