use boxel::chunk::ChunkPos;
use boxel::debug_world::{DebugWorldPlugin, WorldStats, DEFAULT_SAMPLE_SIZE};
use boxel::math::IVec2;
use boxel::world::{World, WorldPlugin};

fn at(x: i32, z: i32) -> ChunkPos {
    ChunkPos(IVec2::new(x, z))
}

#[test]
fn stats_of_an_empty_world() {
    let world = World::new();
    let mut stats = WorldStats::default();
    assert_eq!(stats.sample_size, 0);
    DebugWorldPlugin::update_world_stats(&world, &mut stats);
    assert_eq!(DEFAULT_SAMPLE_SIZE, 10);
    assert_eq!(stats.sample_size, 10);
    assert_eq!(stats.loaded_chunks, 0);
    assert_eq!(stats.data_to_load, 0);
    assert_eq!(stats.data_to_unload, 0);
    assert_eq!(stats.mesh_to_load, 0);
    assert_eq!(stats.mesh_to_unload, 0);
    assert_eq!(stats.active_data_tasks, 0);
    assert_eq!(stats.active_mesh_tasks, 0);
    assert!(stats.loaded_chunk_positions.is_empty());
    assert!(stats.data_load_queue.is_empty());
    assert!(stats.mesh_load_queue.is_empty());
}

#[test]
fn stats_follow_a_chunk_through_the_pipeline() {
    let mut world = World::new();
    let mut stats = WorldStats::default();
    stats.sample_size = 3;
    for x in 0..5 {
        world.load_chunk(at(x, 7));
    }
    DebugWorldPlugin::update_world_stats(&world, &mut stats);
    assert_eq!(stats.sample_size, 3);
    assert_eq!((stats.data_to_load, stats.active_data_tasks, stats.loaded_chunks), (5, 0, 0));

    let started = WorldPlugin::start_data_tasks(&mut world);
    DebugWorldPlugin::update_world_stats(&world, &mut stats);
    assert_eq!((stats.data_to_load, stats.active_data_tasks, stats.loaded_chunks), (0, 5, 0));

    let done = started.iter().map(|p| (*p, WorldPlugin::generate_chunk_at(*p))).collect();
    WorldPlugin::join_data_tasks(&mut world, done);
    DebugWorldPlugin::update_world_stats(&world, &mut stats);
    assert_eq!((stats.active_data_tasks, stats.loaded_chunks, stats.mesh_to_load), (0, 5, 5));
    assert_eq!(stats.mesh_load_queue, vec![(0, 7), (1, 7), (2, 7)]);
    assert_eq!(stats.loaded_chunk_positions.len(), 3);
    for (i, column) in stats.loaded_chunk_positions.iter().enumerate() {
        assert!(world.is_loaded(at(column.0, column.1)));
        assert!(!stats.loaded_chunk_positions[..i].contains(column));
    }

    let jobs = WorldPlugin::start_mesh_tasks(&mut world);
    assert_eq!(jobs.len(), 10);
    DebugWorldPlugin::update_world_stats(&world, &mut stats);
    assert_eq!((stats.mesh_to_load, stats.active_mesh_tasks), (0, 10));

    world.unload_chunk(at(4, 7));
    world.unload_chunk(at(3, 7));
    world.unload_chunk(at(9, 9));
    DebugWorldPlugin::update_world_stats(&world, &mut stats);
    assert_eq!(stats.data_to_unload, 2);
    assert_eq!(stats.data_load_queue, vec![(4, 7), (3, 7)]);

    WorldPlugin::unload_data(&mut world);
    DebugWorldPlugin::update_world_stats(&world, &mut stats);
    assert_eq!((stats.data_to_unload, stats.loaded_chunks, stats.mesh_to_unload), (0, 3, 2));
    assert_eq!(stats.active_mesh_tasks, 6);
    assert_eq!(stats.loaded_chunk_positions.len(), 3);

    assert_eq!(WorldPlugin::unload_meshes(&mut world), vec![]);
    DebugWorldPlugin::update_world_stats(&world, &mut stats);
    assert_eq!(stats.mesh_to_unload, 0);
}

#[test]
fn a_large_sample_takes_everything() {
    let mut world = World::new();
    for x in 0..4 {
        world.load_chunk(at(x, -x));
        world.unload_chunk(at(x, -x));
    }
    let mut stats = WorldStats::default();
    stats.sample_size = 100;
    DebugWorldPlugin::update_world_stats(&world, &mut stats);
    assert_eq!(stats.data_load_queue, vec![(0, 0), (1, -1), (2, -2), (3, -3)]);
    assert_eq!(world.data_to_load_len(), 4);
    assert_eq!(world.data_to_unload_len(), 4);
    assert_eq!(world.mesh_to_load_len(), 0);
    assert_eq!(world.mesh_to_unload_len(), 0);
    assert_eq!(world.loaded_count(), 0);
    assert_eq!(world.data_task_count(), 0);
    assert_eq!(world.mesh_task_count(), 0);
    assert_eq!(world.loaded_columns(5), vec![]);
    assert_eq!(world.data_to_unload_columns(2), vec![(0, 0), (1, -1)]);
    assert_eq!(world.mesh_to_load_columns(2), vec![]);
}
