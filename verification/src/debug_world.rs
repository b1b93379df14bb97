//! A snapshot of the resident set in numbers, for a debug display.

use crate::chunk::ChunkPos;
use crate::math::IVec2;
use crate::world::{first_columns, World};
use vstd::prelude::*;

verus! {

/// How many samples of each list a snapshot takes where none is asked for.
pub const DEFAULT_SAMPLE_SIZE: usize = 10;

/// Counts and samples of the resident set. Columns are pairs of x and z.
#[derive(Debug)]
pub struct WorldStats {
    /// The number of resident chunks.
    pub loaded_chunks: usize,
    /// The length of the queue of chunks to generate.
    pub data_to_load: usize,
    /// The length of the queue of chunks to drop.
    pub data_to_unload: usize,
    /// The length of the queue of chunks to mesh.
    pub mesh_to_load: usize,
    /// The length of the queue of meshes to take down.
    pub mesh_to_unload: usize,
    /// The number of chunks that are being generated.
    pub active_data_tasks: usize,
    /// The number of sections that are being meshed.
    pub active_mesh_tasks: usize,
    /// How many samples of each list to take.
    pub sample_size: usize,
    /// The columns of some resident chunks.
    pub loaded_chunk_positions: Vec<(i32, i32)>,
    /// The columns of the first chunks that are queued to be dropped.
    pub data_load_queue: Vec<(i32, i32)>,
    /// The columns of the first chunks that are queued to be meshed.
    pub mesh_load_queue: Vec<(i32, i32)>,
}

impl Default for WorldStats {
    /// A snapshot of nothing, with no sample size set.
    fn default() -> (stats: Self)
        ensures
            stats.loaded_chunks == 0,
            stats.data_to_load == 0,
            stats.data_to_unload == 0,
            stats.mesh_to_load == 0,
            stats.mesh_to_unload == 0,
            stats.active_data_tasks == 0,
            stats.active_mesh_tasks == 0,
            stats.sample_size == 0,
            stats.loaded_chunk_positions@.len() == 0,
            stats.data_load_queue@.len() == 0,
            stats.mesh_load_queue@.len() == 0,
    {
        WorldStats {
            loaded_chunks: 0,
            data_to_load: 0,
            data_to_unload: 0,
            mesh_to_load: 0,
            mesh_to_unload: 0,
            active_data_tasks: 0,
            active_mesh_tasks: 0,
            sample_size: 0,
            loaded_chunk_positions: Vec::new(),
            data_load_queue: Vec::new(),
            mesh_load_queue: Vec::new(),
        }
    }
}

/// The step that takes the snapshot.
pub struct DebugWorldPlugin;

impl DebugWorldPlugin {
    /// Takes a snapshot of the resident set. A sample size of zero is set
    /// to ten first. Each list then holds up to that many columns: of the
    /// resident chunks some, no column twice; of the two queues the first.
    pub fn update_world_stats(world: &World, stats: &mut WorldStats)
        ensures
            final(stats).sample_size == if old(stats).sample_size == 0 {
                DEFAULT_SAMPLE_SIZE
            } else {
                old(stats).sample_size
            },
            world@.loaded_chunks.dom().finite(),
            world@.data_tasks.finite(),
            final(stats).loaded_chunks == world@.loaded_chunks.dom().len(),
            final(stats).data_to_load == world@.data_to_load.len(),
            final(stats).data_to_unload == world@.data_to_unload.len(),
            final(stats).mesh_to_load == world@.mesh_to_load.len(),
            final(stats).mesh_to_unload == world@.mesh_to_unload.len(),
            final(stats).active_data_tasks == world@.data_tasks.len(),
            world.wf() ==> world@.mesh_tasks.finite() && final(stats).active_mesh_tasks
                == world@.mesh_tasks.len(),
            final(stats).loaded_chunk_positions@.len() == if world@.loaded_chunks.dom().len()
                <= final(stats).sample_size {
                world@.loaded_chunks.dom().len()
            } else {
                final(stats).sample_size as nat
            },
            final(stats).loaded_chunk_positions@.no_duplicates(),
            forall|i: int|
                0 <= i < final(stats).loaded_chunk_positions@.len()
                    ==> world@.loaded_chunks.contains_key(
                    ChunkPos(
                        IVec2 {
                            x: (#[trigger] final(stats).loaded_chunk_positions@[i]).0,
                            y: final(stats).loaded_chunk_positions@[i].1,
                        },
                    ),
                ),
            final(stats).data_load_queue@ == first_columns(
                world@.data_to_unload,
                final(stats).sample_size as int,
            ),
            final(stats).mesh_load_queue@ == first_columns(
                world@.mesh_to_load,
                final(stats).sample_size as int,
            ),
    {
        stats.loaded_chunks = world.loaded_count();
        stats.data_to_load = world.data_to_load_len();
        stats.data_to_unload = world.data_to_unload_len();
        stats.mesh_to_load = world.mesh_to_load_len();
        stats.mesh_to_unload = world.mesh_to_unload_len();
        stats.active_data_tasks = world.data_task_count();
        stats.active_mesh_tasks = world.mesh_task_count();

        if stats.sample_size == 0 {
            stats.sample_size = DEFAULT_SAMPLE_SIZE;
        }
        let limit = stats.sample_size;

        stats.loaded_chunk_positions = world.loaded_columns(limit);
        stats.data_load_queue = world.data_to_unload_columns(limit);
        stats.mesh_load_queue = world.mesh_to_load_columns(limit);
    }
}

} // verus!
