//! Streaming of a voxel world around moving observers.
//!
//! The world is cut into chunks, columns of sections of 16×16×16 voxels
//! ([`chunk`], [`block`]). An observer wants the chunks around it resident
//! ([`chunk_loader`]). The resident set ([`world`]) decides which chunks
//! hold data and which sections hold a surface mesh, hands out the work of
//! generating and meshing, and takes the results back; [`pipeline`] states
//! what holds of it over rounds. The binary greedy mesher
//! ([`greedy_mesher`]) turns a section and its six neighbours
//! ([`section_neighbors`]) into quads ([`quad`]) and a mesh
//! ([`chunk_mesh`]).
//!
//! Positions and meshes are in whole numbers throughout. Running the work
//! on a pool, and showing the meshes, is left to the caller.

pub mod bits;
pub mod block;
pub mod chunk;
pub mod chunk_loader;
pub mod chunk_mesh;
pub mod chunk_render_plugin;
pub mod debug_world;
pub mod greedy_mesher;
pub mod math;
pub mod pipeline;
pub mod quad;
pub mod section_neighbors;
pub mod world;
