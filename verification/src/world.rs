//! The resident set: which chunks hold data, which sections hold a mesh,
//! and the queues and registries through which a chunk moves between
//! absent, resident and rendered.
//!
//! The work itself — generating a chunk, meshing a section, showing a mesh
//! — is done by the caller. The resident set decides what work starts,
//! takes the results when they are done, and keeps its own state
//! consistent whatever comes back and whenever.

use crate::block::Block;
use crate::chunk::{sphere_section, Chunk, ChunkPos};
use crate::chunk_mesh::ChunkSectionMesh;
use crate::math::IVec2;
use crate::section_neighbors::{neighbors_at, NeighborsView, SectionNeighbors};
use std::collections::{HashMap, HashSet};
use std::sync::Arc;
use vstd::prelude::*;
use vstd::std_specs::iter::IteratorSpec;

verus! {

broadcast use vstd::std_specs::hash::group_hash_axioms;

/// The number that stands for section `section_y` of the chunk at `pos` in
/// hashed collections. Different sections have different keys.
spec fn section_key(pos: ChunkPos, section_y: usize) -> u128 {
    (pos.spec_key() as int * 0x1_0000_0000_0000_0000 + section_y as int) as u128
}

/// Whether a key stands for a section: whether its lower half is a number
/// of a section.
spec fn valid_section_key(k: u128) -> bool {
    k % 0x1_0000_0000_0000_0000 <= usize::MAX
}

/// The section that a key stands for.
spec fn section_of_key(k: u128) -> (ChunkPos, usize) {
    (
        ChunkPos::spec_from_key((k / 0x1_0000_0000_0000_0000) as u64),
        (k % 0x1_0000_0000_0000_0000) as usize,
    )
}

/// Sections and the keys that stand for them correspond one to one.
proof fn lemma_section_key_round_trip(pos: ChunkPos, section_y: usize, k: u128)
    ensures
        valid_section_key(section_key(pos, section_y)),
        section_of_key(section_key(pos, section_y)) == (pos, section_y),
        valid_section_key(k) ==> section_key(section_of_key(k).0, section_of_key(k).1) == k,
{
}

/// Different sections have different keys.
proof fn lemma_section_key_injective(a: ChunkPos, ay: usize, b: ChunkPos, by: usize)
    ensures
        section_key(a, ay) == section_key(b, by) <==> (a == b && ay == by),
{
}

/// The number that stands for a section in hashed collections.
fn section_key_of(pos: ChunkPos, section_y: usize) -> (k: u128)
    ensures
        k == section_key(pos, section_y),
{
    (pos.key() as u128) * 0x1_0000_0000_0000_0000 + (section_y as u128)
}

/// Whether a queue of chunks whose meshes are to be taken down, each with
/// its number of sections, holds `pos` with more than `section_y`
/// sections.
pub open spec fn queue_covers(queue: Seq<(ChunkPos, usize)>, pos: ChunkPos, section_y: usize) -> bool {
    exists|i: int|
        0 <= i < queue.len() && (#[trigger] queue[i]).0 == pos && section_y < queue[i].1
}

/// What a queue covers after one more entry.
proof fn lemma_queue_covers_push(
    queue: Seq<(ChunkPos, usize)>,
    entry: (ChunkPos, usize),
    pos: ChunkPos,
    section_y: usize,
)
    ensures
        queue_covers(queue.push(entry), pos, section_y) == (queue_covers(queue, pos, section_y) || (
        entry.0 == pos && section_y < entry.1)),
        !queue_covers(Seq::empty(), pos, section_y),
{
    let more = queue.push(entry);
    if queue_covers(queue, pos, section_y) {
        let i = choose|i: int|
            0 <= i < queue.len() && (#[trigger] queue[i]).0 == pos && section_y < queue[i].1;
        assert(more[i] == queue[i]);
    }
    if entry.0 == pos && section_y < entry.1 {
        assert(more[queue.len() as int] == entry);
    }
    if queue_covers(more, pos, section_y) {
        let i = choose|i: int|
            0 <= i < more.len() && (#[trigger] more[i]).0 == pos && section_y < more[i].1;
        if i < queue.len() {
            assert(queue[i] == more[i]);
        }
    }
}

/// The resident set as plain values.
pub struct WorldView {
    /// The chunks that hold data, each as the blocks of its sections.
    pub loaded_chunks: Map<ChunkPos, Seq<Seq<Block>>>,
    /// The chunks whose data is to be generated, oldest request first.
    pub data_to_load: Seq<ChunkPos>,
    /// The chunks whose data is to be dropped.
    pub data_to_unload: Seq<ChunkPos>,
    /// The chunks whose sections are to be meshed.
    pub mesh_to_load: Seq<ChunkPos>,
    /// The chunks whose meshes are to be taken down, each with the number
    /// of sections it had.
    pub mesh_to_unload: Seq<(ChunkPos, usize)>,
    /// The chunks whose data is being generated.
    pub data_tasks: Set<ChunkPos>,
    /// The sections that are being meshed.
    pub mesh_tasks: Set<(ChunkPos, usize)>,
    /// The sections that are shown, each with the handle of what shows it.
    pub section_entities: Map<(ChunkPos, usize), u64>,
}

impl WorldView {
    /// Whether `pos` holds data with a section `section_y`.
    pub open spec fn has_section(self, pos: ChunkPos, section_y: usize) -> bool {
        self.loaded_chunks.contains_key(pos) && section_y < self.loaded_chunks[pos].len()
    }

    /// Whether the meshes of section `section_y` of `pos` are queued to be
    /// taken down.
    pub open spec fn mesh_unload_covers(self, pos: ChunkPos, section_y: usize) -> bool {
        queue_covers(self.mesh_to_unload, pos, section_y)
    }

    /// What holds of the resident set between any two operations:
    /// no chunk is both resident and being generated, and the sections of
    /// a resident chunk can be counted; a section is meshed
    /// only while its chunk is resident; and a section is shown only while
    /// its chunk is resident or its meshes are queued to be taken down.
    pub open spec fn wf(self) -> bool {
        &&& forall|pos: ChunkPos| #[trigger]
            self.loaded_chunks.contains_key(pos) ==> !self.data_tasks.contains(pos)
                && self.loaded_chunks[pos].len() <= usize::MAX
        &&& forall|pos: ChunkPos, y: usize| #[trigger]
            self.mesh_tasks.contains((pos, y)) ==> self.has_section(pos, y)
        &&& forall|pos: ChunkPos, y: usize| #[trigger]
            self.section_entities.contains_key((pos, y)) ==> self.has_section(pos, y)
                || self.mesh_unload_covers(pos, y)
    }

    /// The resident set in which nothing is resident, queued or running.
    pub open spec fn empty() -> WorldView {
        WorldView {
            loaded_chunks: Map::empty(),
            data_to_load: Seq::empty(),
            data_to_unload: Seq::empty(),
            mesh_to_load: Seq::empty(),
            mesh_to_unload: Seq::empty(),
            data_tasks: Set::empty(),
            mesh_tasks: Set::empty(),
            section_entities: Map::empty(),
        }
    }

    /// After a request to load `pos`: queued for generation, unless it is
    /// resident or queued already.
    pub open spec fn load_chunk(self, pos: ChunkPos) -> WorldView {
        if self.loaded_chunks.contains_key(pos) || self.data_to_load.contains(pos) {
            self
        } else {
            WorldView { data_to_load: self.data_to_load.push(pos), ..self }
        }
    }

    /// After a request to unload `pos`: queued for eviction, if it is
    /// resident or queued for generation.
    pub open spec fn unload_chunk(self, pos: ChunkPos) -> WorldView {
        if !self.loaded_chunks.contains_key(pos) && !self.data_to_load.contains(pos) {
            self
        } else {
            WorldView { data_to_unload: self.data_to_unload.push(pos), ..self }
        }
    }

    /// Whether generation of `pos` starts when its turn in the queue
    /// comes: it does unless the chunk is resident or being generated.
    pub open spec fn starts_data_task(self, pos: ChunkPos) -> bool {
        !self.loaded_chunks.contains_key(pos) && !self.data_tasks.contains(pos)
    }

    /// After the turn of `pos` in the queue of chunks to generate.
    pub open spec fn start_data_task(self, pos: ChunkPos) -> WorldView {
        if self.starts_data_task(pos) {
            WorldView { data_tasks: self.data_tasks.insert(pos), ..self }
        } else {
            self
        }
    }

    /// After the turns of all of `queue`, in order.
    pub open spec fn after_data_starts(self, queue: Seq<ChunkPos>) -> WorldView
        decreases queue.len(),
    {
        if queue.len() == 0 {
            self
        } else {
            self.after_data_starts(queue.drop_last()).start_data_task(queue.last())
        }
    }

    /// The chunks of `queue` whose generation starts, in order.
    pub open spec fn data_starts(self, queue: Seq<ChunkPos>) -> Seq<ChunkPos>
        decreases queue.len(),
    {
        if queue.len() == 0 {
            Seq::empty()
        } else if self.after_data_starts(queue.drop_last()).starts_data_task(queue.last()) {
            self.data_starts(queue.drop_last()).push(queue.last())
        } else {
            self.data_starts(queue.drop_last())
        }
    }

    /// After the queue of chunks to generate has been worked off.
    pub open spec fn start_data_tasks(self) -> WorldView {
        WorldView { data_to_load: Seq::empty(), ..self.after_data_starts(self.data_to_load) }
    }

    /// After the data of `pos` has arrived: resident and queued for
    /// meshing, if its generation was running; dropped otherwise.
    pub open spec fn data_task_done(self, pos: ChunkPos, chunk: Seq<Seq<Block>>) -> WorldView {
        if self.data_tasks.contains(pos) {
            WorldView {
                data_tasks: self.data_tasks.remove(pos),
                loaded_chunks: self.loaded_chunks.insert(pos, chunk),
                mesh_to_load: self.mesh_to_load.push(pos),
                ..self
            }
        } else {
            self
        }
    }

    /// After the data of all of `completed` has arrived, in order.
    pub open spec fn join_data_tasks(self, completed: Seq<(ChunkPos, Seq<Seq<Block>>)>) -> WorldView
        decreases completed.len(),
    {
        if completed.len() == 0 {
            self
        } else {
            self.join_data_tasks(completed.drop_last()).data_task_done(
                completed.last().0,
                completed.last().1,
            )
        }
    }

    /// The blocks of section `y` of the chunk at column `(x, z)`; `None`
    /// where the column is outside the world, the chunk not resident, or
    /// the section not in it.
    pub open spec fn section_blocks(self, x: int, z: int, y: int) -> Option<Seq<Block>> {
        let pos = ChunkPos(IVec2 { x: x as i32, y: z as i32 });
        if i32::MIN <= x <= i32::MAX && i32::MIN <= z <= i32::MAX && self.loaded_chunks.contains_key(
            pos,
        ) && 0 <= y < self.loaded_chunks[pos].len() {
            Some(self.loaded_chunks[pos][y])
        } else {
            None
        }
    }

    /// Section `section_y` of the resident chunk at `pos` with the
    /// sections around it that are resident.
    pub open spec fn neighbors(self, pos: ChunkPos, section_y: usize) -> NeighborsView {
        let x = pos.0.x as int;
        let z = pos.0.y as int;
        NeighborsView {
            center: self.loaded_chunks[pos][section_y as int],
            up: self.section_blocks(x, z, section_y + 1),
            down: self.section_blocks(x, z, section_y - 1),
            north: self.section_blocks(x, z + 1, section_y as int),
            south: self.section_blocks(x, z - 1, section_y as int),
            east: self.section_blocks(x + 1, z, section_y as int),
            west: self.section_blocks(x - 1, z, section_y as int),
        }
    }

    /// After the turn of `pos` in the queue of chunks to mesh: each of
    /// its sections is being meshed, if the chunk is resident.
    pub open spec fn start_mesh_task(self, pos: ChunkPos) -> WorldView {
        WorldView {
            mesh_tasks: Set::new(
                |s: (ChunkPos, usize)|
                    self.mesh_tasks.contains(s) || (s.0 == pos && self.has_section(pos, s.1)),
            ),
            ..self
        }
    }

    /// After the turns of all of `queue`, in order.
    pub open spec fn after_mesh_starts(self, queue: Seq<ChunkPos>) -> WorldView
        decreases queue.len(),
    {
        if queue.len() == 0 {
            self
        } else {
            self.after_mesh_starts(queue.drop_last()).start_mesh_task(queue.last())
        }
    }

    /// The first `n` sections of the chunk at `pos`, from the bottom up.
    pub open spec fn chunk_sections(pos: ChunkPos, n: int) -> Seq<(ChunkPos, usize)>
        decreases n,
    {
        if n <= 0 {
            Seq::empty()
        } else {
            Self::chunk_sections(pos, n - 1).push((pos, (n - 1) as usize))
        }
    }

    /// The sections whose meshing starts when `queue` is worked off: all
    /// sections of each chunk of the queue that is resident, in order.
    pub open spec fn mesh_starts(self, queue: Seq<ChunkPos>) -> Seq<(ChunkPos, usize)>
        decreases queue.len(),
    {
        if queue.len() == 0 {
            Seq::empty()
        } else if self.loaded_chunks.contains_key(queue.last()) {
            self.mesh_starts(queue.drop_last()) + Self::chunk_sections(
                queue.last(),
                self.loaded_chunks[queue.last()].len() as int,
            )
        } else {
            self.mesh_starts(queue.drop_last())
        }
    }

    /// After the queue of chunks to mesh has been worked off.
    pub open spec fn start_mesh_tasks(self) -> WorldView {
        WorldView { mesh_to_load: Seq::empty(), ..self.after_mesh_starts(self.mesh_to_load) }
    }

    /// The handle of what shows section `section_y` of `pos`, if it is
    /// shown.
    pub open spec fn entity(self, pos: ChunkPos, section_y: usize) -> Option<u64> {
        if self.section_entities.contains_key((pos, section_y)) {
            Some(self.section_entities[(pos, section_y)])
        } else {
            None
        }
    }

    /// After the meshing of section `section_y` of `pos` has finished: no
    /// longer being meshed and no longer shown, if it was being meshed;
    /// unchanged otherwise.
    pub open spec fn mesh_task_done(self, pos: ChunkPos, section_y: usize) -> WorldView {
        if self.mesh_tasks.contains((pos, section_y)) {
            WorldView {
                mesh_tasks: self.mesh_tasks.remove((pos, section_y)),
                section_entities: self.section_entities.remove((pos, section_y)),
                ..self
            }
        } else {
            self
        }
    }

    /// After the meshing of all of `completed` has finished, in order.
    pub open spec fn join_mesh_tasks(self, completed: Seq<(ChunkPos, usize)>) -> WorldView
        decreases completed.len(),
    {
        if completed.len() == 0 {
            self
        } else {
            self.join_mesh_tasks(completed.drop_last()).mesh_task_done(
                completed.last().0,
                completed.last().1,
            )
        }
    }

    /// After section `section_y` of `pos` has come to be shown by
    /// `entity`: recorded, if the chunk is resident and has the section.
    pub open spec fn insert_section_entity(self, pos: ChunkPos, section_y: usize, entity: u64) -> WorldView {
        if self.has_section(pos, section_y) {
            WorldView {
                section_entities: self.section_entities.insert((pos, section_y), entity),
                ..self
            }
        } else {
            self
        }
    }

    /// After the sections below `n` of `pos` have been taken down.
    pub open spec fn unload_sections(self, pos: ChunkPos, n: int) -> WorldView {
        WorldView {
            section_entities: self.section_entities.remove_keys(
                Set::new(|s: (ChunkPos, usize)| s.0 == pos && s.1 < n),
            ),
            ..self
        }
    }

    /// The handles of what shows the sections below `n` of `pos`, from the
    /// bottom up.
    pub open spec fn section_handles(self, pos: ChunkPos, n: int) -> Seq<u64>
        decreases n,
    {
        if n <= 0 {
            Seq::empty()
        } else if self.section_entities.contains_key((pos, (n - 1) as usize)) {
            self.section_handles(pos, n - 1).push(self.section_entities[(pos, (n - 1) as usize)])
        } else {
            self.section_handles(pos, n - 1)
        }
    }

    /// After the meshes of all of `queue` have been taken down, in order.
    pub open spec fn after_mesh_unloads(self, queue: Seq<(ChunkPos, usize)>) -> WorldView
        decreases queue.len(),
    {
        if queue.len() == 0 {
            self
        } else {
            self.after_mesh_unloads(queue.drop_last()).unload_sections(
                queue.last().0,
                queue.last().1 as int,
            )
        }
    }

    /// The handles of what is to vanish when the meshes of all of `queue`
    /// are taken down, in order.
    pub open spec fn mesh_unload_handles(self, queue: Seq<(ChunkPos, usize)>) -> Seq<u64>
        decreases queue.len(),
    {
        if queue.len() == 0 {
            Seq::empty()
        } else {
            self.mesh_unload_handles(queue.drop_last()) + self.after_mesh_unloads(
                queue.drop_last(),
            ).section_handles(queue.last().0, queue.last().1 as int)
        }
    }

    /// After the queue of meshes to take down has been worked off.
    pub open spec fn unload_meshes(self) -> WorldView {
        WorldView { mesh_to_unload: Seq::empty(), ..self.after_mesh_unloads(self.mesh_to_unload) }
    }

    /// After the turn of `pos` in the queue of chunks to drop: no longer
    /// resident, none of its sections being meshed any more, and its
    /// meshes queued to be taken down, if it was resident.
    pub open spec fn unload_data_of(self, pos: ChunkPos) -> WorldView {
        if self.loaded_chunks.contains_key(pos) {
            WorldView {
                loaded_chunks: self.loaded_chunks.remove(pos),
                mesh_tasks: Set::new(
                    |s: (ChunkPos, usize)|
                        self.mesh_tasks.contains(s) && !(s.0 == pos && self.has_section(pos, s.1)),
                ),
                mesh_to_unload: self.mesh_to_unload.push(
                    (pos, self.loaded_chunks[pos].len() as usize),
                ),
                ..self
            }
        } else {
            self
        }
    }

    /// After the turns of all of `queue`, in order.
    pub open spec fn after_data_unloads(self, queue: Seq<ChunkPos>) -> WorldView
        decreases queue.len(),
    {
        if queue.len() == 0 {
            self
        } else {
            self.after_data_unloads(queue.drop_last()).unload_data_of(queue.last())
        }
    }

    /// After the queue of chunks to drop has been worked off.
    pub open spec fn unload_data(self) -> WorldView {
        WorldView { data_to_unload: Seq::empty(), ..self.after_data_unloads(self.data_to_unload) }
    }

    /// After requests to load all of `chunks`, in order.
    pub open spec fn load_chunks(self, chunks: Seq<ChunkPos>) -> WorldView
        decreases chunks.len(),
    {
        if chunks.len() == 0 {
            self
        } else {
            self.load_chunks(chunks.drop_last()).load_chunk(chunks.last())
        }
    }

    /// After requests to unload all of `chunks`, in order.
    pub open spec fn unload_chunks(self, chunks: Seq<ChunkPos>) -> WorldView
        decreases chunks.len(),
    {
        if chunks.len() == 0 {
            self
        } else {
            self.unload_chunks(chunks.drop_last()).unload_chunk(chunks.last())
        }
    }
}

/// Requests to load or unload a chunk keep the resident set consistent.
pub proof fn lemma_requests_keep_wf(w: WorldView, pos: ChunkPos)
    requires
        w.wf(),
    ensures
        w.load_chunk(pos).wf(),
        w.unload_chunk(pos).wf(),
{
}

/// The resident set.
#[derive(Debug)]
pub struct World {
    loaded_chunks: HashMap<u64, Arc<Chunk>>,
    chunks_data_to_load: Vec<ChunkPos>,
    chunks_data_to_unload: Vec<ChunkPos>,
    chunks_mesh_to_load: Vec<ChunkPos>,
    chunks_mesh_to_unload: Vec<(ChunkPos, usize)>,  // pos, sections_amount
    data_tasks: HashSet<u64>,
    mesh_tasks: HashSet<u128>,
    section_entities: HashMap<u128, u64>,
}

impl View for World {
    type V = WorldView;

    closed spec fn view(&self) -> WorldView {
        WorldView {
            loaded_chunks: Map::new(
                |pos: ChunkPos| self.loaded_chunks@.contains_key(pos.spec_key()),
                |pos: ChunkPos| self.loaded_chunks@[pos.spec_key()]@,
            ),
            data_to_load: self.chunks_data_to_load@,
            data_to_unload: self.chunks_data_to_unload@,
            mesh_to_load: self.chunks_mesh_to_load@,
            mesh_to_unload: self.chunks_mesh_to_unload@,
            data_tasks: Set::new(|pos: ChunkPos| self.data_tasks@.contains(pos.spec_key())),
            mesh_tasks: Set::new(
                |s: (ChunkPos, usize)| self.mesh_tasks@.contains(section_key(s.0, s.1)),
            ),
            section_entities: Map::new(
                |s: (ChunkPos, usize)| self.section_entities@.contains_key(section_key(s.0, s.1)),
                |s: (ChunkPos, usize)| self.section_entities@[section_key(s.0, s.1)],
            ),
        }
    }
}

/// Whether `pos` occurs in `queue`.
fn queue_contains(queue: &Vec<ChunkPos>, pos: ChunkPos) -> (found: bool)
    ensures
        found == queue@.contains(pos),
{
    let mut i: usize = 0;
    while i < queue.len()
        invariant
            i <= queue@.len(),
            forall|j: int| 0 <= j < i ==> queue@[j] != pos,
        decreases queue@.len() - i,
    {
        if queue[i] == pos {
            return true;
        }
        i += 1;
    }
    false
}

impl World {
    /// Whether every key of the registry of running meshing stands for a
    /// section.
    spec fn section_keys_wf(&self) -> bool {
        forall|k: u128| self.mesh_tasks@.contains(k) ==> #[trigger] valid_section_key(k)
    }

    /// Whether the resident set is consistent: its plain values are, as
    /// [`WorldView::wf`] says, and it holds them soundly.
    pub closed spec fn wf(&self) -> bool {
        self@.wf() && self.section_keys_wf()
    }

    /// The plain values of a consistent resident set are consistent.
    pub proof fn lemma_wf(&self)
        requires
            self.wf(),
        ensures
            self@.wf(),
    {
    }

    /// A resident set in which nothing is resident, queued or running.
    pub fn new() -> (world: Self)
        ensures
            world.wf(),
            world@ == WorldView::empty(),
    {
        let world = World {
            loaded_chunks: HashMap::new(),
            chunks_data_to_load: Vec::new(),
            chunks_data_to_unload: Vec::new(),
            chunks_mesh_to_load: Vec::new(),
            chunks_mesh_to_unload: Vec::new(),
            data_tasks: HashSet::new(),
            mesh_tasks: HashSet::new(),
            section_entities: HashMap::new(),
        };
        assert(world@.loaded_chunks =~= Map::empty());
        assert(world@.data_tasks =~= Set::empty());
        assert(world@.mesh_tasks =~= Set::empty());
        assert(world@.section_entities =~= Map::empty());
        world
    }

    /// Asks for the data of the chunk at `position`. Nothing happens where
    /// the chunk is resident or asked for already.
    pub fn load_chunk(&mut self, position: ChunkPos)
        ensures
            final(self)@ == old(self)@.load_chunk(position),
            old(self).wf() ==> final(self).wf(),
    {
        if self.loaded_chunks.contains_key(&position.key()) || queue_contains(
            &self.chunks_data_to_load,
            position,
        ) {
            return ;
        }
        self.chunks_data_to_load.push(position);
        proof {
            if old(self).wf() {
                lemma_requests_keep_wf(old(self)@, position);
            }
        }
    }

    /// Asks for the chunk at `position` to be dropped. Nothing happens
    /// where the chunk is neither resident nor asked for.
    pub fn unload_chunk(&mut self, position: ChunkPos)
        ensures
            final(self)@ == old(self)@.unload_chunk(position),
            old(self).wf() ==> final(self).wf(),
    {
        if !self.loaded_chunks.contains_key(&position.key()) && !queue_contains(
            &self.chunks_data_to_load,
            position,
        ) {
            return ;
        }
        self.chunks_data_to_unload.push(position);
        proof {
            if old(self).wf() {
                lemma_requests_keep_wf(old(self)@, position);
            }
        }
    }
}

impl World {
    /// Records that section `section_y` of the chunk at `position` is now
    /// shown by `entity`. Returns the handle of what the caller is to
    /// remove: what showed the section before, if anything did; or
    /// `entity` itself, where the chunk is not resident or has no such
    /// section, in which case nothing is recorded.
    pub fn insert_section_entity(&mut self, position: ChunkPos, section_y: usize, entity: u64) -> (despawn:
        Option<u64>)
        ensures
            final(self)@ == old(self)@.insert_section_entity(position, section_y, entity),
            despawn == if old(self)@.has_section(position, section_y) {
                old(self)@.entity(position, section_y)
            } else {
                Some(entity)
            },
            old(self).wf() ==> final(self).wf(),
    {
        let ghost before = self@;
        let resident = match self.loaded_chunks.get(&position.key()) {
            Some(chunk) => section_y < chunk.sections.len(),
            None => false,
        };
        if !resident {
            return Some(entity);
        }
        let key = section_key_of(position, section_y);
        let ghost entities_before = self.section_entities@;
        let despawn = self.section_entities.insert(key, entity);
        assert(self.section_entities@ == entities_before.insert(key, entity));
        assert(self@.loaded_chunks == before.loaded_chunks);
        assert(self@.data_tasks == before.data_tasks);
        assert(self@.mesh_tasks == before.mesh_tasks);
        proof {
            assert forall|s: (ChunkPos, usize)|
                self.section_entities@.contains_key(#[trigger] section_key(s.0, s.1)) <==> (
                entities_before.contains_key(section_key(s.0, s.1)) || s == (
                    position,
                    section_y,
                )) by {
                lemma_section_key_injective(s.0, s.1, position, section_y);
            }
            assert forall|s: (ChunkPos, usize)|
                s != (position, section_y) implies self.section_entities@[#[trigger] section_key(
                    s.0,
                    s.1,
                )] == entities_before[section_key(s.0, s.1)] by {
                lemma_section_key_injective(s.0, s.1, position, section_y);
            }
        }
        assert(self@.section_entities =~= before.section_entities.insert(
            (position, section_y),
            entity,
        ));
        proof {
            if before.wf() {
                lemma_mesh_steps_keep_wf(before, position, section_y, entity);
            }
        }
        despawn
    }
}

impl World {
    /// Whether the chunk at `position` is resident.
    pub fn is_loaded(&self, position: ChunkPos) -> (resident: bool)
        ensures
            resident == self@.loaded_chunks.contains_key(position),
    {
        self.loaded_chunks.contains_key(&position.key())
    }

    /// The resident chunk at `position`, if there is one.
    pub fn chunk(&self, position: ChunkPos) -> (chunk: Option<&Arc<Chunk>>)
        ensures
            match chunk {
                Some(c) => self@.loaded_chunks.contains_key(position) && c@
                    == self@.loaded_chunks[position],
                None => !self@.loaded_chunks.contains_key(position),
            },
    {
        self.loaded_chunks.get(&position.key())
    }

    /// Whether the chunk at `position` is being generated.
    pub fn is_generating(&self, position: ChunkPos) -> (running: bool)
        ensures
            running == self@.data_tasks.contains(position),
    {
        self.data_tasks.contains(&position.key())
    }

    /// Whether section `section_y` of the chunk at `position` is being
    /// meshed.
    pub fn is_meshing(&self, position: ChunkPos, section_y: usize) -> (running: bool)
        ensures
            running == self@.mesh_tasks.contains((position, section_y)),
    {
        self.mesh_tasks.contains(&section_key_of(position, section_y))
    }

    /// The handle of what shows section `section_y` of the chunk at
    /// `position`, if the section is shown.
    pub fn section_entity(&self, position: ChunkPos, section_y: usize) -> (entity: Option<u64>)
        ensures
            entity == self@.entity(position, section_y),
    {
        match self.section_entities.get(&section_key_of(position, section_y)) {
            Some(entity) => Some(*entity),
            None => None,
        }
    }
}

/// The columns of the first `limit` chunks of a queue, as pairs of x and
/// z.
pub open spec fn first_columns(queue: Seq<ChunkPos>, limit: int) -> Seq<(i32, i32)> {
    Seq::new(
        (if queue.len() <= limit {
            queue.len()
        } else if limit < 0 {
            0
        } else {
            limit as nat
        }),
        |i: int| (queue[i].0.x, queue[i].0.y),
    )
}

/// The columns of the first `limit` chunks of a queue.
fn columns_of(queue: &Vec<ChunkPos>, limit: usize) -> (columns: Vec<(i32, i32)>)
    ensures
        columns@ == first_columns(queue@, limit as int),
{
    let mut columns: Vec<(i32, i32)> = Vec::new();
    let mut i: usize = 0;
    while i < queue.len() && i < limit
        invariant
            i <= queue@.len(),
            i <= limit,
            columns@ == first_columns(queue@, i as int),
        decreases queue@.len() - i,
    {
        let pos = queue[i];
        columns.push((pos.0.x, pos.0.y));
        i += 1;
        assert(columns@ =~= first_columns(queue@, i as int));
    }
    assert(columns@ =~= first_columns(queue@, limit as int));
    columns
}

impl World {
    /// There are as many resident chunks as the map of resident chunks has
    /// keys.
    proof fn lemma_loaded_count(&self)
        ensures
            self@.loaded_chunks.dom().finite(),
            self@.loaded_chunks.dom().len() == self.loaded_chunks@.dom().len(),
    {
        let keys = self.loaded_chunks@.dom();
        let to_pos = |k: u64| ChunkPos::spec_from_key(k);
        assert(keys.map(to_pos) =~= self@.loaded_chunks.dom()) by {
            assert forall|pos: ChunkPos|
                keys.map(to_pos).contains(pos) <==> self@.loaded_chunks.dom().contains(pos) by {
                if self@.loaded_chunks.dom().contains(pos) {
                    assert(keys.contains(pos.spec_key()) && to_pos(pos.spec_key()) == pos);
                }
            }
        }
        assert(vstd::relations::injective_on(to_pos, keys)) by {
            assert forall|a: u64, b: u64|
                keys.contains(a) && keys.contains(b) && to_pos(a) == to_pos(b) implies a == b by {
                assert(to_pos(a).spec_key() == a);
                assert(to_pos(b).spec_key() == b);
            }
        }
        vstd::set_lib::lemma_map_size(keys, self@.loaded_chunks.dom(), to_pos);
    }

    /// The number of resident chunks.
    pub fn loaded_count(&self) -> (n: usize)
        ensures
            self@.loaded_chunks.dom().finite(),
            n == self@.loaded_chunks.dom().len(),
    {
        proof {
            self.lemma_loaded_count();
        }
        self.loaded_chunks.len()
    }

    /// The number of chunks that are being generated.
    pub fn data_task_count(&self) -> (n: usize)
        ensures
            self@.data_tasks.finite(),
            n == self@.data_tasks.len(),
    {
        proof {
            let keys = self.data_tasks@;
            vstd::std_specs::hash::axiom_spec_hash_keys_iter(&self.data_tasks);
            vstd::seq_lib::seq_to_set_is_finite(
                vstd::std_specs::hash::spec_hash_keys_iter(&self.data_tasks).remaining().unref(),
            );
            let to_pos = |k: u64| ChunkPos::spec_from_key(k);
            assert(keys.map(to_pos) =~= self@.data_tasks) by {
                assert forall|pos: ChunkPos|
                    keys.map(to_pos).contains(pos) <==> self@.data_tasks.contains(pos) by {
                    if self@.data_tasks.contains(pos) {
                        assert(keys.contains(pos.spec_key()) && to_pos(pos.spec_key()) == pos);
                    }
                }
            }
            assert(vstd::relations::injective_on(to_pos, keys)) by {
                assert forall|a: u64, b: u64|
                    keys.contains(a) && keys.contains(b) && to_pos(a) == to_pos(b) implies a
                    == b by {
                    assert(to_pos(a).spec_key() == a);
                    assert(to_pos(b).spec_key() == b);
                }
            }
            vstd::set_lib::lemma_map_size(keys, self@.data_tasks, to_pos);
        }
        self.data_tasks.len()
    }

    /// The number of sections that are being meshed.
    pub fn mesh_task_count(&self) -> (n: usize)
        ensures
            self.wf() ==> self@.mesh_tasks.finite() && n == self@.mesh_tasks.len(),
    {
        proof {
            if self.wf() {
                let keys = self.mesh_tasks@;
                vstd::std_specs::hash::axiom_spec_hash_keys_iter(&self.mesh_tasks);
                vstd::seq_lib::seq_to_set_is_finite(
                    vstd::std_specs::hash::spec_hash_keys_iter(
                        &self.mesh_tasks,
                    ).remaining().unref(),
                );
                let to_section = |k: u128| section_of_key(k);
                assert(keys.map(to_section) =~= self@.mesh_tasks) by {
                    assert forall|s: (ChunkPos, usize)|
                        keys.map(to_section).contains(s) <==> self@.mesh_tasks.contains(s) by {
                        if self@.mesh_tasks.contains(s) {
                            lemma_section_key_round_trip(s.0, s.1, 0);
                            assert(keys.contains(section_key(s.0, s.1)) && to_section(
                                section_key(s.0, s.1),
                            ) == s);
                        }
                        if keys.map(to_section).contains(s) {
                            let k = choose|k: u128| keys.contains(k) && to_section(k) == s;
                            assert(valid_section_key(k));
                            lemma_section_key_round_trip(s.0, s.1, k);
                        }
                    }
                }
                assert(vstd::relations::injective_on(to_section, keys)) by {
                    assert forall|a: u128, b: u128|
                        keys.contains(a) && keys.contains(b) && to_section(a) == to_section(
                            b,
                        ) implies a == b by {
                        assert(valid_section_key(a) && valid_section_key(b));
                        lemma_section_key_round_trip(ChunkPos::spec_from_key(0), 0, a);
                        lemma_section_key_round_trip(ChunkPos::spec_from_key(0), 0, b);
                    }
                }
                vstd::set_lib::lemma_map_size(keys, self@.mesh_tasks, to_section);
            }
        }
        self.mesh_tasks.len()
    }

    /// The length of the queue of chunks to generate.
    pub fn data_to_load_len(&self) -> (n: usize)
        ensures
            n == self@.data_to_load.len(),
    {
        self.chunks_data_to_load.len()
    }

    /// The length of the queue of chunks to drop.
    pub fn data_to_unload_len(&self) -> (n: usize)
        ensures
            n == self@.data_to_unload.len(),
    {
        self.chunks_data_to_unload.len()
    }

    /// The length of the queue of chunks to mesh.
    pub fn mesh_to_load_len(&self) -> (n: usize)
        ensures
            n == self@.mesh_to_load.len(),
    {
        self.chunks_mesh_to_load.len()
    }

    /// The length of the queue of meshes to take down.
    pub fn mesh_to_unload_len(&self) -> (n: usize)
        ensures
            n == self@.mesh_to_unload.len(),
    {
        self.chunks_mesh_to_unload.len()
    }

    /// The columns of the first `limit` chunks that are queued to be
    /// dropped.
    pub fn data_to_unload_columns(&self, limit: usize) -> (columns: Vec<(i32, i32)>)
        ensures
            columns@ == first_columns(self@.data_to_unload, limit as int),
    {
        columns_of(&self.chunks_data_to_unload, limit)
    }

    /// The columns of the first `limit` chunks that are queued to be
    /// meshed.
    pub fn mesh_to_load_columns(&self, limit: usize) -> (columns: Vec<(i32, i32)>)
        ensures
            columns@ == first_columns(self@.mesh_to_load, limit as int),
    {
        columns_of(&self.chunks_mesh_to_load, limit)
    }

    /// The columns of up to `limit` resident chunks, no column twice. Which
    /// chunks they are, where there are more than `limit`, and in what
    /// order they come, is not fixed.
    pub fn loaded_columns(&self, limit: usize) -> (columns: Vec<(i32, i32)>)
        ensures
            self@.loaded_chunks.dom().finite(),
            columns@.len() == if self@.loaded_chunks.dom().len() <= limit {
                self@.loaded_chunks.dom().len()
            } else {
                limit as nat
            },
            columns@.no_duplicates(),
            forall|i: int|
                0 <= i < columns@.len() ==> self@.loaded_chunks.contains_key(
                    ChunkPos(IVec2 { x: (#[trigger] columns@[i]).0, y: columns@[i].1 }),
                ),
    {
        let mut columns: Vec<(i32, i32)> = Vec::new();
        proof {
            self.lemma_loaded_count();
            vstd::std_specs::hash::axiom_spec_keys_iter(&self.loaded_chunks);
        }
        for key in it: self.loaded_chunks.keys()
            invariant
                it.seq().len() == self.loaded_chunks@.dom().len(),
                columns@.len() == if it.index() <= limit {
                    it.index()
                } else {
                    limit as int
                },
                forall|i: int|
                    0 <= i < columns@.len() ==> ChunkPos(
                        IVec2 { x: (#[trigger] columns@[i]).0, y: columns@[i].1 },
                    ).spec_key() == *it.seq()[i],
        {
            if columns.len() < limit {
                let pos = ChunkPos::from_key(*key);
                columns.push((pos.0.x, pos.0.y));
            }
        }
        proof {
            let keys = vstd::std_specs::hash::spec_keys_iter(&self.loaded_chunks).remaining();
            vstd::std_specs::hash::axiom_spec_keys_iter(&self.loaded_chunks);
            assert forall|i: int| 0 <= i < columns@.len() implies self@.loaded_chunks.contains_key(
                ChunkPos(IVec2 { x: (#[trigger] columns@[i]).0, y: columns@[i].1 }),
            ) by {
                assert(keys.unref().to_set().contains(keys.unref()[i]));
            }
            assert forall|i: int, j: int|
                0 <= i < columns@.len() && 0 <= j < columns@.len() && i != j implies columns@[i]
                != columns@[j] by {
                assert(keys[i] != keys[j]);
            }
        }
        columns
    }
}

impl Default for World {
    fn default() -> (world: Self)
        ensures
            world.wf(),
            world@ == WorldView::empty(),
    {
        World::new()
    }
}


/// The blocks of generated chunks, each with its position.
pub open spec fn chunks_view(completed: Seq<(ChunkPos, Chunk)>) -> Seq<(ChunkPos, Seq<Seq<Block>>)> {
    Seq::new(completed.len(), |i: int| (completed[i].0, completed[i].1@))
}

/// Starting the generation of a chunk, and taking its data when it
/// arrives, keep the resident set consistent.
pub proof fn lemma_data_steps_keep_wf(w: WorldView, pos: ChunkPos, chunk: Seq<Seq<Block>>)
    requires
        w.wf(),
        chunk.len() <= usize::MAX,
    ensures
        w.start_data_task(pos).wf(),
        w.data_task_done(pos, chunk).wf(),
{
    let b = w.data_task_done(pos, chunk);
    if w.data_tasks.contains(pos) {
        assert forall|p: ChunkPos, y: usize| #[trigger]
            b.mesh_tasks.contains((p, y)) implies b.has_section(p, y) by {
            assert(w.has_section(p, y));
        }
        assert forall|p: ChunkPos, y: usize| #[trigger]
            b.section_entities.contains_key((p, y)) implies b.has_section(p, y)
            || b.mesh_unload_covers(p, y) by {
            if w.has_section(p, y) {
                assert(p != pos);
            }
        }
    }
}

/// Meshing work to start: a section and a snapshot of its neighbourhood.
pub struct MeshJob {
    pub pos: ChunkPos,
    pub section_y: usize,
    pub sections: SectionNeighbors,
}

/// The sections that a list of meshing work is for.
pub open spec fn jobs_sections(jobs: Seq<MeshJob>) -> Seq<(ChunkPos, usize)> {
    Seq::new(jobs.len(), |i: int| (jobs[i].pos, jobs[i].section_y))
}

/// What the caller is to do for a section whose meshing has finished:
/// remove what showed the section so far, if `despawn` names it, and show
/// `mesh`, if there is one.
#[derive(Debug)]
pub struct SectionUpdate {
    pub pos: ChunkPos,
    pub section_y: usize,
    pub despawn: Option<u64>,
    pub mesh: Option<ChunkSectionMesh>,
}

/// The sections that a list of finished meshing is for.
pub open spec fn results_sections(completed: Seq<(ChunkPos, usize, Option<ChunkSectionMesh>)>) -> Seq<
    (ChunkPos, usize),
> {
    Seq::new(completed.len(), |i: int| (completed[i].0, completed[i].1))
}

/// What is to be done for finished meshing, in order: an update for each
/// section that was being meshed, with the handle of what showed it at
/// that moment and with the mesh that came back.
pub open spec fn section_updates(
    w: WorldView,
    completed: Seq<(ChunkPos, usize, Option<ChunkSectionMesh>)>,
) -> Seq<SectionUpdate>
    decreases completed.len(),
{
    if completed.len() == 0 {
        Seq::empty()
    } else {
        let before = w.join_mesh_tasks(results_sections(completed.drop_last()));
        let last = completed.last();
        if before.mesh_tasks.contains((last.0, last.1)) {
            section_updates(w, completed.drop_last()).push(
                SectionUpdate {
                    pos: last.0,
                    section_y: last.1,
                    despawn: before.entity(last.0, last.1),
                    mesh: last.2,
                },
            )
        } else {
            section_updates(w, completed.drop_last())
        }
    }
}

/// Starting and finishing the meshing of a section, recording what shows
/// a section, and dropping a chunk keep the resident set consistent.
pub proof fn lemma_mesh_steps_keep_wf(w: WorldView, pos: ChunkPos, section_y: usize, entity: u64)
    requires
        w.wf(),
    ensures
        w.start_mesh_task(pos).wf(),
        w.mesh_task_done(pos, section_y).wf(),
        w.insert_section_entity(pos, section_y, entity).wf(),
        w.unload_data_of(pos).wf(),
{
    let d = w.unload_data_of(pos);
    if w.loaded_chunks.contains_key(pos) {
        assert forall|p: ChunkPos, y: usize| #[trigger]
            d.mesh_tasks.contains((p, y)) implies d.has_section(p, y) by {
            assert(w.has_section(p, y));
        }
        assert forall|p: ChunkPos, y: usize| #[trigger]
            d.section_entities.contains_key((p, y)) implies d.has_section(p, y)
            || d.mesh_unload_covers(p, y) by {
            lemma_queue_covers_push(
                w.mesh_to_unload,
                (pos, w.loaded_chunks[pos].len() as usize),
                p,
                y,
            );
        }
    }
}

/// What is still shown after meshes have been taken down was shown before
/// and is none of what the queue covered.
pub proof fn lemma_after_mesh_unloads(w: WorldView, queue: Seq<(ChunkPos, usize)>)
    ensures
        w.after_mesh_unloads(queue).loaded_chunks == w.loaded_chunks,
        w.after_mesh_unloads(queue).data_tasks == w.data_tasks,
        w.after_mesh_unloads(queue).mesh_tasks == w.mesh_tasks,
        w.after_mesh_unloads(queue).mesh_to_unload == w.mesh_to_unload,
        w.after_mesh_unloads(queue).data_to_load == w.data_to_load,
        w.after_mesh_unloads(queue).data_to_unload == w.data_to_unload,
        w.after_mesh_unloads(queue).mesh_to_load == w.mesh_to_load,
        forall|p: ChunkPos, y: usize| #[trigger]
            w.after_mesh_unloads(queue).section_entities.contains_key((p, y)) <==> (
            w.section_entities.contains_key((p, y)) && !queue_covers(queue, p, y)),
    decreases queue.len(),
{
    if queue.len() > 0 {
        lemma_after_mesh_unloads(w, queue.drop_last());
        let before = w.after_mesh_unloads(queue.drop_last());
        let after = w.after_mesh_unloads(queue);
        assert forall|p: ChunkPos, y: usize| #[trigger]
            after.section_entities.contains_key((p, y)) <==> (w.section_entities.contains_key(
                (p, y),
            ) && !queue_covers(queue, p, y)) by {
            lemma_queue_covers_push(queue.drop_last(), queue.last(), p, y);
            assert(queue.drop_last().push(queue.last()) =~= queue);
            assert(before.section_entities.contains_key((p, y)) <==> (
            w.section_entities.contains_key((p, y)) && !queue_covers(queue.drop_last(), p, y)));
        }
    } else {
        assert forall|p: ChunkPos, y: usize| !queue_covers(queue, p, y) by {
            lemma_queue_covers_push(queue, (p, y), p, y);
            assert(queue =~= Seq::empty());
        }
    }
}

/// Taking down all the meshes that are queued for it keeps the resident
/// set consistent.
pub proof fn lemma_unload_meshes_keeps_wf(w: WorldView)
    requires
        w.wf(),
    ensures
        w.unload_meshes().wf(),
{
    lemma_after_mesh_unloads(w, w.mesh_to_unload);
    let a = w.unload_meshes();
    assert forall|p: ChunkPos, y: usize| #[trigger]
        a.section_entities.contains_key((p, y)) implies a.has_section(p, y) by {
        assert(w.section_entities.contains_key((p, y)));
        assert(!w.mesh_unload_covers(p, y));
    }
}

/// The phases of the pipeline, each working on the resident set.
pub struct WorldPlugin;

impl WorldPlugin {
    /// Works off the queue of chunks to generate. Returns the chunks whose
    /// generation the caller is to start now: those of the queue that are
    /// neither resident nor being generated, each once.
    pub fn start_data_tasks(world: &mut World) -> (started: Vec<ChunkPos>)
        ensures
            final(world)@ == old(world)@.start_data_tasks(),
            started@ == old(world)@.data_starts(old(world)@.data_to_load),
            old(world).wf() ==> final(world).wf(),
    {
        let mut started: Vec<ChunkPos> = Vec::new();
        let ghost queue = world.chunks_data_to_load@;
        let mut i: usize = 0;
        while i < world.chunks_data_to_load.len()
            invariant
                old(world).wf() ==> world.section_keys_wf(),
                i <= queue.len(),
                queue == old(world)@.data_to_load,
                world.chunks_data_to_load@ == queue,
                world@ == old(world)@.after_data_starts(queue.take(i as int)),
                started@ == old(world)@.data_starts(queue.take(i as int)),
                old(world).wf() ==> world.wf(),
            decreases queue.len() - i,
        {
            let chunk_pos = world.chunks_data_to_load[i];
            let ghost before = world@;
            assert(queue.take(i + 1).drop_last() =~= queue.take(i as int));
            assert(queue.take(i + 1).last() == chunk_pos);
            if !world.loaded_chunks.contains_key(&chunk_pos.key()) && !world.data_tasks.contains(
                &chunk_pos.key(),
            ) {
                world.data_tasks.insert(chunk_pos.key());
                started.push(chunk_pos);
                assert(world@.data_tasks =~= before.data_tasks.insert(chunk_pos));
            }
            assert(world@ == before.start_data_task(chunk_pos));
            proof {
                if old(world).wf() {
                    lemma_data_steps_keep_wf(before, chunk_pos, Seq::empty());
                }
            }
            i += 1;
        }
        assert(queue.take(queue.len() as int) =~= queue);
        world.chunks_data_to_load.clear();
        proof {
            if old(world).wf() {
                lemma_queues_keep_wf(old(world)@.after_data_starts(queue), world@);
            }
        }
        started
    }

    /// Takes the chunks whose generation has finished. A chunk whose
    /// generation was running becomes resident and is queued for meshing;
    /// any other is dropped.
    pub fn join_data_tasks(world: &mut World, completed: Vec<(ChunkPos, Chunk)>)
        ensures
            final(world)@ == old(world)@.join_data_tasks(chunks_view(completed@)),
            old(world).wf() ==> final(world).wf(),
    {
        let ghost all = chunks_view(completed@);
        let mut completed = completed;
        let ghost mut done: int = 0;
        assert(all.take(0) =~= Seq::empty());
        // the chunks are taken from the back of the list, so the list is turned first
        let mut turned: Vec<(ChunkPos, Chunk)> = Vec::new();
        while completed.len() > 0
            invariant
                old(world).wf() ==> world.section_keys_wf(),
                completed@.len() + turned@.len() == all.len(),
                forall|j: int|
                    0 <= j < completed@.len() ==> (completed@[j].0, completed@[j].1@) == all[j],
                forall|j: int|
                    0 <= j < turned@.len() ==> (turned@[j].0, turned@[j].1@) == all[all.len() - 1
                        - j],
            decreases completed@.len(),
        {
            let item = completed.pop().unwrap();
            turned.push(item);
        }
        while turned.len() > 0
            invariant
                old(world).wf() ==> world.section_keys_wf(),
                0 <= done <= all.len(),
                turned@.len() == all.len() - done,
                forall|j: int|
                    0 <= j < turned@.len() ==> (turned@[j].0, turned@[j].1@) == all[all.len() - 1
                        - j],
                world@ == old(world)@.join_data_tasks(all.take(done)),
                old(world).wf() ==> world.wf(),
            decreases turned@.len(),
        {
            let (chunk_pos, chunk) = turned.pop().unwrap();
            let ghost before = world@;
            let sections_len = chunk.sections.len();
            assert(chunk@.len() == sections_len);
            assert(all.take(done + 1).drop_last() =~= all.take(done));
            assert(all.take(done + 1).last() == (chunk_pos, chunk@));
            if world.data_tasks.remove(&chunk_pos.key()) {
                world.loaded_chunks.insert(chunk_pos.key(), Arc::new(chunk));
                world.chunks_mesh_to_load.push(chunk_pos);
                assert(world@.data_tasks =~= before.data_tasks.remove(chunk_pos));
                assert(world@.loaded_chunks =~= before.loaded_chunks.insert(chunk_pos, chunk@));
                assert(world@.mesh_tasks =~= before.mesh_tasks);
                assert(world@.section_entities =~= before.section_entities);
            } else {
                assert(world@.data_tasks =~= before.data_tasks);
            }
            assert(world@ == before.data_task_done(chunk_pos, chunk@));
            proof {
                if old(world).wf() {
                    lemma_data_steps_keep_wf(before, chunk_pos, chunk@);
                }
                done = done + 1;
            }
        }
        assert(all.take(all.len() as int) =~= all);
    }

    /// Works off the queue of chunks to mesh. Returns the meshing work that
    /// the caller is to start now: one job for each section of each chunk
    /// of the queue that is resident, with the section's neighbourhood as
    /// it is at this moment. A neighbour that becomes resident later is
    /// not seen by the job.
    pub fn start_mesh_tasks(world: &mut World) -> (jobs: Vec<MeshJob>)
        ensures
            final(world)@ == old(world)@.start_mesh_tasks(),
            jobs_sections(jobs@) == old(world)@.mesh_starts(old(world)@.mesh_to_load),
            forall|i: int|
                0 <= i < jobs@.len() ==> (#[trigger] jobs@[i]).sections@ == old(world)@.neighbors(
                    jobs@[i].pos,
                    jobs@[i].section_y,
                ),
            old(world).wf() ==> final(world).wf(),
    {
        let mut jobs: Vec<MeshJob> = Vec::new();
        let ghost queue = world.chunks_mesh_to_load@;
        let ghost start = world@;
        let mut i: usize = 0;
        assert(jobs_sections(jobs@) =~= start.mesh_starts(queue.take(0)));
        while i < world.chunks_mesh_to_load.len()
            invariant
                old(world).wf() ==> world.section_keys_wf(),
                i <= queue.len(),
                start == old(world)@,
                queue == start.mesh_to_load,
                world.chunks_mesh_to_load@ == queue,
                world.loaded_chunks@ == old(world).loaded_chunks@,
                world@ == start.after_mesh_starts(queue.take(i as int)),
                jobs_sections(jobs@) == start.mesh_starts(queue.take(i as int)),
                forall|j: int|
                    0 <= j < jobs@.len() ==> (#[trigger] jobs@[j]).sections@ == start.neighbors(
                        jobs@[j].pos,
                        jobs@[j].section_y,
                    ),
                old(world).wf() ==> world.wf(),
            decreases queue.len() - i,
        {
            let chunk_pos = world.chunks_mesh_to_load[i];
            let ghost before = world@;
            let ghost jobs_before = jobs_sections(jobs@);
            assert(queue.take(i + 1).drop_last() =~= queue.take(i as int));
            assert(queue.take(i + 1).last() == chunk_pos);
            assert(before.loaded_chunks =~= start.loaded_chunks);
            let sections_len: usize = match world.loaded_chunks.get(&chunk_pos.key()) {
                Some(chunk) => chunk.sections.len(),
                None => 0,
            };
            let mut section_y: usize = 0;
            assert(world@.mesh_tasks =~= Set::new(
                |s: (ChunkPos, usize)|
                    before.mesh_tasks.contains(s) || (s.0 == chunk_pos && s.1 < section_y),
            ));
            assert(WorldView::chunk_sections(chunk_pos, 0) =~= Seq::empty());
            assert(jobs_sections(jobs@) =~= jobs_before + WorldView::chunk_sections(chunk_pos, 0));
            while section_y < sections_len
                invariant
                    old(world).wf() ==> world.section_keys_wf(),
                    section_y <= sections_len,
                    start == old(world)@,
                    world.chunks_mesh_to_load@ == queue,
                    world.loaded_chunks@ == old(world).loaded_chunks@,
                    before.loaded_chunks == start.loaded_chunks,
                    sections_len > 0 ==> before.loaded_chunks.contains_key(chunk_pos)
                        && sections_len == before.loaded_chunks[chunk_pos].len(),
                    world@ == (WorldView {
                        mesh_tasks: Set::new(
                            |s: (ChunkPos, usize)|
                                before.mesh_tasks.contains(s) || (s.0 == chunk_pos && s.1
                                    < section_y),
                        ),
                        ..before
                    }),
                    jobs_sections(jobs@) == jobs_before + WorldView::chunk_sections(
                        chunk_pos,
                        section_y as int,
                    ),
                    forall|j: int|
                        0 <= j < jobs@.len() ==> (#[trigger] jobs@[j]).sections@
                            == start.neighbors(jobs@[j].pos, jobs@[j].section_y),
                decreases sections_len - section_y,
            {
                let section = SectionNeighbors::new(&world.loaded_chunks, chunk_pos, section_y);
                proof {
                    lemma_neighbors_of_view(*old(world), chunk_pos, section_y);
                }
                let ghost tasks_before = world@.mesh_tasks;
                world.mesh_tasks.insert(section_key_of(chunk_pos, section_y));
                assert(world@.mesh_tasks =~= tasks_before.insert((chunk_pos, section_y)));
                let ghost jobs_then = jobs@;
                jobs.push(MeshJob { pos: chunk_pos, section_y, sections: section });
                section_y += 1;
                assert(world@.mesh_tasks =~= Set::new(
                    |s: (ChunkPos, usize)|
                        before.mesh_tasks.contains(s) || (s.0 == chunk_pos && s.1 < section_y),
                ));
                assert(jobs_sections(jobs@) =~= jobs_sections(jobs_then).push(
                    (chunk_pos, (section_y - 1) as usize),
                ));
                assert(jobs_sections(jobs@) =~= jobs_before + WorldView::chunk_sections(
                    chunk_pos,
                    section_y as int,
                ));
            }
            assert(world@.mesh_tasks =~= before.start_mesh_task(chunk_pos).mesh_tasks);
            assert(world@ == before.start_mesh_task(chunk_pos));
            proof {
                if old(world).wf() {
                    lemma_mesh_steps_keep_wf(before, chunk_pos, 0, 0);
                }
                if !start.loaded_chunks.contains_key(chunk_pos) {
                    assert(jobs_sections(jobs@) =~= jobs_before);
                }
            }
            i += 1;
        }
        assert(queue.take(queue.len() as int) =~= queue);
        world.chunks_mesh_to_load.clear();
        proof {
            if old(world).wf() {
                lemma_queues_keep_wf(start.after_mesh_starts(queue), world@);
            }
        }
        jobs
    }

    /// Takes the sections whose meshing has finished, each with its mesh,
    /// or with `None` where the section shows no face. For each section
    /// that was being meshed, the caller is told to remove what showed it
    /// so far and to show the new mesh, if there is one. A section that
    /// was not being meshed, as one of a chunk that has been dropped
    /// meanwhile, is passed over.
    ///
    /// When the caller has put a new mesh on show, it hands the handle in
    /// with [`World::insert_section_entity`].
    pub fn join_mesh_tanks(
        world: &mut World,
        completed: Vec<(ChunkPos, usize, Option<ChunkSectionMesh>)>,
    ) -> (updates: Vec<SectionUpdate>)
        ensures
            final(world)@ == old(world)@.join_mesh_tasks(results_sections(completed@)),
            updates@ == section_updates(old(world)@, completed@),
            old(world).wf() ==> final(world).wf(),
    {
        let ghost all = completed@;
        let ghost start = world@;
        let mut completed = completed;
        let mut updates: Vec<SectionUpdate> = Vec::new();
        let ghost mut done: int = 0;
        // the results are taken from the back of the list, so the list is turned first
        let mut turned: Vec<(ChunkPos, usize, Option<ChunkSectionMesh>)> = Vec::new();
        while completed.len() > 0
            invariant
                old(world).wf() ==> world.section_keys_wf(),
                completed@.len() + turned@.len() == all.len(),
                forall|j: int| 0 <= j < completed@.len() ==> completed@[j] == all[j],
                forall|j: int| 0 <= j < turned@.len() ==> turned@[j] == all[all.len() - 1 - j],
            decreases completed@.len(),
        {
            let item = completed.pop().unwrap();
            turned.push(item);
        }
        assert(results_sections(all.take(0)) =~= Seq::empty());
        while turned.len() > 0
            invariant
                old(world).wf() ==> world.section_keys_wf(),
                0 <= done <= all.len(),
                start == old(world)@,
                turned@.len() == all.len() - done,
                forall|j: int| 0 <= j < turned@.len() ==> turned@[j] == all[all.len() - 1 - j],
                world@ == start.join_mesh_tasks(results_sections(all.take(done))),
                updates@ == section_updates(start, all.take(done)),
                old(world).wf() ==> world.wf(),
            decreases turned@.len(),
        {
            let (chunk_pos, section_y, section_mesh) = turned.pop().unwrap();
            let ghost before = world@;
            proof {
                assert(all.take(done + 1).drop_last() =~= all.take(done));
                assert(all.take(done + 1).last() == (chunk_pos, section_y, section_mesh));
                assert(results_sections(all.take(done + 1)).drop_last() =~= results_sections(
                    all.take(done),
                ));
                assert(results_sections(all.take(done + 1)).last() == (chunk_pos, section_y));
            }
            let key = section_key_of(chunk_pos, section_y);
            if world.mesh_tasks.remove(&key) {
                let despawn = world.section_entities.remove(&key);
                updates.push(
                    SectionUpdate { pos: chunk_pos, section_y, despawn, mesh: section_mesh },
                );
                assert(world@.mesh_tasks =~= before.mesh_tasks.remove((chunk_pos, section_y)));
                assert(world@.section_entities =~= before.section_entities.remove(
                    (chunk_pos, section_y),
                ));
                assert(world@.loaded_chunks =~= before.loaded_chunks);
                assert(world@.data_tasks =~= before.data_tasks);
            } else {
                assert(world@.mesh_tasks =~= before.mesh_tasks);
            }
            assert(world@ == before.mesh_task_done(chunk_pos, section_y));
            proof {
                if old(world).wf() {
                    lemma_mesh_steps_keep_wf(before, chunk_pos, section_y, 0);
                }
                done = done + 1;
            }
        }
        assert(all.take(all.len() as int) =~= all);
        updates
    }

    /// Works off the queue of meshes to take down. Returns the handles of
    /// what the caller is to remove: for each chunk of the queue, what
    /// shows its sections, from the bottom up.
    pub fn unload_meshes(world: &mut World) -> (despawn: Vec<u64>)
        ensures
            final(world)@ == old(world)@.unload_meshes(),
            despawn@ == old(world)@.mesh_unload_handles(old(world)@.mesh_to_unload),
            old(world).wf() ==> final(world).wf(),
    {
        let mut despawn: Vec<u64> = Vec::new();
        let ghost queue = world.chunks_mesh_to_unload@;
        let ghost start = world@;
        let mut i: usize = 0;
        while i < world.chunks_mesh_to_unload.len()
            invariant
                old(world).wf() ==> world.section_keys_wf(),
                i <= queue.len(),
                start == old(world)@,
                queue == start.mesh_to_unload,
                world.chunks_mesh_to_unload@ == queue,
                world@ == start.after_mesh_unloads(queue.take(i as int)),
                despawn@ == start.mesh_unload_handles(queue.take(i as int)),
            decreases queue.len() - i,
        {
            let (chunk_pos, sections_len) = world.chunks_mesh_to_unload[i];
            let ghost before = world@;
            let ghost despawn_before = despawn@;
            assert(queue.take(i + 1).drop_last() =~= queue.take(i as int));
            assert(queue.take(i + 1).last() == (chunk_pos, sections_len));
            let mut section_y: usize = 0;
            assert(before.unload_sections(chunk_pos, 0).section_entities
                =~= before.section_entities);
            assert(despawn@ =~= despawn_before + before.section_handles(chunk_pos, 0));
            while section_y < sections_len
                invariant
                    old(world).wf() ==> world.section_keys_wf(),
                    section_y <= sections_len,
                    world.chunks_mesh_to_unload@ == queue,
                    world@ == before.unload_sections(chunk_pos, section_y as int),
                    despawn@ == despawn_before + before.section_handles(
                        chunk_pos,
                        section_y as int,
                    ),
                decreases sections_len - section_y,
            {
                let ghost then = world@;
                let ghost despawn_then = despawn@;
                assert(then.entity(chunk_pos, section_y) == before.entity(chunk_pos, section_y));
                match world.section_entities.remove(&section_key_of(chunk_pos, section_y)) {
                    Some(chunk_id) => {
                        despawn.push(chunk_id);
                        assert(then.entity(chunk_pos, section_y) == Some(chunk_id));
                    },
                    None => {
                        assert(then.entity(chunk_pos, section_y).is_none());
                    },
                }
                assert(world@.section_entities =~= then.section_entities.remove(
                    (chunk_pos, section_y),
                ));
                assert(world@.loaded_chunks =~= then.loaded_chunks);
                assert(world@.data_tasks =~= then.data_tasks);
                assert(world@.mesh_tasks =~= then.mesh_tasks);
                section_y += 1;
                assert(world@.section_entities =~= before.unload_sections(
                    chunk_pos,
                    section_y as int,
                ).section_entities);
                assert(before.section_handles(chunk_pos, section_y as int) == if before.entity(
                    chunk_pos,
                    (section_y - 1) as usize,
                ).is_some() {
                    before.section_handles(chunk_pos, section_y - 1).push(
                        before.entity(chunk_pos, (section_y - 1) as usize).unwrap(),
                    )
                } else {
                    before.section_handles(chunk_pos, section_y - 1)
                });
                assert(despawn@ =~= despawn_before + before.section_handles(
                    chunk_pos,
                    section_y as int,
                ));
            }
            i += 1;
        }
        assert(queue.take(queue.len() as int) =~= queue);
        world.chunks_mesh_to_unload.clear();
        proof {
            if old(world).wf() {
                lemma_unload_meshes_keeps_wf(start);
            }
        }
        despawn
    }

    /// Works off the queue of chunks to drop. A chunk of the queue that is
    /// resident is dropped, the meshing of its sections is forgotten, and
    /// its meshes are queued to be taken down in the next round.
    pub fn unload_data(world: &mut World)
        ensures
            final(world)@ == old(world)@.unload_data(),
            old(world).wf() ==> final(world).wf(),
    {
        let ghost queue = world.chunks_data_to_unload@;
        let ghost start = world@;
        let mut i: usize = 0;
        while i < world.chunks_data_to_unload.len()
            invariant
                old(world).wf() ==> world.section_keys_wf(),
                i <= queue.len(),
                start == old(world)@,
                queue == start.data_to_unload,
                world.chunks_data_to_unload@ == queue,
                world@ == start.after_data_unloads(queue.take(i as int)),
                old(world).wf() ==> world.wf(),
            decreases queue.len() - i,
        {
            let chunk_pos = world.chunks_data_to_unload[i];
            let ghost before = world@;
            assert(queue.take(i + 1).drop_last() =~= queue.take(i as int));
            assert(queue.take(i + 1).last() == chunk_pos);
            let chunk = world.loaded_chunks.remove(&chunk_pos.key());
            if let Some(chunk) = chunk {
                let sections_len = chunk.sections.len();
                world.chunks_mesh_to_unload.push((chunk_pos, sections_len));
                assert(world@.loaded_chunks =~= before.loaded_chunks.remove(chunk_pos));
                assert(world@.data_tasks =~= before.data_tasks);
                assert(world@.section_entities =~= before.section_entities);
                let mut section_y: usize = 0;
                assert(world@.mesh_tasks =~= Set::new(
                    |s: (ChunkPos, usize)|
                        before.mesh_tasks.contains(s) && !(s.0 == chunk_pos && s.1 < section_y),
                ));
                while section_y < sections_len
                    invariant
                        old(world).wf() ==> world.section_keys_wf(),
                        section_y <= sections_len,
                        sections_len == before.loaded_chunks[chunk_pos].len(),
                        before.loaded_chunks.contains_key(chunk_pos),
                        world.chunks_data_to_unload@ == queue,
                        world@ == (WorldView {
                            loaded_chunks: before.loaded_chunks.remove(chunk_pos),
                            mesh_tasks: Set::new(
                                |s: (ChunkPos, usize)|
                                    before.mesh_tasks.contains(s) && !(s.0 == chunk_pos && s.1
                                        < section_y),
                            ),
                            mesh_to_unload: before.mesh_to_unload.push((chunk_pos, sections_len)),
                            ..before
                        }),
                    decreases sections_len - section_y,
                {
                    let ghost then = world@;
                    world.mesh_tasks.remove(&section_key_of(chunk_pos, section_y));
                    assert(world@.mesh_tasks =~= then.mesh_tasks.remove((chunk_pos, section_y)));
                    assert(world@.loaded_chunks =~= then.loaded_chunks);
                    assert(world@.data_tasks =~= then.data_tasks);
                    assert(world@.section_entities =~= then.section_entities);
                    section_y += 1;
                    assert(world@.mesh_tasks =~= Set::new(
                        |s: (ChunkPos, usize)|
                            before.mesh_tasks.contains(s) && !(s.0 == chunk_pos && s.1
                                < section_y),
                    ));
                }
                assert(world@.mesh_tasks =~= before.unload_data_of(chunk_pos).mesh_tasks);
            } else {
                assert(world@.loaded_chunks =~= before.loaded_chunks);
            }
            assert(world@ == before.unload_data_of(chunk_pos));
            proof {
                if old(world).wf() {
                    lemma_mesh_steps_keep_wf(before, chunk_pos, 0, 0);
                }
            }
            i += 1;
        }
        assert(queue.take(queue.len() as int) =~= queue);
        world.chunks_data_to_unload.clear();
        proof {
            if old(world).wf() {
                lemma_queues_keep_wf(start.after_data_unloads(queue), world@);
            }
        }
    }

    /// Generates the chunk at `coord`: two sections, each holding a ball
    /// of `Block(1)`.
    pub fn generate_chunk_at(coord: ChunkPos) -> (chunk: Chunk)
        ensures
            chunk@ == seq![sphere_section(), sphere_section()],
            chunk.wf(),
    {
        let mut chunk = Chunk::new();
        chunk.generate();
        assert(chunk@ =~= seq![sphere_section(), sphere_section()]);
        chunk
    }
}

/// A resident set that differs from a consistent one only in its queues
/// of chunks to generate, to drop and to mesh is consistent.
pub proof fn lemma_queues_keep_wf(a: WorldView, b: WorldView)
    requires
        a.wf(),
        a.loaded_chunks == b.loaded_chunks,
        a.data_tasks == b.data_tasks,
        a.mesh_tasks == b.mesh_tasks,
        a.section_entities == b.section_entities,
        a.mesh_to_unload == b.mesh_to_unload,
    ensures
        b.wf(),
{
}


/// The neighbourhood of a section as the map of resident chunks gives it is
/// the neighbourhood that the resident set's plain values give.
proof fn lemma_neighbors_of_view(world: World, pos: ChunkPos, section_y: usize)
    requires
        world@.has_section(pos, section_y),
    ensures
        neighbors_at(world.loaded_chunks@, pos, section_y as int) == world@.neighbors(
            pos,
            section_y,
        ),
{
}

} // verus!
