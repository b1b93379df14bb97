use boxel::block::Block;
use boxel::chunk::{Chunk, ChunkPos, ChunkSection};
use boxel::chunk_loader::{get_chunks_in_radius, ChunkLoader, ChunkLoaderPlugin};
use boxel::chunk_mesh::ChunkSectionMesh;
use boxel::greedy_mesher::generate_section_mesh;
use boxel::math::{IVec2, IVec3};
use boxel::world::{MeshJob, World, WorldPlugin};
use std::collections::HashMap;
use std::sync::Arc;

fn at(x: i32, z: i32) -> ChunkPos {
    ChunkPos(IVec2::new(x, z))
}

/// Does the work that the resident set hands out, as a renderer with a
/// pool of workers would: it keeps what is running, finishes it when told
/// to, and keeps the meshes that are on show.
struct Driver {
    world: World,
    generating: Vec<ChunkPos>,
    meshing: Vec<MeshJob>,
    shown: HashMap<u64, (ChunkPos, usize, ChunkSectionMesh)>,
    next_entity: u64,
    data_tasks_started: usize,
    filled: bool,
}

impl Driver {
    fn new() -> Driver {
        Driver {
            world: World::new(),
            generating: Vec::new(),
            meshing: Vec::new(),
            shown: HashMap::new(),
            next_entity: 1,
            data_tasks_started: 0,
            filled: false,
        }
    }

    fn generate(&self, pos: ChunkPos) -> Chunk {
        if self.filled {
            let mut section = ChunkSection::new();
            for x in 0..16 {
                for y in 0..16 {
                    for z in 0..16 {
                        section.set_by_xyz(x, y, z, Block(1));
                    }
                }
            }
            Chunk { sections: vec![Arc::new(section)] }
        } else {
            WorldPlugin::generate_chunk_at(pos)
        }
    }

    fn tick(&mut self, finish_data: bool, finish_meshes: bool) {
        let started = WorldPlugin::start_data_tasks(&mut self.world);
        self.data_tasks_started += started.len();
        self.generating.extend(started);

        let mut chunks = Vec::new();
        if finish_data {
            for pos in std::mem::take(&mut self.generating) {
                chunks.push((pos, self.generate(pos)));
            }
        }
        WorldPlugin::join_data_tasks(&mut self.world, chunks);

        for job in WorldPlugin::start_mesh_tasks(&mut self.world) {
            self.meshing.retain(|old| (old.pos, old.section_y) != (job.pos, job.section_y));
            self.meshing.push(job);
        }

        let mut meshes = Vec::new();
        if finish_meshes {
            for job in std::mem::take(&mut self.meshing) {
                meshes.push((job.pos, job.section_y, generate_section_mesh(job.sections)));
            }
        }
        for update in WorldPlugin::join_mesh_tanks(&mut self.world, meshes) {
            if let Some(entity) = update.despawn {
                assert!(self.shown.remove(&entity).is_some());
            }
            if let Some(mesh) = update.mesh {
                let entity = self.next_entity;
                self.next_entity += 1;
                self.shown.insert(entity, (update.pos, update.section_y, mesh));
                if let Some(gone) = self.world.insert_section_entity(update.pos, update.section_y, entity) {
                    assert!(self.shown.remove(&gone).is_some());
                }
            }
        }

        for entity in WorldPlugin::unload_meshes(&mut self.world) {
            assert!(self.shown.remove(&entity).is_some());
        }
        WorldPlugin::unload_data(&mut self.world);
    }

    fn shown_for(&self, pos: ChunkPos) -> Vec<(usize, ChunkSectionMesh)> {
        let mut sections: Vec<(usize, ChunkSectionMesh)> = self
            .shown
            .values()
            .filter(|s| s.0 == pos)
            .map(|s| (s.1, s.2.clone()))
            .collect();
        sections.sort_by_key(|s| s.0);
        sections
    }

    /// What the resident set records as shown is what is on show.
    fn check_entities(&self) {
        for (entity, (pos, section_y, _)) in &self.shown {
            assert_eq!(self.world.section_entity(*pos, *section_y), Some(*entity));
        }
    }
}

#[test]
fn new_world_is_empty() {
    let world = World::new();
    assert!(!world.is_loaded(at(0, 0)));
    assert!(!world.is_generating(at(0, 0)));
    assert!(!world.is_meshing(at(0, 0), 0));
    assert_eq!(world.section_entity(at(0, 0), 0), None);
    assert!(world.chunk(at(0, 0)).is_none());
    let mut world = World::default();
    assert_eq!(WorldPlugin::start_data_tasks(&mut world), vec![]);
    assert_eq!(WorldPlugin::start_mesh_tasks(&mut world).len(), 0);
    assert_eq!(WorldPlugin::unload_meshes(&mut world), vec![]);
    WorldPlugin::unload_data(&mut world);
}

#[test]
fn generated_chunk_is_two_spheres() {
    let chunk = WorldPlugin::generate_chunk_at(at(3, 4));
    assert_eq!(chunk.sections.len(), 2);
    assert_eq!(chunk.get_by_xyz(8, 8, 8), Block(1));
    assert_eq!(chunk.get_by_xyz(8, 24, 8), Block(1));
    assert_eq!(chunk.get_by_xyz(0, 0, 0), Block(0));
}

#[test]
fn loading_many_times_starts_one_task() {
    for times in [1, 2, 7] {
        let mut d = Driver::new();
        for _ in 0..times {
            d.world.load_chunk(at(2, 3));
        }
        let started = WorldPlugin::start_data_tasks(&mut d.world);
        assert_eq!(started, vec![at(2, 3)]);
        assert!(d.world.is_generating(at(2, 3)));
        // asking again while the chunk is being generated queues it, but starts nothing
        d.world.load_chunk(at(2, 3));
        d.world.load_chunk(at(2, 3));
        assert_eq!(WorldPlugin::start_data_tasks(&mut d.world), vec![]);
    }
}

#[test]
fn loading_a_resident_chunk_does_nothing() {
    let mut d = Driver::new();
    d.world.load_chunk(at(0, 0));
    d.tick(true, true);
    assert!(d.world.is_loaded(at(0, 0)));
    d.world.load_chunk(at(0, 0));
    d.tick(true, true);
    assert_eq!(d.data_tasks_started, 1);
}

#[test]
fn unloading_an_absent_chunk_does_nothing() {
    let mut d = Driver::new();
    d.world.unload_chunk(at(0, 0));
    d.world.load_chunk(at(0, 0));
    d.tick(true, true);
    d.tick(true, true);
    assert!(d.world.is_loaded(at(0, 0)));
    assert_eq!(d.shown_for(at(0, 0)).len(), 2);
}

#[test]
fn a_chunk_goes_from_asked_for_to_shown() {
    let mut d = Driver::new();
    let p = at(1, -1);
    d.world.load_chunk(p);
    assert!(!d.world.is_generating(p) && !d.world.is_loaded(p));

    d.tick(false, false);
    assert!(d.world.is_generating(p) && !d.world.is_loaded(p));
    assert_eq!(d.generating, vec![p]);

    d.tick(true, false);
    assert!(!d.world.is_generating(p) && d.world.is_loaded(p));
    assert_eq!(d.world.chunk(p).unwrap().sections.len(), 2);
    assert!(d.world.is_meshing(p, 0) && d.world.is_meshing(p, 1) && !d.world.is_meshing(p, 2));
    assert_eq!(d.meshing.len(), 2);
    assert_eq!((d.meshing[0].pos, d.meshing[0].section_y), (p, 0));
    assert_eq!((d.meshing[1].pos, d.meshing[1].section_y), (p, 1));
    assert_eq!(d.world.section_entity(p, 0), None);

    d.tick(true, true);
    assert!(!d.world.is_meshing(p, 0) && !d.world.is_meshing(p, 1));
    assert_eq!(d.world.section_entity(p, 0), Some(1));
    assert_eq!(d.world.section_entity(p, 1), Some(2));
    assert_eq!(d.shown.len(), 2);
    d.check_entities();

    // and back: data goes first, the meshes one round later
    d.world.unload_chunk(p);
    d.tick(true, true);
    assert!(!d.world.is_loaded(p));
    assert_eq!(d.shown.len(), 2);
    d.tick(true, true);
    assert_eq!(d.shown.len(), 0);
    assert_eq!(d.world.section_entity(p, 0), None);
    assert_eq!(d.world.section_entity(p, 1), None);
}

#[test]
fn observer_at_origin_loads_thirteen_chunks() {
    let mut d = Driver::new();
    let mut loader = ChunkLoader::new(2);
    ChunkLoaderPlugin::update_chunks(&mut loader, IVec3::new(0, 0, 0), &mut d.world);
    for _ in 0..5 {
        d.tick(true, true);
    }
    let mut loaded = 0;
    for x in -4..=4 {
        for z in -4..=4 {
            let inside = x * x + z * z <= 4;
            assert_eq!(d.world.is_loaded(at(x, z)), inside);
            assert_eq!(d.shown_for(at(x, z)).len(), if inside { 2 } else { 0 });
            if inside {
                loaded += 1;
            }
        }
    }
    assert_eq!(loaded, 13);
    assert_eq!(d.data_tasks_started, 13);
    assert_eq!(d.shown.len(), 26);
    d.check_entities();
}

#[test]
fn observer_steps_one_chunk_east() {
    let mut d = Driver::new();
    let mut loader = ChunkLoader::new(2);
    ChunkLoaderPlugin::update_chunks(&mut loader, IVec3::new(0, 0, 0), &mut d.world);
    for _ in 0..3 {
        d.tick(true, true);
    }
    let (loads, unloads) = ChunkLoaderPlugin::update_chunks(&mut loader, IVec3::new(1, 0, 0), &mut d.world);
    assert_eq!(loads.len(), 5);
    assert_eq!(unloads.len(), 5);
    for _ in 0..3 {
        d.tick(true, true);
    }
    assert_eq!(d.data_tasks_started, 18);
    let wanted = get_chunks_in_radius(at(1, 0), 2);
    for x in -4..=5 {
        for z in -4..=4 {
            let inside = wanted.contains(&at(x, z));
            assert_eq!(d.world.is_loaded(at(x, z)), inside);
            assert_eq!(d.shown_for(at(x, z)).len(), if inside { 2 } else { 0 });
        }
    }
    assert_eq!(d.shown.len(), 26);
    d.check_entities();
}

#[test]
fn load_then_unload_in_one_round_leaves_nothing() {
    for finish_meshes_at_once in [true, false] {
        let mut d = Driver::new();
        let p = at(4, 4);
        d.world.load_chunk(p);
        d.world.unload_chunk(p);
        d.tick(true, finish_meshes_at_once);
        for _ in 0..5 {
            d.tick(true, true);
        }
        assert!(!d.world.is_loaded(p));
        assert!(!d.world.is_generating(p));
        assert!(!d.world.is_meshing(p, 0) && !d.world.is_meshing(p, 1));
        assert_eq!(d.world.section_entity(p, 0), None);
        assert_eq!(d.world.section_entity(p, 1), None);
        assert_eq!(d.shown.len(), 0);
        assert_eq!(d.data_tasks_started, 1);
    }
}

#[test]
fn load_then_unload_with_slow_generation_keeps_the_chunk() {
    // the request to unload is worked off while the chunk is still being generated
    let mut d = Driver::new();
    let p = at(4, 4);
    d.world.load_chunk(p);
    d.world.unload_chunk(p);
    d.tick(false, false);
    for _ in 0..5 {
        d.tick(true, true);
    }
    assert!(d.world.is_loaded(p));
    assert_eq!(d.shown_for(p).len(), 2);
}

#[test]
fn unload_then_load_in_one_round_is_a_fresh_load() {
    let p = at(-3, 2);
    let mut fresh = Driver::new();
    fresh.world.load_chunk(p);
    let mut d = Driver::new();
    d.world.unload_chunk(p);
    d.world.load_chunk(p);
    for _ in 0..5 {
        fresh.tick(true, true);
        d.tick(true, true);
    }
    assert!(d.world.is_loaded(p));
    assert_eq!(d.shown_for(p).len(), 2);
    assert_eq!(d.shown_for(p), fresh.shown_for(p));
    assert_eq!(d.shown.len(), fresh.shown.len());
    assert_eq!(d.data_tasks_started, 1);
    d.check_entities();
}

#[test]
fn a_mesh_that_comes_back_late_is_dropped() {
    let mut d = Driver::new();
    let p = at(0, 0);
    d.world.load_chunk(p);
    d.tick(true, false);
    assert_eq!(d.meshing.len(), 2);
    d.world.unload_chunk(p);
    d.tick(true, false);
    assert!(!d.world.is_loaded(p));
    assert!(!d.world.is_meshing(p, 0));
    // the meshes arrive after the chunk has gone
    d.tick(true, true);
    assert_eq!(d.shown.len(), 0);
    assert_eq!(d.world.section_entity(p, 0), None);
    d.tick(true, true);
    assert_eq!(d.shown.len(), 0);
}

#[test]
fn data_that_was_not_asked_for_is_dropped() {
    let mut world = World::new();
    WorldPlugin::join_data_tasks(&mut world, vec![(at(1, 1), WorldPlugin::generate_chunk_at(at(1, 1)))]);
    assert!(!world.is_loaded(at(1, 1)));
    assert_eq!(WorldPlugin::start_mesh_tasks(&mut world).len(), 0);
    let updates = WorldPlugin::join_mesh_tanks(&mut world, vec![(at(1, 1), 0, None)]);
    assert_eq!(updates.len(), 0);
    assert_eq!(world.insert_section_entity(at(1, 1), 0, 77), Some(77));
    assert_eq!(world.section_entity(at(1, 1), 0), None);
}

#[test]
fn a_section_without_faces_takes_down_what_was_shown() {
    let mut d = Driver::new();
    let p = at(0, 0);
    d.world.load_chunk(p);
    d.tick(true, true);
    assert_eq!(d.world.section_entity(p, 0), Some(1));
    // section 0 is meshed again and turns out to show nothing
    d.world.unload_chunk(p);
    d.tick(true, true);
    d.tick(true, true);
    d.world.load_chunk(p);
    d.tick(true, false);
    assert_eq!(d.world.insert_section_entity(p, 0, 500), None);
    assert_eq!(d.world.insert_section_entity(p, 0, 501), Some(500));
    assert_eq!(d.world.insert_section_entity(p, 2, 502), Some(502));
    let updates = WorldPlugin::join_mesh_tanks(&mut d.world, vec![(p, 0, None), (p, 0, None)]);
    assert_eq!(updates.len(), 1);
    assert_eq!((updates[0].pos, updates[0].section_y), (p, 0));
    assert_eq!(updates[0].despawn, Some(501));
    assert!(updates[0].mesh.is_none());
    assert_eq!(d.world.section_entity(p, 0), None);
    assert!(!d.world.is_meshing(p, 0));
    assert!(d.world.is_meshing(p, 1));
}

#[test]
fn a_new_mesh_replaces_the_old_one() {
    let mut d = Driver::new();
    d.filled = true;
    d.world.load_chunk(at(0, 0));
    d.tick(true, true);
    assert_eq!(d.shown_for(at(0, 0))[0].1.vertices.len(), 24);
    let first = d.world.section_entity(at(0, 0), 0).unwrap();
    // the chunk goes and comes back beside a new neighbour
    d.world.unload_chunk(at(0, 0));
    d.tick(true, true);
    d.tick(true, true);
    d.world.load_chunk(at(0, 0));
    d.world.load_chunk(at(1, 0));
    d.tick(true, true);
    let second = d.world.section_entity(at(0, 0), 0).unwrap();
    assert_ne!(first, second);
    assert!(!d.shown.contains_key(&first));
    assert_eq!(d.shown.len(), 2);
    d.check_entities();
}

#[test]
fn adjacent_filled_chunks_show_no_face_between_them() {
    let mut d = Driver::new();
    d.filled = true;
    d.world.load_chunk(at(0, 0));
    d.world.load_chunk(at(1, 0));
    d.tick(true, true);
    let west = &d.shown_for(at(0, 0))[0].1;
    let east = &d.shown_for(at(1, 0))[0].1;
    assert_eq!(west.vertices.len(), 20);
    assert_eq!(east.vertices.len(), 20);
    assert!(!west.normals.contains(&IVec3::new(1, 0, 0)));
    assert!(!east.normals.contains(&IVec3::new(-1, 0, 0)));
    assert!(west.normals.contains(&IVec3::new(-1, 0, 0)));
    assert!(east.normals.contains(&IVec3::new(1, 0, 0)));
}

#[test]
fn a_neighbour_that_comes_later_is_not_seen_by_the_older_mesh() {
    let mut d = Driver::new();
    d.filled = true;
    d.world.load_chunk(at(0, 0));
    d.tick(true, true);
    d.world.load_chunk(at(1, 0));
    d.tick(true, true);
    assert_eq!(d.shown_for(at(0, 0))[0].1.vertices.len(), 24);
    assert_eq!(d.shown_for(at(1, 0))[0].1.vertices.len(), 20);
}
