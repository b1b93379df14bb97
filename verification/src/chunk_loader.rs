//! Observers: which chunks an observer wants resident, and what it asks of
//! the resident set when it moves.

use crate::chunk::{ChunkPos, CHUNK_SIZE};
use crate::math::{IVec2, IVec3};
use crate::world::World;
use std::collections::HashSet;
use vstd::prelude::*;

verus! {

broadcast use vstd::std_specs::hash::group_hash_axioms;

/// Whether the chunk at `pos` lies within `radius` chunks of `center`, by
/// Euclidean distance. No chunk lies within a negative radius.
pub open spec fn in_radius(center: ChunkPos, radius: int, pos: ChunkPos) -> bool {
    radius >= 0 && pos.0.spec_distance_squared(center.0) <= radius * radius
}

/// The order in which chunks around `center` are loaded: the nearer chunk
/// first, and of two chunks at the same distance the one with the lower x,
/// then the one with the lower z.
pub open spec fn loads_before(center: ChunkPos, a: ChunkPos, b: ChunkPos) -> bool {
    let da = a.0.spec_distance_squared(center.0);
    let db = b.0.spec_distance_squared(center.0);
    da < db || (da == db && (a.0.x < b.0.x || (a.0.x == b.0.x && a.0.y < b.0.y)))
}

/// Whether a list of chunks is in loading order around `center`. Such a
/// list holds no chunk twice.
pub open spec fn in_loading_order(center: ChunkPos, chunks: Seq<ChunkPos>) -> bool {
    forall|i: int, j: int|
        0 <= i < j < chunks.len() ==> loads_before(center, #[trigger] chunks[i], #[trigger] chunks[j])
}

/// Whether `chunks` is the list of the chunks within `radius` of `center`,
/// in loading order.
pub open spec fn is_chunks_in_radius(center: ChunkPos, radius: int, chunks: Seq<ChunkPos>) -> bool {
    &&& in_loading_order(center, chunks)
    &&& forall|pos: ChunkPos| chunks.contains(pos) <==> in_radius(center, radius, pos)
}

/// A point within a radius is within it along each axis.
proof fn lemma_radius_bounds(dx: int, dz: int, r: int)
    by (nonlinear_arith)
    requires
        r >= 0,
        dx * dx + dz * dz <= r * r,
    ensures
        -r <= dx <= r,
        -r <= dz <= r,
{
}

/// Squares of numbers of bounded size are bounded.
proof fn lemma_square_bound(x: int, r: int)
    by (nonlinear_arith)
    requires
        -r <= x <= r,
        r <= 0x7fff_ffff,
    ensures
        0 <= x * x <= r * r,
        r * r <= 0x3fff_ffff_0000_0001,
{
}

/// Whether the offset `(ax, az)` comes before `(bx, bz)` when offsets are
/// walked by x, then z.
pub open spec fn offset_before(ax: int, az: int, bx: int, bz: int) -> bool {
    ax < bx || (ax == bx && az < bz)
}

/// Puts `pos` into a list in loading order, behind every chunk that is no
/// farther from the centre.
fn insert_in_order(chunks: &mut Vec<ChunkPos>, center: ChunkPos, pos: ChunkPos)
    requires
        in_loading_order(center, old(chunks)@),
        forall|i: int|
            0 <= i < old(chunks)@.len() ==> offset_before(
                (#[trigger] old(chunks)@[i]).0.x as int,
                old(chunks)@[i].0.y as int,
                pos.0.x as int,
                pos.0.y as int,
            ),
    ensures
        in_loading_order(center, final(chunks)@),
        forall|q: ChunkPos| final(chunks)@.contains(q) <==> (old(chunks)@.contains(q) || q == pos),
{
    let key = pos.0.distance_squared(center.0);
    let mut i: usize = 0;
    while i < chunks.len() && chunks[i].0.distance_squared(center.0) <= key
        invariant
            i <= chunks@.len(),
            chunks@ == old(chunks)@,
            key == pos.0.spec_distance_squared(center.0),
            forall|j: int|
                0 <= j < i ==> (#[trigger] chunks@[j]).0.spec_distance_squared(center.0) <= key,
        decreases chunks@.len() - i,
    {
        i += 1;
    }
    chunks.insert(i, pos);
    proof {
        let before = old(chunks)@;
        let after = chunks@;
        assert forall|a: int, b: int| 0 <= a < b < after.len() implies loads_before(
            center,
            #[trigger] after[a],
            #[trigger] after[b],
        ) by {
            if b < i {
                assert(after[a] == before[a] && after[b] == before[b]);
            } else if b == i {
                assert(after[a] == before[a]);
            } else if a == i {
                assert(after[b] == before[b - 1]);
                if i < b - 1 {
                    assert(loads_before(center, before[i as int], before[b - 1]));
                }
            } else if a < i {
                assert(after[a] == before[a] && after[b] == before[b - 1]);
            } else {
                assert(after[a] == before[a - 1] && after[b] == before[b - 1]);
            }
        }
        assert forall|q: ChunkPos| after.contains(q) <==> (before.contains(q) || q == pos) by {
            if after.contains(q) {
                let k = choose|k: int| 0 <= k < after.len() && after[k] == q;
                if k < i {
                    assert(before[k] == q);
                } else if k > i {
                    assert(before[k - 1] == q);
                }
            }
            if before.contains(q) {
                let k = choose|k: int| 0 <= k < before.len() && before[k] == q;
                if k < i {
                    assert(after[k] == q);
                } else {
                    assert(after[k + 1] == q);
                }
            }
            if q == pos {
                assert(after[i as int] == q);
            }
        }
    }
}

/// The chunks within `radius` chunks of `center`, in loading order:
/// nearest first.
pub fn get_chunks_in_radius(center: ChunkPos, radius: i32) -> (chunks: Vec<ChunkPos>)
    ensures
        is_chunks_in_radius(center, radius as int, chunks@),
{
    let mut chunks: Vec<ChunkPos> = Vec::new();
    if radius < 0 {
        return chunks;
    }
    let r: i64 = radius as i64;
    proof {
        lemma_square_bound(r as int, r as int);
    }
    let radius_sq: i64 = r * r;
    let cx: i64 = center.0.x as i64;
    let cz: i64 = center.0.y as i64;
    let mut x: i64 = -r;
    proof {
        assert forall|q: ChunkPos|
            chunks@.contains(q) <==> (in_radius(center, r as int, q) && offset_before(
                q.0.x - cx,
                q.0.y - cz,
                x as int,
                -r as int,
            )) by {
            if in_radius(center, r as int, q) {
                lemma_radius_bounds(q.0.x - cx, q.0.y - cz, r as int);
            }
        }
    }
    while x <= r
        invariant
            0 <= r <= 0x7fff_ffff,
            radius == r,
            radius_sq == r * r,
            cx == center.0.x,
            cz == center.0.y,
            -r <= x <= r + 1,
            in_loading_order(center, chunks@),
            forall|q: ChunkPos|
                chunks@.contains(q) <==> (in_radius(center, r as int, q) && offset_before(
                    q.0.x - cx,
                    q.0.y - cz,
                    x as int,
                    -r as int,
                )),
        decreases r + 1 - x,
    {
        let mut z: i64 = -r;
        while z <= r
            invariant
                0 <= r <= 0x7fff_ffff,
                radius == r,
                radius_sq == r * r,
                cx == center.0.x,
                cz == center.0.y,
                -r <= x <= r,
                -r <= z <= r + 1,
                in_loading_order(center, chunks@),
                forall|q: ChunkPos|
                    chunks@.contains(q) <==> (in_radius(center, r as int, q) && offset_before(
                        q.0.x - cx,
                        q.0.y - cz,
                        x as int,
                        z as int,
                    )),
            decreases r + 1 - z,
        {
            proof {
                lemma_square_bound(x as int, r as int);
                lemma_square_bound(z as int, r as int);
            }
            let dist_sq: i64 = x * x + z * z;
            let px: i64 = cx + x;
            let pz: i64 = cz + z;
            let ghost before = chunks@;
            if dist_sq <= radius_sq && -0x8000_0000 <= px && px <= 0x7fff_ffff && -0x8000_0000
                <= pz && pz <= 0x7fff_ffff {
                let pos = ChunkPos(IVec2 { x: px as i32, y: pz as i32 });
                proof {
                    assert forall|i: int| 0 <= i < chunks@.len() implies offset_before(
                        (#[trigger] chunks@[i]).0.x as int,
                        chunks@[i].0.y as int,
                        pos.0.x as int,
                        pos.0.y as int,
                    ) by {
                        assert(chunks@.contains(chunks@[i]));
                    }
                }
                insert_in_order(&mut chunks, center, pos);
            }
            proof {
                assert forall|q: ChunkPos|
                    chunks@.contains(q) <==> (in_radius(center, r as int, q) && offset_before(
                        q.0.x - cx,
                        q.0.y - cz,
                        x as int,
                        z + 1,
                    )) by {
                    assert(before.contains(q) <==> (in_radius(center, r as int, q)
                        && offset_before(q.0.x - cx, q.0.y - cz, x as int, z as int)));
                }
            }
            z += 1;
        }
        proof {
            assert forall|q: ChunkPos|
                chunks@.contains(q) <==> (in_radius(center, r as int, q) && offset_before(
                    q.0.x - cx,
                    q.0.y - cz,
                    x + 1,
                    -r as int,
                )) by {
                if in_radius(center, r as int, q) {
                    lemma_radius_bounds(q.0.x - cx, q.0.y - cz, r as int);
                }
            }
        }
        x += 1;
    }
    proof {
        assert forall|q: ChunkPos| chunks@.contains(q) <==> in_radius(center, r as int, q) by {
            if in_radius(center, r as int, q) {
                lemma_radius_bounds(q.0.x - cx, q.0.y - cz, r as int);
            }
        }
    }
    chunks
}


/// The keys of the chunks of a list.
fn key_set(chunks: &Vec<ChunkPos>) -> (keys: HashSet<u64>)
    ensures
        forall|pos: ChunkPos| keys@.contains(pos.spec_key()) <==> chunks@.contains(pos),
{
    let mut keys: HashSet<u64> = HashSet::new();
    let mut i: usize = 0;
    while i < chunks.len()
        invariant
            i <= chunks@.len(),
            forall|pos: ChunkPos|
                keys@.contains(pos.spec_key()) <==> exists|j: int|
                    0 <= j < i && chunks@[j] == pos,
        decreases chunks@.len() - i,
    {
        let ghost before = keys@;
        keys.insert(chunks[i].key());
        proof {
            assert forall|pos: ChunkPos|
                keys@.contains(pos.spec_key()) <==> exists|j: int|
                    0 <= j < i + 1 && chunks@[j] == pos by {
                if keys@.contains(pos.spec_key()) {
                    if before.contains(pos.spec_key()) {
                        let j = choose|j: int| 0 <= j < i && chunks@[j] == pos;
                        assert(0 <= j < i + 1 && chunks@[j] == pos);
                    } else {
                        assert(pos.spec_key() == chunks@[i as int].spec_key());
                        assert(chunks@[i as int] == pos);
                    }
                }
                if exists|j: int| 0 <= j < i + 1 && chunks@[j] == pos {
                    let j = choose|j: int| 0 <= j < i + 1 && chunks@[j] == pos;
                    if j < i {
                        assert(before.contains(pos.spec_key()));
                    }
                }
            }
        }
        i += 1;
    }
    keys
}

/// An observer of the world: it wants resident every chunk within
/// `distance` chunks of the chunk it is in.
pub struct ChunkLoader {
    pub distance: i32,
    previous_chunk: IVec3,
}

impl ChunkLoader {
    /// The chunk in which the observer was when it was last looked at.
    pub closed spec fn spec_previous_chunk(&self) -> IVec3 {
        self.previous_chunk
    }

    /// How far, in chunks, the observer wants chunks resident: the field
    /// `distance`.
    pub closed spec fn spec_distance(&self) -> i32 {
        self.distance
    }

    /// How far, in chunks, the observer wants chunks resident.
    #[verifier::when_used_as_spec(spec_distance)]
    pub fn distance(&self) -> (distance: i32)
        ensures
            distance == self.spec_distance(),
    {
        self.distance
    }

    /// An observer that has not been looked at yet. It counts as having
    /// been far from anywhere, at `(9999, 9999, 9999)`.
    pub fn new(distance: i32) -> (loader: Self)
        ensures
            loader.spec_distance() == distance,
            loader.spec_previous_chunk() == (IVec3 { x: 9999, y: 9999, z: 9999 }),
    {
        Self { distance, previous_chunk: IVec3::splat(9999) }
    }

    /// The chunk in which the observer was when it was last looked at.
    #[verifier::when_used_as_spec(spec_previous_chunk)]
    pub fn previous_chunk(&self) -> (pos: IVec3)
        ensures
            pos == self.spec_previous_chunk(),
    {
        self.previous_chunk
    }
}

impl Default for ChunkLoader {
    /// An observer at the origin that wants nothing but its own chunk.
    fn default() -> (loader: Self)
        ensures
            loader.spec_distance() == 0,
            loader.spec_previous_chunk() == (IVec3 { x: 0, y: 0, z: 0 }),
    {
        Self { distance: 0, previous_chunk: IVec3 { x: 0, y: 0, z: 0 } }
    }
}

/// Whether `chunks` is the list, in loading order around `center`, of the
/// chunks within `radius` of `center` that are not within `radius` of
/// `other`.
pub open spec fn is_radius_difference(
    center: ChunkPos,
    other: ChunkPos,
    radius: int,
    chunks: Seq<ChunkPos>,
) -> bool {
    &&& in_loading_order(center, chunks)
    &&& forall|pos: ChunkPos|
        chunks.contains(pos) <==> (in_radius(center, radius, pos) && !in_radius(other, radius, pos))
}

/// The chunks of a list in loading order that are not in a set of keys.
fn chunks_not_in(chunks: &Vec<ChunkPos>, center: ChunkPos, keys: &HashSet<u64>) -> (rest: Vec<
    ChunkPos,
>)
    requires
        in_loading_order(center, chunks@),
    ensures
        in_loading_order(center, rest@),
        forall|pos: ChunkPos|
            rest@.contains(pos) <==> (chunks@.contains(pos) && !keys@.contains(pos.spec_key())),
{
    let mut rest: Vec<ChunkPos> = Vec::new();
    let mut i: usize = 0;
    while i < chunks.len()
        invariant
            i <= chunks@.len(),
            in_loading_order(center, chunks@),
            in_loading_order(center, rest@),
            forall|a: int, j: int|
                0 <= a < rest@.len() && i <= j < chunks@.len() ==> loads_before(
                    center,
                    #[trigger] rest@[a],
                    #[trigger] chunks@[j],
                ),
            forall|pos: ChunkPos|
                rest@.contains(pos) <==> ((exists|j: int| 0 <= j < i && chunks@[j] == pos)
                    && !keys@.contains(pos.spec_key())),
        decreases chunks@.len() - i,
    {
        let pos = chunks[i];
        let ghost before = rest@;
        if !keys.contains(&pos.key()) {
            rest.push(pos);
        }
        proof {
            assert forall|q: ChunkPos|
                rest@.contains(q) <==> ((exists|j: int| 0 <= j < i + 1 && chunks@[j] == q)
                    && !keys@.contains(q.spec_key())) by {
                if rest@.contains(q) {
                    let k = choose|k: int| 0 <= k < rest@.len() && rest@[k] == q;
                    if k < before.len() {
                        assert(before[k] == q);
                        assert(before.contains(q));
                        let j = choose|j: int| 0 <= j < i && chunks@[j] == q;
                        assert(0 <= j < i + 1 && chunks@[j] == q);
                    } else {
                        assert(chunks@[i as int] == q);
                    }
                }
                if (exists|j: int| 0 <= j < i + 1 && chunks@[j] == q) && !keys@.contains(
                    q.spec_key(),
                ) {
                    let j = choose|j: int| 0 <= j < i + 1 && chunks@[j] == q;
                    if j < i {
                        assert(before.contains(q));
                        let k = choose|k: int| 0 <= k < before.len() && before[k] == q;
                        assert(rest@[k] == q);
                    } else {
                        assert(rest@[before.len() as int] == q);
                    }
                }
            }
        }
        i += 1;
    }
    proof {
        assert forall|pos: ChunkPos|
            rest@.contains(pos) <==> (chunks@.contains(pos) && !keys@.contains(
                pos.spec_key(),
            )) by {
            if chunks@.contains(pos) {
                let j = choose|j: int| 0 <= j < chunks@.len() && chunks@[j] == pos;
                assert(0 <= j < i && chunks@[j] == pos);
            }
        }
    }
    rest
}

/// The coordinate, in chunks, of a coordinate in voxels: the voxel's
/// coordinate divided by the edge of a chunk, rounded down.
fn chunk_coordinate(voxel: i32) -> (chunk: i32)
    ensures
        chunk == voxel as int / 16,
{
    if voxel >= 0 {
        voxel / CHUNK_SIZE
    } else {
        (voxel + 1) / CHUNK_SIZE - 1
    }
}

/// The step that looks at the observers.
pub struct ChunkLoaderPlugin;

impl ChunkLoaderPlugin {
    /// The chunk, with its height in chunks, in which the voxel at
    /// `position` lies: each coordinate divided by the edge of a chunk,
    /// rounded down.
    pub fn chunk_of(position: IVec3) -> (chunk: IVec3)
        ensures
            chunk.x == position.x as int / 16,
            chunk.y == position.y as int / 16,
            chunk.z == position.z as int / 16,
    {
        IVec3 {
            x: chunk_coordinate(position.x),
            y: chunk_coordinate(position.y),
            z: chunk_coordinate(position.z),
        }
    }

    /// Looks at an observer that is now in the chunk `current_chunk`.
    ///
    /// Where the observer has not left the chunk in which it was last
    /// seen, nothing happens. Otherwise the resident set is asked to load,
    /// nearest first, every chunk that is within the observer's distance
    /// of the new chunk and was not within it of the old one, and then to
    /// unload every chunk that was within it of the old chunk and is not
    /// of the new one. Chunks within the distance of both are left alone.
    /// The chunks asked for, and those given up, are returned.
    pub fn update_chunks(loader: &mut ChunkLoader, current_chunk: IVec3, world: &mut World) -> (delta:
        (Vec<ChunkPos>, Vec<ChunkPos>))
        ensures
            final(loader).spec_distance() == old(loader).spec_distance(),
            final(loader).spec_previous_chunk() == current_chunk,
            current_chunk == old(loader).spec_previous_chunk() ==> delta.0@.len() == 0
                && delta.1@.len() == 0,
            current_chunk != old(loader).spec_previous_chunk() ==> is_radius_difference(
                ChunkPos(IVec2 { x: current_chunk.x, y: current_chunk.z }),
                ChunkPos(
                    IVec2 {
                        x: old(loader).spec_previous_chunk().x,
                        y: old(loader).spec_previous_chunk().z,
                    },
                ),
                old(loader).spec_distance() as int,
                delta.0@,
            ) && is_radius_difference(
                ChunkPos(
                    IVec2 {
                        x: old(loader).spec_previous_chunk().x,
                        y: old(loader).spec_previous_chunk().z,
                    },
                ),
                ChunkPos(IVec2 { x: current_chunk.x, y: current_chunk.z }),
                old(loader).spec_distance() as int,
                delta.1@,
            ),
            final(world)@ == old(world)@.load_chunks(delta.0@).unload_chunks(delta.1@),
            old(world).wf() ==> final(world).wf(),
    {
        let previous_chunk = loader.previous_chunk;
        let has_moved = current_chunk != previous_chunk;
        loader.previous_chunk = current_chunk;
        if !has_moved {
            return (Vec::new(), Vec::new());
        }
        let here = ChunkPos(current_chunk.xz());
        let there = ChunkPos(previous_chunk.xz());
        let desired = get_chunks_in_radius(here, loader.distance);
        let previous = get_chunks_in_radius(there, loader.distance);
        let chunks_to_load = key_set(&desired);
        let chunks_to_unload = key_set(&previous);
        let loads = chunks_not_in(&desired, here, &chunks_to_unload);
        let unloads = chunks_not_in(&previous, there, &chunks_to_load);
        proof {
            let radius = loader.distance as int;
            assert forall|pos: ChunkPos|
                loads@.contains(pos) <==> (in_radius(here, radius, pos) && !in_radius(
                    there,
                    radius,
                    pos,
                )) by {
                assert(chunks_to_unload@.contains(pos.spec_key()) <==> previous@.contains(pos));
                assert(desired@.contains(pos) <==> in_radius(here, radius, pos));
                assert(previous@.contains(pos) <==> in_radius(there, radius, pos));
            }
            assert forall|pos: ChunkPos|
                unloads@.contains(pos) <==> (in_radius(there, radius, pos) && !in_radius(
                    here,
                    radius,
                    pos,
                )) by {
                assert(chunks_to_load@.contains(pos.spec_key()) <==> desired@.contains(pos));
                assert(desired@.contains(pos) <==> in_radius(here, radius, pos));
                assert(previous@.contains(pos) <==> in_radius(there, radius, pos));
            }
            assert(is_radius_difference(here, there, radius, loads@));
            assert(is_radius_difference(there, here, radius, unloads@));
        }

        let mut i: usize = 0;
        while i < loads.len()
            invariant
                i <= loads@.len(),
                world@ == old(world)@.load_chunks(loads@.take(i as int)),
                old(world).wf() ==> world.wf(),
            decreases loads@.len() - i,
        {
            assert(loads@.take(i + 1).drop_last() =~= loads@.take(i as int));
            world.load_chunk(loads[i]);
            i += 1;
        }
        assert(loads@.take(loads@.len() as int) =~= loads@);
        let ghost loaded = world@;
        let mut i: usize = 0;
        while i < unloads.len()
            invariant
                i <= unloads@.len(),
                world@ == loaded.unload_chunks(unloads@.take(i as int)),
                old(world).wf() ==> world.wf(),
            decreases unloads@.len() - i,
        {
            assert(unloads@.take(i + 1).drop_last() =~= unloads@.take(i as int));
            world.unload_chunk(unloads[i]);
            i += 1;
        }
        assert(unloads@.take(unloads@.len() as int) =~= unloads@);
        (loads, unloads)
    }
}

/// A move of an observer asks for exactly the chunks that are within its
/// distance of one of the two chunks and not of the other: those of the
/// new chunk alone are loaded, those of the old chunk alone unloaded, and
/// no chunk within the distance of both is touched.
pub proof fn lemma_loader_diff(
    current: ChunkPos,
    previous: ChunkPos,
    radius: int,
    loads: Seq<ChunkPos>,
    unloads: Seq<ChunkPos>,
)
    requires
        is_radius_difference(current, previous, radius, loads),
        is_radius_difference(previous, current, radius, unloads),
    ensures
        forall|pos: ChunkPos|
            (loads.contains(pos) || unloads.contains(pos)) <==> (in_radius(current, radius, pos)
                != in_radius(previous, radius, pos)),
        forall|pos: ChunkPos| !(loads.contains(pos) && unloads.contains(pos)),
        forall|pos: ChunkPos|
            in_radius(current, radius, pos) && in_radius(previous, radius, pos) ==> !loads.contains(
                pos,
            ) && !unloads.contains(pos),
        loads.no_duplicates(),
        unloads.no_duplicates(),
{
    lemma_loading_order_no_duplicates(current, loads);
    lemma_loading_order_no_duplicates(previous, unloads);
}

/// A list in loading order holds no chunk twice.
pub proof fn lemma_loading_order_no_duplicates(center: ChunkPos, chunks: Seq<ChunkPos>)
    requires
        in_loading_order(center, chunks),
    ensures
        chunks.no_duplicates(),
{
    assert forall|i: int, j: int| 0 <= i < chunks.len() && 0 <= j < chunks.len() && i
        != j implies chunks[i] != chunks[j] by {
        if i < j {
            assert(loads_before(center, chunks[i], chunks[j]));
        } else {
            assert(loads_before(center, chunks[j], chunks[i]));
        }
    }
}

/// Two lists in loading order around the same centre that hold the same
/// chunks are the same list.
pub proof fn lemma_loading_order_unique(center: ChunkPos, a: Seq<ChunkPos>, b: Seq<ChunkPos>)
    requires
        in_loading_order(center, a),
        in_loading_order(center, b),
        forall|pos: ChunkPos| a.contains(pos) <==> b.contains(pos),
    ensures
        a == b,
    decreases a.len(),
{
    if a.len() == 0 {
        if b.len() > 0 {
            assert(b.contains(b[0]));
        }
        assert(a =~= b);
    } else {
        assert(a.contains(a[0]));
        assert(b.contains(a[0]));
        let m = choose|m: int| 0 <= m < b.len() && b[m] == a[0];
        assert(b.contains(b[0]));
        let k = choose|k: int| 0 <= k < a.len() && a[k] == b[0];
        if m > 0 && k > 0 {
            assert(loads_before(center, b[0], b[m]));
            assert(loads_before(center, a[0], a[k]));
        }
        assert(a[0] == b[0]);
        let a2 = a.drop_first();
        let b2 = b.drop_first();
        assert forall|pos: ChunkPos| a2.contains(pos) <==> b2.contains(pos) by {
            if a2.contains(pos) {
                let i = choose|i: int| 0 <= i < a2.len() && a2[i] == pos;
                assert(a[i + 1] == pos);
                assert(loads_before(center, a[0], a[i + 1]));
                assert(b.contains(pos));
                let j = choose|j: int| 0 <= j < b.len() && b[j] == pos;
                assert(b2[j - 1] == pos);
            }
            if b2.contains(pos) {
                let i = choose|i: int| 0 <= i < b2.len() && b2[i] == pos;
                assert(b[i + 1] == pos);
                assert(loads_before(center, b[0], b[i + 1]));
                assert(a.contains(pos));
                let j = choose|j: int| 0 <= j < a.len() && a[j] == pos;
                assert(a2[j - 1] == pos);
            }
        }
        assert forall|i: int, j: int| 0 <= i < j < a2.len() implies loads_before(
            center,
            #[trigger] a2[i],
            #[trigger] a2[j],
        ) by {
            assert(loads_before(center, a[i + 1], a[j + 1]));
        }
        assert forall|i: int, j: int| 0 <= i < j < b2.len() implies loads_before(
            center,
            #[trigger] b2[i],
            #[trigger] b2[j],
        ) by {
            assert(loads_before(center, b[i + 1], b[j + 1]));
        }
        lemma_loading_order_unique(center, a2, b2);
        assert(a =~= seq![a[0]] + a2);
        assert(b =~= seq![b[0]] + b2);
    }
}

} // verus!
