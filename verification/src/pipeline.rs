//! One round of the pipeline as a whole, and what holds of the resident
//! set over rounds.
//!
//! A round works off the queue of chunks to generate, takes the data that
//! has arrived, works off the queue of chunks to mesh, takes the meshes
//! that have arrived and records what shows them, takes down the meshes
//! that are queued for it, and drops the chunks that are queued for it.
//! What arrives in a round, and when, is up to the work that the caller
//! runs; the statements here hold whatever arrives.

use crate::block::Block;
use crate::chunk::ChunkPos;
use crate::world::{
    lemma_after_mesh_unloads, lemma_data_steps_keep_wf, lemma_mesh_steps_keep_wf,
    lemma_queues_keep_wf, lemma_requests_keep_wf, lemma_unload_meshes_keeps_wf, WorldView,
};
use vstd::prelude::*;

verus! {

/// What arrives in one round.
pub struct RoundEvents {
    /// The chunks whose generation has finished, with their data.
    pub data_done: Seq<(ChunkPos, Seq<Seq<Block>>)>,
    /// The sections whose meshing has finished.
    pub mesh_done: Seq<(ChunkPos, usize)>,
    /// The sections that have come to be shown, with the handles of what
    /// shows them.
    pub shown: Seq<(ChunkPos, usize, u64)>,
}

/// Whether the data of `pos` is among what arrives.
pub open spec fn data_arrives(data_done: Seq<(ChunkPos, Seq<Seq<Block>>)>, pos: ChunkPos) -> bool {
    exists|i: int| 0 <= i < data_done.len() && (#[trigger] data_done[i]).0 == pos
}

/// After all of `shown` has been recorded, in order.
pub open spec fn insert_section_entities(w: WorldView, shown: Seq<(ChunkPos, usize, u64)>) -> WorldView
    decreases shown.len(),
{
    if shown.len() == 0 {
        w
    } else {
        insert_section_entities(w, shown.drop_last()).insert_section_entity(
            shown.last().0,
            shown.last().1,
            shown.last().2,
        )
    }
}

/// The resident set after one round in which `events` arrive.
pub open spec fn round(w: WorldView, events: RoundEvents) -> WorldView {
    insert_section_entities(
        w.start_data_tasks().join_data_tasks(events.data_done).start_mesh_tasks().join_mesh_tasks(
            events.mesh_done,
        ),
        events.shown,
    ).unload_meshes().unload_data()
}

/// Whether nothing of the chunk at `pos` is left: it is not resident, not
/// being generated, not queued for generation, and none of its sections
/// is being meshed or shown.
pub open spec fn is_gone(w: WorldView, pos: ChunkPos) -> bool {
    &&& !w.loaded_chunks.contains_key(pos)
    &&& !w.data_tasks.contains(pos)
    &&& !w.data_to_load.contains(pos)
    &&& forall|y: usize| !w.mesh_tasks.contains((pos, y))
    &&& forall|y: usize| !w.section_entities.contains_key((pos, y))
}

/// Working off a queue of chunks to generate starts the generation of
/// each chunk of the queue that is neither resident nor being generated,
/// once, and of no other; it changes nothing but the registry of running
/// generation, to which it adds the chunks it starts.
pub proof fn lemma_data_starts(w: WorldView, queue: Seq<ChunkPos>)
    ensures
        w.data_starts(queue).no_duplicates(),
        forall|pos: ChunkPos| #[trigger]
            w.data_starts(queue).contains(pos) <==> (queue.contains(pos) && w.starts_data_task(
                pos,
            )),
        forall|pos: ChunkPos| #[trigger]
            w.after_data_starts(queue).data_tasks.contains(pos) <==> (w.data_tasks.contains(pos)
                || (queue.contains(pos) && w.starts_data_task(pos))),
        w.after_data_starts(queue) == (WorldView {
            data_tasks: w.after_data_starts(queue).data_tasks,
            ..w
        }),
    decreases queue.len(),
{
    let starts = w.data_starts(queue);
    let after = w.after_data_starts(queue);
    if queue.len() == 0 {
        assert forall|pos: ChunkPos| !queue.contains(pos) by {}
        assert forall|pos: ChunkPos| !starts.contains(pos) by {}
    } else {
        let front = queue.drop_last();
        let last = queue.last();
        lemma_data_starts(w, front);
        let before = w.after_data_starts(front);
        let starts_front = w.data_starts(front);
        assert(queue =~= front.push(last));
        assert(before.loaded_chunks == w.loaded_chunks);
        assert forall|pos: ChunkPos| queue.contains(pos) <==> (front.contains(pos) || pos
            == last) by {
            if queue.contains(pos) {
                let i = choose|i: int| 0 <= i < queue.len() && queue[i] == pos;
                if i < front.len() {
                    assert(front[i] == pos);
                }
            }
            if front.contains(pos) {
                let i = choose|i: int| 0 <= i < front.len() && front[i] == pos;
                assert(queue[i] == pos);
            }
            if pos == last {
                assert(queue[queue.len() - 1] == pos);
            }
        }
        // what the turns before the last one have done
        assert forall|pos: ChunkPos|
            before.data_tasks.contains(pos) == (w.data_tasks.contains(pos) || (front.contains(pos)
                && w.starts_data_task(pos))) by {
            assert(w.after_data_starts(front).data_tasks.contains(pos) <==> (w.data_tasks.contains(
                pos,
            ) || (front.contains(pos) && w.starts_data_task(pos))));
        }
        assert forall|pos: ChunkPos|
            starts_front.contains(pos) == (front.contains(pos) && w.starts_data_task(pos)) by {
            assert(w.data_starts(front).contains(pos) <==> (front.contains(pos)
                && w.starts_data_task(pos)));
        }
        if before.starts_data_task(last) {
            assert(!before.data_tasks.contains(last));
            assert(!starts_front.contains(last));
            assert(w.starts_data_task(last));
            assert(starts == starts_front.push(last));
            assert(after.data_tasks == before.data_tasks.insert(last));
            assert forall|pos: ChunkPos| starts.contains(pos) == (starts_front.contains(pos) || pos
                == last) by {
                if starts.contains(pos) {
                    let i = choose|i: int| 0 <= i < starts.len() && starts[i] == pos;
                    if i < starts_front.len() {
                        assert(starts_front[i] == pos);
                    }
                }
                if starts_front.contains(pos) {
                    let i = choose|i: int| 0 <= i < starts_front.len() && starts_front[i] == pos;
                    assert(starts[i] == pos);
                }
                if pos == last {
                    assert(starts[starts.len() - 1] == pos);
                }
            }
            assert forall|i: int, j: int|
                0 <= i < starts.len() && 0 <= j < starts.len() && i != j implies starts[i]
                != starts[j] by {
                if i == starts.len() - 1 {
                    assert(starts_front.contains(starts_front[j]));
                } else if j == starts.len() - 1 {
                    assert(starts_front.contains(starts_front[i]));
                } else {
                    assert(starts_front[i] != starts_front[j]);
                }
            }
        } else {
            assert(starts == starts_front);
            assert(after == before);
            assert(before.data_tasks.contains(last) || w.loaded_chunks.contains_key(last));
        }
        assert forall|pos: ChunkPos| #[trigger]
            starts.contains(pos) <==> (queue.contains(pos) && w.starts_data_task(pos)) by {
            assert(starts_front.contains(pos) == (front.contains(pos) && w.starts_data_task(pos)));
        }
        assert forall|pos: ChunkPos| #[trigger]
            after.data_tasks.contains(pos) <==> (w.data_tasks.contains(pos) || (queue.contains(pos)
                && w.starts_data_task(pos))) by {
            assert(before.data_tasks.contains(pos) == (w.data_tasks.contains(pos) || (
            front.contains(pos) && w.starts_data_task(pos))));
        }
    }
}

/// The list of `n` requests for the same chunk.
pub open spec fn repeated(pos: ChunkPos, n: nat) -> Seq<ChunkPos> {
    Seq::new(n, |i: int| pos)
}

/// Asking for a chunk any number of times is the same as asking once, and
/// the round that follows starts the generation of the chunk exactly once
/// where the chunk is neither resident nor being generated, and not at all
/// where it is. Either way the chunk is resident or being generated
/// afterwards.
pub proof fn lemma_repeated_load_starts_one_task(w: WorldView, pos: ChunkPos, n: nat)
    requires
        n >= 1,
    ensures
        w.load_chunks(repeated(pos, n)) == w.load_chunk(pos),
        ({
            let asked = w.load_chunks(repeated(pos, n));
            let started = asked.data_starts(asked.data_to_load);
            let after = asked.start_data_tasks();
            &&& started.no_duplicates()
            &&& started.contains(pos) <==> w.starts_data_task(pos)
            &&& after.loaded_chunks.contains_key(pos) || after.data_tasks.contains(pos)
        }),
    decreases n,
{
    let once = w.load_chunk(pos);
    if n > 1 {
        lemma_repeated_load_starts_one_task(w, pos, (n - 1) as nat);
        assert(repeated(pos, n).drop_last() =~= repeated(pos, (n - 1) as nat));
        assert(once.load_chunk(pos) == once) by {
            if !w.loaded_chunks.contains_key(pos) && !w.data_to_load.contains(pos) {
                assert(once.data_to_load[w.data_to_load.len() as int] == pos);
            }
        }
    } else {
        assert(repeated(pos, n).drop_last() =~= Seq::<ChunkPos>::empty());
        assert(w.load_chunks(Seq::<ChunkPos>::empty()) == w);
    }
    lemma_data_starts(once, once.data_to_load);
    if !w.loaded_chunks.contains_key(pos) {
        if !w.data_to_load.contains(pos) {
            assert(once.data_to_load[w.data_to_load.len() as int] == pos);
        }
        assert(once.data_to_load.contains(pos));
    }
}

/// Taking data that has arrived makes resident the chunks among it that
/// were being generated, and ends their generation; it changes nothing
/// else but the queue of chunks to mesh.
pub proof fn lemma_join_data_tasks(w: WorldView, data_done: Seq<(ChunkPos, Seq<Seq<Block>>)>)
    ensures
        ({
            let after = w.join_data_tasks(data_done);
            &&& forall|pos: ChunkPos| #[trigger]
                after.loaded_chunks.contains_key(pos) <==> (w.loaded_chunks.contains_key(pos) || (
                w.data_tasks.contains(pos) && data_arrives(data_done, pos)))
            &&& forall|pos: ChunkPos| #[trigger]
                after.data_tasks.contains(pos) <==> (w.data_tasks.contains(pos) && !data_arrives(
                    data_done,
                    pos,
                ))
            &&& forall|pos: ChunkPos| #[trigger]
                w.loaded_chunks.contains_key(pos) && !w.data_tasks.contains(pos)
                    ==> after.loaded_chunks[pos] == w.loaded_chunks[pos]
            &&& after.data_to_load == w.data_to_load
            &&& after.data_to_unload == w.data_to_unload
            &&& after.mesh_to_unload == w.mesh_to_unload
            &&& after.mesh_tasks == w.mesh_tasks
            &&& after.section_entities == w.section_entities
        }),
    decreases data_done.len(),
{
    let after = w.join_data_tasks(data_done);
    if data_done.len() == 0 {
        assert forall|pos: ChunkPos| !data_arrives(data_done, pos) by {}
    } else {
        let front = data_done.drop_last();
        let last = data_done.last();
        lemma_join_data_tasks(w, front);
        let before = w.join_data_tasks(front);
        assert forall|pos: ChunkPos|
            data_arrives(data_done, pos) <==> (data_arrives(front, pos) || last.0 == pos) by {
            if data_arrives(data_done, pos) {
                let i = choose|i: int|
                    0 <= i < data_done.len() && (#[trigger] data_done[i]).0 == pos;
                if i < front.len() {
                    assert(front[i].0 == pos);
                }
            }
            if data_arrives(front, pos) {
                let i = choose|i: int| 0 <= i < front.len() && (#[trigger] front[i]).0 == pos;
                assert(data_done[i].0 == pos);
            }
            if last.0 == pos {
                assert(data_done[data_done.len() - 1].0 == pos);
            }
        }
        assert forall|pos: ChunkPos| #[trigger]
            after.loaded_chunks.contains_key(pos) <==> (w.loaded_chunks.contains_key(pos) || (
            w.data_tasks.contains(pos) && data_arrives(data_done, pos))) by {
            assert(before.loaded_chunks.contains_key(pos) <==> (w.loaded_chunks.contains_key(pos)
                || (w.data_tasks.contains(pos) && data_arrives(front, pos))));
            assert(before.data_tasks.contains(pos) <==> (w.data_tasks.contains(pos)
                && !data_arrives(front, pos)));
        }
        assert forall|pos: ChunkPos| #[trigger]
            after.data_tasks.contains(pos) <==> (w.data_tasks.contains(pos) && !data_arrives(
                data_done,
                pos,
            )) by {
            assert(before.data_tasks.contains(pos) <==> (w.data_tasks.contains(pos)
                && !data_arrives(front, pos)));
        }
        assert forall|pos: ChunkPos| #[trigger]
            w.loaded_chunks.contains_key(pos) && !w.data_tasks.contains(pos)
                implies after.loaded_chunks[pos] == w.loaded_chunks[pos] by {
            assert(before.loaded_chunks.contains_key(pos));
            assert(!before.data_tasks.contains(pos));
        }
    }
}


/// Working off a queue of chunks to mesh starts the meshing of every
/// section of the chunks of the queue that are resident; it changes
/// nothing but the registry of running meshing.
pub proof fn lemma_after_mesh_starts(w: WorldView, queue: Seq<ChunkPos>)
    ensures
        ({
            let after = w.after_mesh_starts(queue);
            &&& forall|pos: ChunkPos, y: usize| #[trigger]
                after.mesh_tasks.contains((pos, y)) <==> (w.mesh_tasks.contains((pos, y)) || (
                queue.contains(pos) && w.has_section(pos, y)))
            &&& after == (WorldView { mesh_tasks: after.mesh_tasks, ..w })
        }),
    decreases queue.len(),
{
    let after = w.after_mesh_starts(queue);
    if queue.len() == 0 {
        assert forall|pos: ChunkPos| !queue.contains(pos) by {}
    } else {
        let front = queue.drop_last();
        let last = queue.last();
        lemma_after_mesh_starts(w, front);
        let before = w.after_mesh_starts(front);
        assert forall|pos: ChunkPos| queue.contains(pos) <==> (front.contains(pos) || pos
            == last) by {
            if queue.contains(pos) {
                let i = choose|i: int| 0 <= i < queue.len() && queue[i] == pos;
                if i < front.len() {
                    assert(front[i] == pos);
                }
            }
            if front.contains(pos) {
                let i = choose|i: int| 0 <= i < front.len() && front[i] == pos;
                assert(queue[i] == pos);
            }
            if pos == last {
                assert(queue[queue.len() - 1] == pos);
            }
        }
        assert forall|pos: ChunkPos, y: usize| #[trigger]
            after.mesh_tasks.contains((pos, y)) <==> (w.mesh_tasks.contains((pos, y)) || (
            queue.contains(pos) && w.has_section(pos, y))) by {
            assert(before.mesh_tasks.contains((pos, y)) <==> (w.mesh_tasks.contains((pos, y)) || (
            front.contains(pos) && w.has_section(pos, y))));
        }
    }
}

/// Taking meshes that have arrived only ends meshing and only takes
/// sections off show; it changes nothing else.
pub proof fn lemma_join_mesh_tasks(w: WorldView, mesh_done: Seq<(ChunkPos, usize)>)
    ensures
        ({
            let after = w.join_mesh_tasks(mesh_done);
            &&& forall|pos: ChunkPos, y: usize| #[trigger]
                after.mesh_tasks.contains((pos, y)) ==> w.mesh_tasks.contains((pos, y))
            &&& forall|pos: ChunkPos, y: usize| #[trigger]
                after.section_entities.contains_key((pos, y)) ==> w.section_entities.contains_key(
                    (pos, y),
                )
            &&& after == (WorldView {
                mesh_tasks: after.mesh_tasks,
                section_entities: after.section_entities,
                ..w
            })
        }),
    decreases mesh_done.len(),
{
    if mesh_done.len() > 0 {
        lemma_join_mesh_tasks(w, mesh_done.drop_last());
    }
}

/// Recording what shows sections puts on show only sections of resident
/// chunks; it changes nothing else.
pub proof fn lemma_insert_section_entities(w: WorldView, shown: Seq<(ChunkPos, usize, u64)>)
    ensures
        ({
            let after = insert_section_entities(w, shown);
            &&& forall|pos: ChunkPos, y: usize| #[trigger]
                after.section_entities.contains_key((pos, y)) ==> w.section_entities.contains_key(
                    (pos, y),
                ) || w.has_section(pos, y)
            &&& after == (WorldView { section_entities: after.section_entities, ..w })
        }),
    decreases shown.len(),
{
    if shown.len() > 0 {
        lemma_insert_section_entities(w, shown.drop_last());
    }
}

/// Working off a queue of chunks to drop drops the chunks of the queue
/// that are resident and forgets the meshing of their sections; it leaves
/// alone the other chunks, the generation that is running, and what is
/// shown.
pub proof fn lemma_after_data_unloads(w: WorldView, queue: Seq<ChunkPos>)
    ensures
        ({
            let after = w.after_data_unloads(queue);
            &&& forall|pos: ChunkPos| #[trigger]
                after.loaded_chunks.contains_key(pos) <==> (w.loaded_chunks.contains_key(pos)
                    && !queue.contains(pos))
            &&& forall|pos: ChunkPos| #[trigger]
                after.loaded_chunks.contains_key(pos) ==> after.loaded_chunks[pos]
                    == w.loaded_chunks[pos]
            &&& forall|pos: ChunkPos, y: usize| #[trigger]
                after.mesh_tasks.contains((pos, y)) ==> w.mesh_tasks.contains((pos, y)) && !(
                queue.contains(pos) && w.has_section(pos, y))
            &&& after.data_tasks == w.data_tasks
            &&& after.section_entities == w.section_entities
            &&& after.data_to_load == w.data_to_load
            &&& after.data_to_unload == w.data_to_unload
            &&& after.mesh_to_load == w.mesh_to_load
        }),
    decreases queue.len(),
{
    let after = w.after_data_unloads(queue);
    if queue.len() == 0 {
        assert forall|pos: ChunkPos| !queue.contains(pos) by {}
    } else {
        let front = queue.drop_last();
        let last = queue.last();
        lemma_after_data_unloads(w, front);
        let before = w.after_data_unloads(front);
        assert forall|pos: ChunkPos| queue.contains(pos) <==> (front.contains(pos) || pos
            == last) by {
            if queue.contains(pos) {
                let i = choose|i: int| 0 <= i < queue.len() && queue[i] == pos;
                if i < front.len() {
                    assert(front[i] == pos);
                }
            }
            if front.contains(pos) {
                let i = choose|i: int| 0 <= i < front.len() && front[i] == pos;
                assert(queue[i] == pos);
            }
            if pos == last {
                assert(queue[queue.len() - 1] == pos);
            }
        }
        assert forall|pos: ChunkPos| #[trigger]
            after.loaded_chunks.contains_key(pos) <==> (w.loaded_chunks.contains_key(pos)
                && !queue.contains(pos)) by {
            assert(before.loaded_chunks.contains_key(pos) <==> (w.loaded_chunks.contains_key(pos)
                && !front.contains(pos)));
        }
        assert forall|pos: ChunkPos| #[trigger]
            after.loaded_chunks.contains_key(pos) implies after.loaded_chunks[pos]
            == w.loaded_chunks[pos] by {
            assert(before.loaded_chunks.contains_key(pos));
        }
        assert forall|pos: ChunkPos, y: usize| #[trigger]
            after.mesh_tasks.contains((pos, y)) implies w.mesh_tasks.contains((pos, y)) && !(
        queue.contains(pos) && w.has_section(pos, y)) by {
            assert(before.mesh_tasks.contains((pos, y)));
            if queue.contains(pos) && w.has_section(pos, y) {
                if front.contains(pos) {
                } else {
                    assert(pos == last);
                    assert(before.loaded_chunks.contains_key(pos));
                    assert(before.has_section(pos, y));
                }
            }
        }
    }
}

/// Each phase of a round keeps the resident set consistent.
pub proof fn lemma_phases_keep_wf(
    w: WorldView,
    queue: Seq<ChunkPos>,
    data_done: Seq<(ChunkPos, Seq<Seq<Block>>)>,
    mesh_done: Seq<(ChunkPos, usize)>,
    shown: Seq<(ChunkPos, usize, u64)>,
)
    requires
        w.wf(),
        forall|i: int| 0 <= i < data_done.len() ==> (#[trigger] data_done[i]).1.len() <= usize::MAX,
    ensures
        w.after_data_starts(queue).wf(),
        w.join_data_tasks(data_done).wf(),
        w.after_mesh_starts(queue).wf(),
        w.join_mesh_tasks(mesh_done).wf(),
        insert_section_entities(w, shown).wf(),
        w.after_data_unloads(queue).wf(),
    decreases queue.len() + data_done.len() + mesh_done.len() + shown.len(),
{
    let none_pos = Seq::<ChunkPos>::empty();
    let none_data = Seq::<(ChunkPos, Seq<Seq<Block>>)>::empty();
    let none_mesh = Seq::<(ChunkPos, usize)>::empty();
    let none_shown = Seq::<(ChunkPos, usize, u64)>::empty();
    if queue.len() > 0 {
        lemma_phases_keep_wf(w, queue.drop_last(), none_data, none_mesh, none_shown);
        lemma_data_steps_keep_wf(w.after_data_starts(queue.drop_last()), queue.last(), Seq::empty());
        lemma_mesh_steps_keep_wf(w.after_mesh_starts(queue.drop_last()), queue.last(), 0, 0);
        lemma_mesh_steps_keep_wf(w.after_data_unloads(queue.drop_last()), queue.last(), 0, 0);
    }
    if data_done.len() > 0 {
        lemma_phases_keep_wf(w, none_pos, data_done.drop_last(), none_mesh, none_shown);
        lemma_data_steps_keep_wf(
            w.join_data_tasks(data_done.drop_last()),
            data_done.last().0,
            data_done.last().1,
        );
    }
    if mesh_done.len() > 0 {
        lemma_phases_keep_wf(w, none_pos, none_data, mesh_done.drop_last(), none_shown);
        lemma_mesh_steps_keep_wf(
            w.join_mesh_tasks(mesh_done.drop_last()),
            mesh_done.last().0,
            mesh_done.last().1,
            0,
        );
    }
    if shown.len() > 0 {
        lemma_phases_keep_wf(w, none_pos, none_data, none_mesh, shown.drop_last());
        lemma_mesh_steps_keep_wf(
            insert_section_entities(w, shown.drop_last()),
            shown.last().0,
            shown.last().1,
            shown.last().2,
        );
    }
}

/// Whether every chunk among the data that arrives has a number of
/// sections that can be counted.
pub open spec fn data_is_countable(data_done: Seq<(ChunkPos, Seq<Seq<Block>>)>) -> bool {
    forall|i: int| 0 <= i < data_done.len() ==> (#[trigger] data_done[i]).1.len() <= usize::MAX
}

/// A round keeps the resident set consistent, whatever arrives in it.
pub proof fn lemma_round_keeps_wf(w: WorldView, events: RoundEvents)
    requires
        w.wf(),
        data_is_countable(events.data_done),
    ensures
        round(w, events).wf(),
{
    let none_pos = Seq::<ChunkPos>::empty();
    let none_data = Seq::<(ChunkPos, Seq<Seq<Block>>)>::empty();
    let none_mesh = Seq::<(ChunkPos, usize)>::empty();
    let none_shown = Seq::<(ChunkPos, usize, u64)>::empty();
    lemma_phases_keep_wf(w, w.data_to_load, none_data, none_mesh, none_shown);
    let a = w.start_data_tasks();
    lemma_queues_keep_wf(w.after_data_starts(w.data_to_load), a);
    lemma_phases_keep_wf(a, none_pos, events.data_done, none_mesh, none_shown);
    let b = a.join_data_tasks(events.data_done);
    lemma_phases_keep_wf(b, b.mesh_to_load, none_data, none_mesh, none_shown);
    let c = b.start_mesh_tasks();
    lemma_queues_keep_wf(b.after_mesh_starts(b.mesh_to_load), c);
    lemma_phases_keep_wf(c, none_pos, none_data, events.mesh_done, events.shown);
    let d = c.join_mesh_tasks(events.mesh_done);
    lemma_phases_keep_wf(d, none_pos, none_data, none_mesh, events.shown);
    let e = insert_section_entities(d, events.shown);
    lemma_unload_meshes_keeps_wf(e);
    let f = e.unload_meshes();
    lemma_phases_keep_wf(f, f.data_to_unload, none_data, none_mesh, none_shown);
    lemma_queues_keep_wf(f.after_data_unloads(f.data_to_unload), f.unload_data());
}

/// A chunk of which nothing is left stays so over a round, whatever
/// arrives in it: data and meshes that come for it are dropped.
pub proof fn lemma_gone_stays_gone(w: WorldView, pos: ChunkPos, events: RoundEvents)
    requires
        is_gone(w, pos),
    ensures
        is_gone(round(w, events), pos),
{
    lemma_data_starts(w, w.data_to_load);
    let a = w.start_data_tasks();
    assert(!a.data_tasks.contains(pos));
    lemma_join_data_tasks(a, events.data_done);
    let b = a.join_data_tasks(events.data_done);
    assert(!b.loaded_chunks.contains_key(pos));
    assert(!b.data_tasks.contains(pos));
    lemma_after_mesh_starts(b, b.mesh_to_load);
    let c = b.start_mesh_tasks();
    assert forall|y: usize| !c.mesh_tasks.contains((pos, y)) by {
        assert(!b.mesh_tasks.contains((pos, y)));
    }
    lemma_join_mesh_tasks(c, events.mesh_done);
    let d = c.join_mesh_tasks(events.mesh_done);
    lemma_insert_section_entities(d, events.shown);
    let e = insert_section_entities(d, events.shown);
    assert forall|y: usize| !e.section_entities.contains_key((pos, y)) by {
        assert(!d.section_entities.contains_key((pos, y)));
        assert(!c.section_entities.contains_key((pos, y)));
    }
    lemma_after_mesh_unloads(e, e.mesh_to_unload);
    let f = e.unload_meshes();
    lemma_after_data_unloads(f, f.data_to_unload);
    let g = f.unload_data();
    assert forall|y: usize| !g.mesh_tasks.contains((pos, y)) by {
        assert(!d.mesh_tasks.contains((pos, y)));
    }
    assert forall|y: usize| !g.section_entities.contains_key((pos, y)) by {
        assert(!e.section_entities.contains_key((pos, y)));
    }
    assert(g.data_to_load.len() == 0);
    assert(!g.data_to_load.contains(pos));
}

/// A chunk that is neither resident, nor being generated, nor queued for
/// generation is gone after one round, whatever arrives in it: what still
/// shows its sections is taken down.
pub proof fn lemma_dropped_chunk_is_gone_after_a_round(
    w: WorldView,
    pos: ChunkPos,
    events: RoundEvents,
)
    requires
        w.wf(),
        data_is_countable(events.data_done),
        !w.loaded_chunks.contains_key(pos),
        !w.data_tasks.contains(pos),
        !w.data_to_load.contains(pos),
    ensures
        is_gone(round(w, events), pos),
{
    let none_pos = Seq::<ChunkPos>::empty();
    let none_data = Seq::<(ChunkPos, Seq<Seq<Block>>)>::empty();
    let none_mesh = Seq::<(ChunkPos, usize)>::empty();
    let none_shown = Seq::<(ChunkPos, usize, u64)>::empty();
    lemma_data_starts(w, w.data_to_load);
    lemma_phases_keep_wf(w, w.data_to_load, none_data, none_mesh, none_shown);
    let a = w.start_data_tasks();
    lemma_queues_keep_wf(w.after_data_starts(w.data_to_load), a);
    assert(!a.data_tasks.contains(pos));
    lemma_join_data_tasks(a, events.data_done);
    lemma_phases_keep_wf(a, none_pos, events.data_done, none_mesh, none_shown);
    let b = a.join_data_tasks(events.data_done);
    assert(!b.loaded_chunks.contains_key(pos));
    assert(!b.data_tasks.contains(pos));
    lemma_after_mesh_starts(b, b.mesh_to_load);
    lemma_phases_keep_wf(b, b.mesh_to_load, none_data, none_mesh, none_shown);
    let c = b.start_mesh_tasks();
    lemma_queues_keep_wf(b.after_mesh_starts(b.mesh_to_load), c);
    lemma_join_mesh_tasks(c, events.mesh_done);
    lemma_phases_keep_wf(c, none_pos, none_data, events.mesh_done, none_shown);
    let d = c.join_mesh_tasks(events.mesh_done);
    lemma_insert_section_entities(d, events.shown);
    lemma_phases_keep_wf(d, none_pos, none_data, none_mesh, events.shown);
    let e = insert_section_entities(d, events.shown);
    assert(!e.loaded_chunks.contains_key(pos));
    lemma_after_mesh_unloads(e, e.mesh_to_unload);
    let f = e.unload_meshes();
    assert forall|y: usize| !f.section_entities.contains_key((pos, y)) by {
        if e.section_entities.contains_key((pos, y)) {
            assert(!e.has_section(pos, y));
            assert(e.mesh_unload_covers(pos, y));
        }
    }
    lemma_after_data_unloads(f, f.data_to_unload);
    let g = f.unload_data();
    assert forall|y: usize| !g.mesh_tasks.contains((pos, y)) by {
        if c.mesh_tasks.contains((pos, y)) {
            assert(c.has_section(pos, y));
        }
        assert(!d.mesh_tasks.contains((pos, y)));
    }
    assert(g.data_to_load.len() == 0);
    assert(!g.data_to_load.contains(pos));
}

/// Asking for a chunk and giving it up at once leaves nothing of it after
/// two rounds, where the chunk is resident to begin with or its data
/// arrives in the first of the two rounds. From then on it stays gone, as
/// [`lemma_gone_stays_gone`] says.
///
/// Without that condition the statement does not hold: a chunk whose
/// generation is still running when the request to drop it is worked off
/// becomes resident when its data arrives later.
pub proof fn lemma_load_then_unload_leaves_nothing(
    w: WorldView,
    pos: ChunkPos,
    first: RoundEvents,
    second: RoundEvents,
)
    requires
        w.wf(),
        data_is_countable(first.data_done),
        data_is_countable(second.data_done),
        w.loaded_chunks.contains_key(pos) || data_arrives(first.data_done, pos),
    ensures
        is_gone(round(round(w.load_chunk(pos).unload_chunk(pos), first), second), pos),
{
    let none_pos = Seq::<ChunkPos>::empty();
    let none_data = Seq::<(ChunkPos, Seq<Seq<Block>>)>::empty();
    let none_mesh = Seq::<(ChunkPos, usize)>::empty();
    let none_shown = Seq::<(ChunkPos, usize, u64)>::empty();
    lemma_requests_keep_wf(w, pos);
    let w1 = w.load_chunk(pos);
    lemma_requests_keep_wf(w1, pos);
    let asked = w1.unload_chunk(pos);
    if !w.loaded_chunks.contains_key(pos) {
        if !w.data_to_load.contains(pos) {
            assert(w1.data_to_load[w.data_to_load.len() as int] == pos);
        }
        assert(w1.data_to_load.contains(pos));
    }
    assert(asked.data_to_unload[w1.data_to_unload.len() as int] == pos);
    assert(asked.data_to_unload.contains(pos));

    // the first round
    lemma_data_starts(asked, asked.data_to_load);
    lemma_phases_keep_wf(asked, asked.data_to_load, none_data, none_mesh, none_shown);
    let a = asked.start_data_tasks();
    lemma_queues_keep_wf(asked.after_data_starts(asked.data_to_load), a);
    assert(a.loaded_chunks.contains_key(pos) || a.data_tasks.contains(pos));
    lemma_join_data_tasks(a, first.data_done);
    lemma_phases_keep_wf(a, none_pos, first.data_done, none_mesh, none_shown);
    let b = a.join_data_tasks(first.data_done);
    assert(b.loaded_chunks.contains_key(pos));
    assert(!b.data_tasks.contains(pos));
    lemma_after_mesh_starts(b, b.mesh_to_load);
    lemma_phases_keep_wf(b, b.mesh_to_load, none_data, none_mesh, none_shown);
    let c = b.start_mesh_tasks();
    lemma_queues_keep_wf(b.after_mesh_starts(b.mesh_to_load), c);
    lemma_join_mesh_tasks(c, first.mesh_done);
    lemma_phases_keep_wf(c, none_pos, none_data, first.mesh_done, none_shown);
    let d = c.join_mesh_tasks(first.mesh_done);
    lemma_insert_section_entities(d, first.shown);
    lemma_phases_keep_wf(d, none_pos, none_data, none_mesh, first.shown);
    let e = insert_section_entities(d, first.shown);
    lemma_after_mesh_unloads(e, e.mesh_to_unload);
    lemma_unload_meshes_keeps_wf(e);
    let f = e.unload_meshes();
    assert(f.data_to_unload == asked.data_to_unload);
    lemma_after_data_unloads(f, f.data_to_unload);
    lemma_phases_keep_wf(f, f.data_to_unload, none_data, none_mesh, none_shown);
    let g = f.unload_data();
    lemma_queues_keep_wf(f.after_data_unloads(f.data_to_unload), g);
    assert(g == round(asked, first));
    assert(!g.loaded_chunks.contains_key(pos));
    assert(!g.data_tasks.contains(pos));
    assert(g.data_to_load.len() == 0);
    assert(!g.data_to_load.contains(pos));

    // the second round
    lemma_dropped_chunk_is_gone_after_a_round(g, pos, second);
}


/// Giving up a chunk of which nothing is resident or asked for, and then
/// asking for it, is the same as asking for it: the request to give it up
/// is dropped, so what follows is a fresh load.
pub proof fn lemma_unload_then_load_is_load(w: WorldView, pos: ChunkPos)
    requires
        !w.loaded_chunks.contains_key(pos),
        !w.data_to_load.contains(pos),
    ensures
        w.unload_chunk(pos) == w,
        w.unload_chunk(pos).load_chunk(pos) == w.load_chunk(pos),
{
}

} // verus!
