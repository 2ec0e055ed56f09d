//! The engine stays well formed: whatever notification it takes in, and
//! whenever it is drained.

use crate::model::{
    all_belong_to, all_have_paths, belongs_to, drain_state, drop_below, drop_queue, events_of, first_stitched, has_queue,
    implied_remove, in_order, ingest, is_remove, is_stitched, left_behind, outside_of, push_event,
    push_remove_event, push_rename_event, put_queue, queue_index, queue_wf, queues_wf,
    rename_from, rename_kind, rename_to, repoint, stamped, stitched_rename, was_created,
    was_removed, with_implied_remove, with_rename, without_from, without_removal,
    without_stitched, EngineView, QueueView, RawEventView,
};
use crate::notification::{EventKind, EventView, ModifyKind, RenameMode};
use crate::queues::{
    headed, lemma_filter_wf, lemma_flush_rest_wf, lemma_in_order_push, lemma_none_stitched,
    lemma_wf_push, lemma_wf_remove, lemma_wf_update, unmarked, unstitched,
};
use file_id::FileId;
use vstd::prelude::*;

verus! {

/// The pending events of a path are those of a well-formed queue, or none.
pub proof fn lemma_events_of_wf(queues: Seq<QueueView>, path: Seq<char>)
    requires
        queues_wf(queues),
    ensures
        all_have_paths(events_of(queues, path)),
        all_belong_to(events_of(queues, path), path),
        in_order(events_of(queues, path)),
        has_queue(queues, path) ==> events_of(queues, path).len() > 0 && 0 <= queue_index(
            queues,
            path,
        ) < queues.len() && queues[queue_index(queues, path)].path == path,
{
    if has_queue(queues, path) {
        assert(queue_wf(queues[queue_index(queues, path)]));
    }
}

/// Setting the queue of a path to well-formed events keeps the queues well
/// formed.
pub proof fn lemma_put_queue_keeps_wf(
    queues: Seq<QueueView>,
    path: Seq<char>,
    events: Seq<RawEventView>,
)
    requires
        queues_wf(queues),
        queue_wf(QueueView { path, events }),
    ensures
        queues_wf(put_queue(queues, path, events)),
{
    lemma_events_of_wf(queues, path);
    if has_queue(queues, path) {
        lemma_wf_update(queues, queue_index(queues, path), QueueView { path, events });
    } else {
        lemma_wf_push(queues, QueueView { path, events });
    }
}

/// Taking the queue of a path out keeps the queues well formed.
pub proof fn lemma_drop_queue_keeps_wf(queues: Seq<QueueView>, path: Seq<char>)
    requires
        queues_wf(queues),
    ensures
        queues_wf(drop_queue(queues, path)),
{
    lemma_events_of_wf(queues, path);
    if has_queue(queues, path) {
        lemma_wf_remove(queues, queue_index(queues, path));
    }
}

/// The push rule keeps the queues well formed, for an event that is neither
/// a removal nor a stitched rename.
pub proof fn lemma_push_event_keeps_wf(queues: Seq<QueueView>, ev: RawEventView)
    requires
        queues_wf(queues),
        ev.event.paths.len() > 0,
        !is_remove(ev.event.kind),
        !is_stitched(ev.event.kind),
    ensures
        queues_wf(push_event(queues, ev)),
{
    let path = ev.event.paths[0];
    let pending = events_of(queues, path);
    lemma_events_of_wf(queues, path);
    let grown = pending.push(ev);
    assert(all_have_paths(grown)) by {
        assert forall|j: int| 0 <= j < grown.len() implies (#[trigger] grown[j]).event.paths.len()
            > 0 by {
            if j < pending.len() {
                assert(grown[j] == pending[j]);
            }
        }
    }
    if pending.len() > 0 {
        lemma_in_order_push(pending, ev);
    }
    lemma_put_queue_keeps_wf(queues, path, grown);
}

/// A removal keeps the queues well formed.
pub proof fn lemma_push_remove_event_keeps_wf(queues: Seq<QueueView>, ev: RawEventView)
    requires
        queues_wf(queues),
        ev.event.paths.len() > 0,
        is_remove(ev.event.kind),
    ensures
        queues_wf(push_remove_event(queues, ev)),
{
    let path = ev.event.paths[0];
    lemma_filter_wf(queues, outside_of(path));
    let kept = drop_below(queues, path);
    lemma_drop_queue_keeps_wf(kept, path);
    lemma_put_queue_keeps_wf(kept, path, seq![ev]);
}

/// The events that a stitched rename moves to its destination are in order,
/// and there is at least one of them.
pub proof fn lemma_moved_events_wf(
    queues: Seq<QueueView>,
    source_events: Seq<RawEventView>,
    source: Seq<char>,
    to: EventView,
    time: u64,
)
    requires
        all_have_paths(source_events),
        all_belong_to(source_events, source),
        in_order(source_events),
        to.paths.len() > 0,
    ensures
        ({
            let trimmed = without_from(source_events);
            let rest = without_stitched(trimmed);
            let moved = with_rename(
                repoint(without_removal(rest), to.paths[0]),
                crate::model::hop_path(trimmed, source),
                to,
                crate::model::hop_time(trimmed, time),
            );
            let placed = with_implied_remove(
                queues,
                moved,
                to.paths[0],
                crate::model::hop_time(trimmed, time),
            );
            &&& placed.len() > 0
            &&& all_have_paths(placed)
            &&& in_order(placed)
            &&& all_belong_to(placed, to.paths[0])
            &&& was_removed(rest) ==> belongs_to(rest[0], source) && rest[0].event.paths[0]
                == source
        }),
{
    let dest = to.paths[0];
    let trimmed = without_from(source_events);
    assert(all_have_paths(trimmed) && in_order(trimmed)) by {
        assert forall|j: int| 0 <= j < trimmed.len() implies #[trigger] trimmed[j]
            == source_events[j] by {}
        assert forall|j: int| 0 <= j < trimmed.len() implies (
        #[trigger] trimmed[j]).event.paths.len() > 0 by {
            assert(trimmed[j] == source_events[j]);
        }
        assert forall|j: int| 0 < j < trimmed.len() implies !is_remove(
            (#[trigger] trimmed[j]).event.kind,
        ) by {
            assert(trimmed[j] == source_events[j]);
        }
        assert forall|j: int|
            0 <= j < trimmed.len() && is_stitched((#[trigger] trimmed[j]).event.kind) implies j == 0
            || (j == 1 && is_remove(trimmed[0].event.kind)) by {
            assert(trimmed[j] == source_events[j]);
            assert(trimmed[0] == source_events[0]);
        }
    }
    let k = first_stitched(trimmed);
    let rest = without_stitched(trimmed);
    assert(all_belong_to(trimmed, source)) by {
        assert forall|j: int| 0 <= j < trimmed.len() implies belongs_to(
            #[trigger] trimmed[j],
            source,
        ) by {
            assert(trimmed[j] == source_events[j]);
        }
    }
    assert(unstitched(rest) && all_have_paths(rest) && all_belong_to(rest, source)) by {
        lemma_first_stitched_is_stitched(trimmed);
        if k < trimmed.len() {
            assert(k == 0 || k == 1);
            assert forall|j: int| 0 <= j < rest.len() implies !is_stitched(
                (#[trigger] rest[j]).event.kind,
            ) && rest[j].event.paths.len() > 0 && (j > 0 ==> !is_remove(rest[j].event.kind))
                && belongs_to(rest[j], source) by {
                if j < k {
                    assert(rest[j] == trimmed[j]);
                } else {
                    assert(rest[j] == trimmed[j + 1]);
                }
            }
        } else {
            lemma_none_stitched(trimmed);
        }
    }
    let kept = without_removal(rest);
    assert(unmarked(kept)) by {
        assert forall|j: int| 0 <= j < kept.len() implies !is_remove(
            (#[trigger] kept[j]).event.kind,
        ) && !is_stitched(kept[j].event.kind) by {
            if was_removed(rest) {
                assert(kept[j] == rest[j + 1]);
            }
        }
    }
    let pointed = repoint(kept, dest);
    assert(unmarked(pointed) && all_have_paths(pointed) && all_belong_to(pointed, dest)) by {
        assert forall|j: int| 0 <= j < pointed.len() implies !is_remove(
            (#[trigger] pointed[j]).event.kind,
        ) && !is_stitched(pointed[j].event.kind) && pointed[j].event.paths.len() > 0
            && belongs_to(pointed[j], dest) by {
            assert(pointed[j].event.kind == kept[j].event.kind);
            assert(pointed[j].event.paths == seq![dest]);
        }
    }
    let rename = stitched_rename(
        crate::model::hop_path(trimmed, source),
        to,
        crate::model::hop_time(trimmed, time),
    );
    let moved = with_rename(
        pointed,
        crate::model::hop_path(trimmed, source),
        to,
        crate::model::hop_time(trimmed, time),
    );
    assert(headed(moved) && all_have_paths(moved) && all_belong_to(moved, dest) && moved.len()
        > 0) by {
        if !was_created(pointed) {
            assert(moved =~= seq![rename] + pointed);
            assert(rename.event.paths.last() == dest);
            assert forall|j: int| 0 <= j < moved.len() implies !is_remove(
                (#[trigger] moved[j]).event.kind,
            ) && moved[j].event.paths.len() > 0 && belongs_to(moved[j], dest) && (j > 0
                ==> !is_stitched(moved[j].event.kind)) by {
                if j > 0 {
                    assert(moved[j] == pointed[j - 1]);
                }
            }
        }
    }
    let target = events_of(queues, dest);
    let placed = with_implied_remove(queues, moved, dest, crate::model::hop_time(trimmed, time));
    if has_queue(queues, dest) && !was_created(target) {
        let remove = implied_remove(
            dest,
            crate::model::hop_time(trimmed, time),
            was_removed(target),
        );
        assert(placed =~= seq![remove] + moved);
        assert forall|j: int| 0 <= j < placed.len() implies (#[trigger] placed[j]).event.paths.len()
            > 0 && belongs_to(placed[j], dest) by {
            if j > 0 {
                assert(placed[j] == moved[j - 1]);
            }
        }
        assert forall|j: int| 0 < j < placed.len() implies !is_remove(
            (#[trigger] placed[j]).event.kind,
        ) by {
            assert(placed[j] == moved[j - 1]);
        }
        assert forall|j: int|
            0 <= j < placed.len() && is_stitched((#[trigger] placed[j]).event.kind) implies j == 0
            || (j == 1 && is_remove(placed[0].event.kind)) by {
            if j > 0 {
                assert(placed[j] == moved[j - 1]);
            }
        }
    }
}

/// Where the first stitched rename is found, there is one.
pub proof fn lemma_first_stitched_is_stitched(events: Seq<RawEventView>)
    ensures
        0 <= first_stitched(events) <= events.len(),
        first_stitched(events) < events.len() ==> is_stitched(
            events[first_stitched(events)].event.kind,
        ),
    decreases events.len(),
{
    if events.len() > 0 && !is_stitched(events[0].event.kind) {
        let rest = events.drop_first();
        lemma_first_stitched_is_stitched(rest);
        let k = first_stitched(rest);
        if k < rest.len() {
            assert(rest[k] == events[k + 1]);
        }
    }
}

/// A queue elsewhere is not touched when the queue of a path is taken out.
pub proof fn lemma_drop_queue_elsewhere(queues: Seq<QueueView>, path: Seq<char>, other: Seq<char>)
    requires
        queues_wf(queues),
        other != path,
    ensures
        has_queue(drop_queue(queues, path), other) == has_queue(queues, other),
        events_of(drop_queue(queues, path), other) == events_of(queues, other),
{
    lemma_events_of_wf(queues, path);
    lemma_events_of_wf(queues, other);
    lemma_drop_queue_keeps_wf(queues, path);
    if has_queue(queues, path) {
        let at = queue_index(queues, path);
        let out = queues.remove(at);
        if has_queue(queues, other) {
            let i = queue_index(queues, other);
            let k = if i < at { i } else { i - 1 };
            assert(out[k] == queues[i]);
            lemma_events_of_wf(out, other);
            assert(out[queue_index(out, other)].path == out[k].path);
        }
        if has_queue(out, other) {
            let k = queue_index(out, other);
            lemma_events_of_wf(out, other);
            let i = if k < at { k } else { k + 1 };
            assert(queues[i] == out[k]);
        }
    }
}

/// A queue elsewhere is not touched when the queue of a path is set.
pub proof fn lemma_put_queue_elsewhere(
    queues: Seq<QueueView>,
    path: Seq<char>,
    events: Seq<RawEventView>,
    other: Seq<char>,
)
    requires
        queues_wf(queues),
        queue_wf(QueueView { path, events }),
        other != path,
    ensures
        has_queue(put_queue(queues, path, events), other) == has_queue(queues, other),
        events_of(put_queue(queues, path, events), other) == events_of(queues, other),
{
    lemma_events_of_wf(queues, path);
    lemma_events_of_wf(queues, other);
    lemma_put_queue_keeps_wf(queues, path, events);
    let out = put_queue(queues, path, events);
    lemma_events_of_wf(out, other);
    if has_queue(queues, other) {
        let i = queue_index(queues, other);
        assert(out[i] == queues[i]);
        assert(out[queue_index(out, other)].path == out[i].path);
    }
    if has_queue(out, other) {
        let k = queue_index(out, other);
        if k < queues.len() {
            assert(queues[k].path == out[k].path);
            assert(queues[queue_index(queues, other)].path == queues[k].path);
        }
    }
}

/// Rename stitching touches the queues of the old and of the new path, and
/// no other.
pub proof fn lemma_stitching_leaves_other_queues_alone(
    queues: Seq<QueueView>,
    source: Seq<char>,
    to: EventView,
    time: u64,
    other: Seq<char>,
)
    requires
        queues_wf(queues),
        to.paths.len() > 0,
        other != source,
        other != to.paths[0],
    ensures
        has_queue(push_rename_event(queues, source, to, time), other) == has_queue(queues, other),
        events_of(push_rename_event(queues, source, to, time), other) == events_of(queues, other),
{
    let dest = to.paths[0];
    let source_events = events_of(queues, source);
    lemma_events_of_wf(queues, source);
    let trimmed = without_from(source_events);
    let rest = without_stitched(trimmed);
    let q1 = drop_queue(queues, source);
    lemma_drop_queue_keeps_wf(queues, source);
    lemma_drop_queue_elsewhere(queues, source, other);
    let q2 = left_behind(q1, rest);
    lemma_moved_events_wf(q2, source_events, source, to, time);
    if was_removed(rest) {
        lemma_put_queue_keeps_wf(q1, source, seq![rest[0]]);
        lemma_put_queue_elsewhere(q1, source, seq![rest[0]], other);
    }
    let moved = with_rename(
        repoint(without_removal(rest), dest),
        crate::model::hop_path(trimmed, source),
        to,
        crate::model::hop_time(trimmed, time),
    );
    let placed = with_implied_remove(q2, moved, dest, crate::model::hop_time(trimmed, time));
    lemma_put_queue_elsewhere(q2, dest, placed, other);
}

/// Rename stitching keeps the queues well formed.
pub proof fn lemma_push_rename_event_keeps_wf(
    queues: Seq<QueueView>,
    source: Seq<char>,
    to: EventView,
    time: u64,
)
    requires
        queues_wf(queues),
        to.paths.len() > 0,
    ensures
        queues_wf(push_rename_event(queues, source, to, time)),
{
    let dest = to.paths[0];
    let source_events = events_of(queues, source);
    lemma_events_of_wf(queues, source);
    let trimmed = without_from(source_events);
    let rest = without_stitched(trimmed);
    let q1 = drop_queue(queues, source);
    lemma_drop_queue_keeps_wf(queues, source);
    let q2 = left_behind(q1, rest);
    lemma_moved_events_wf(q2, source_events, source, to, time);
    if was_removed(rest) {
        lemma_put_queue_keeps_wf(q1, rest[0].event.paths[0], seq![rest[0]]);
    }
    let moved = with_rename(
        repoint(without_removal(rest), dest),
        crate::model::hop_path(trimmed, source),
        to,
        crate::model::hop_time(trimmed, time),
    );
    let placed = with_implied_remove(q2, moved, dest, crate::model::hop_time(trimmed, time));
    lemma_put_queue_keeps_wf(q2, dest, placed);
}

/// The "from" half of a rename keeps the engine well formed.
pub proof fn lemma_rename_from_keeps_wf(
    engine: EngineView,
    event: EventView,
    now: u64,
    file_id: Option<FileId>,
)
    requires
        engine.wf(),
        event.paths.len() > 0,
        event.kind == rename_kind(RenameMode::From),
    ensures
        rename_from(engine, event, now, file_id).wf(),
{
    lemma_push_event_keeps_wf(engine.queues, stamped(event, now));
}

/// The "to" half of a rename keeps the engine well formed.
pub proof fn lemma_rename_to_keeps_wf(
    engine: EngineView,
    event: EventView,
    now: u64,
    file_id: Option<FileId>,
)
    requires
        engine.wf(),
        event.paths.len() > 0,
        event.kind == rename_kind(RenameMode::To),
    ensures
        rename_to(engine, event, now, file_id).wf(),
{
    lemma_push_event_keeps_wf(engine.queues, stamped(event, now));
    if engine.rename is Some {
        let from = engine.rename->0.event;
        lemma_push_rename_event_keeps_wf(engine.queues, from.event.paths[0], event, from.time);
    }
}

/// Whatever notification a well-formed engine takes in, it stays well
/// formed: no path has two queues, no queue is empty, every event names the
/// path of its queue, a removal stands first in its queue, and a stitched
/// rename stands first or right behind a removal.
pub proof fn lemma_ingest_keeps_wf(
    engine: EngineView,
    event: EventView,
    now: u64,
    exists: bool,
    file_id: Option<FileId>,
)
    requires
        engine.wf(),
    ensures
        ingest(engine, event, now, exists, file_id).wf(),
{
    if !event.need_rescan() && event.paths.len() > 0 {
        match event.kind {
            EventKind::Modify(ModifyKind::Name(mode)) => {
                lemma_rename_to_keeps_wf(
                    engine,
                    event.with_kind(rename_kind(RenameMode::To)),
                    now,
                    file_id,
                );
                lemma_rename_from_keeps_wf(
                    engine,
                    event.with_kind(rename_kind(RenameMode::From)),
                    now,
                    file_id,
                );
                if mode == RenameMode::To {
                    assert(event.with_kind(rename_kind(RenameMode::To)) == event);
                }
                if mode == RenameMode::From {
                    assert(event.with_kind(rename_kind(RenameMode::From)) == event);
                }
            },
            EventKind::Remove(_) => {
                lemma_push_remove_event_keeps_wf(engine.queues, stamped(event, now));
            },
            _ => {
                lemma_push_event_keeps_wf(engine.queues, stamped(event, now));
            },
        }
    }
}

/// Whenever a well-formed engine is drained, it stays well formed.
pub proof fn lemma_drain_keeps_wf(engine: EngineView, now: u64)
    requires
        engine.wf(),
    ensures
        drain_state(engine, now).wf(),
{
    lemma_flush_rest_wf(engine.queues, now, engine.window);
}

} // verus!
