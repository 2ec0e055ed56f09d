//! What holds of the engine as a whole: of what it hands out, and of what
//! sequences of notifications leave in it.

use crate::events::base::ObjectType;
use crate::events::modify::metadata_type_of;
use crate::events::OutputEvent;
use crate::file_cache::FileIdCache;
use crate::invariants::lemma_events_of_wf;
use crate::model::{
    belongs_to, distinct_paths, drain_batch, drain_state, drain_unsorted, drop_below, drop_queue, events_of,
    expired_count, first_stitched, flush_batch, flush_rest, flushed, has_queue, implied_remove,
    ingest, is_accepted, is_expired, is_rename_half, kind_occurs, latest_per_kind, outside_of, push_event,
    push_remove_event, push_rename_event, put_queue, queue_index, queue_wf, queues_wf,
    rename_kind, stamped, stitched_rename, unflushed, was_created, was_removed, EngineView,
    QueueView, RawEventView,
};
use crate::notification::{EventKind, EventView, MetadataKind, ModifyKind, RenameMode};
use crate::order_laws::{
    chronological_per_subject, lemma_order_is_chronological, lemma_order_is_permutation,
    lemma_order_keeps_subject_order, reported_against, sorted_by_time,
};
use crate::processor::{identity_read, resolver_told};
use crate::queues::{lemma_expired_count_bounds, lemma_filter_wf, lemma_wf_push};
use crate::watcher::{output_of, outputs_of};
use file_id::FileId;
use vstd::prelude::*;

verus! {

/// Where the events of each subject were queued in the order of their
/// times, a drain hands its batch out in the order of the times. Of two
/// events of different subjects the older one leaves first.
pub proof fn lemma_drain_is_chronological(engine: EngineView, now: u64)
    requires
        chronological_per_subject(drain_unsorted(engine, now)),
    ensures
        sorted_by_time(drain_batch(engine, now)),
{
    lemma_order_is_chronological(drain_unsorted(engine, now));
}

/// The events of one subject leave a drain in the order in which they were
/// queued, whatever their times are.
pub proof fn lemma_drain_keeps_subject_order(
    engine: EngineView,
    now: u64,
    subject: Option<Seq<char>>,
)
    ensures
        drain_batch(engine, now).filter(reported_against(subject)) == drain_unsorted(
            engine,
            now,
        ).filter(reported_against(subject)),
{
    lemma_order_keeps_subject_order(drain_unsorted(engine, now), subject);
}

/// The events of a queue are in the order of their times, and each of them
/// is reported against the path of the queue.
pub open spec fn queue_is_chronological(q: QueueView) -> bool {
    &&& sorted_by_time(q.events)
    &&& forall|j: int|
        0 <= j < q.events.len() ==> (#[trigger] q.events[j]).event.subject() == Some(q.path)
}

/// Every queue is chronological.
pub open spec fn queues_are_chronological(queues: Seq<QueueView>) -> bool {
    forall|i: int| 0 <= i < queues.len() ==> queue_is_chronological(#[trigger] queues[i])
}

/// What stays of events under "last write wins" is some of them.
pub proof fn lemma_latest_is_part(events: Seq<RawEventView>, i: int)
    requires
        0 <= i < latest_per_kind(events).len(),
    ensures
        events.contains(latest_per_kind(events)[i]),
    decreases events.len(),
{
    if events.len() > 0 {
        let rest = events.drop_first();
        let out = latest_per_kind(events);
        if kind_occurs(rest, events[0].event.kind) {
            lemma_latest_is_part(rest, i);
            let k = choose|k: int| 0 <= k < rest.len() && rest[k] == out[i];
            assert(events[k + 1] == out[i]);
        } else if i == 0 {
            assert(events[0] == out[0]);
        } else {
            assert(out[i] == latest_per_kind(rest)[i - 1]);
            lemma_latest_is_part(rest, i - 1);
            let k = choose|k: int| 0 <= k < rest.len() && rest[k] == out[i];
            assert(events[k + 1] == out[i]);
        }
    }
}

/// What stays of events in the order of their times is in the order of its
/// times.
pub proof fn lemma_latest_stays_sorted(events: Seq<RawEventView>)
    requires
        sorted_by_time(events),
    ensures
        sorted_by_time(latest_per_kind(events)),
    decreases events.len(),
{
    if events.len() > 0 {
        let rest = events.drop_first();
        let kept = latest_per_kind(rest);
        let out = latest_per_kind(events);
        assert(sorted_by_time(rest)) by {
            assert forall|i: int, j: int| 0 <= i < j < rest.len() implies (#[trigger] rest[i]).time
                <= (#[trigger] rest[j]).time by {
                assert(rest[i] == events[i + 1] && rest[j] == events[j + 1]);
            }
        }
        lemma_latest_stays_sorted(rest);
        if !kind_occurs(rest, events[0].event.kind) {
            assert forall|i: int, j: int| 0 <= i < j < out.len() implies (#[trigger] out[i]).time
                <= (#[trigger] out[j]).time by {
                assert(out[j] == kept[j - 1]);
                if i == 0 {
                    lemma_latest_is_part(rest, j - 1);
                    let k = choose|k: int| 0 <= k < rest.len() && rest[k] == kept[j - 1];
                    assert(events[k + 1] == out[j]);
                    assert(events[0] == out[0]);
                } else {
                    assert(out[i] == kept[i - 1]);
                }
            }
        }
    }
}

/// What a drain takes out of a chronological queue is in the order of its
/// times, and reported against the path of the queue.
pub proof fn lemma_share_is_chronological(q: QueueView, now: u64, window: u64)
    requires
        queue_is_chronological(q),
    ensures
        queue_is_chronological(
            QueueView { path: q.path, events: flushed(q.events, now, window) },
        ),
{
    lemma_expired_count_bounds(q.events, now, window);
    let n = expired_count(q.events, now, window);
    let head = q.events.take(n);
    assert(sorted_by_time(head)) by {
        assert forall|i: int, j: int| 0 <= i < j < head.len() implies (#[trigger] head[i]).time
            <= (#[trigger] head[j]).time by {
            assert(head[i] == q.events[i] && head[j] == q.events[j]);
        }
    }
    lemma_latest_stays_sorted(head);
    let share = flushed(q.events, now, window);
    assert forall|j: int| 0 <= j < share.len() implies (#[trigger] share[j]).event.subject()
        == Some(q.path) by {
        lemma_latest_is_part(head, j);
        let k = choose|k: int| 0 <= k < head.len() && head[k] == share[j];
        assert(q.events[k] == share[j]);
    }
}

/// What a drain takes out of chronological queues: every event is reported
/// against the path of one of the queues, and the events of each subject are
/// in the order of their times.
pub proof fn lemma_shares_are_chronological(queues: Seq<QueueView>, now: u64, window: u64)
    requires
        distinct_paths(queues),
        queues_are_chronological(queues),
    ensures
        chronological_per_subject(flush_batch(queues, now, window)),
        forall|k: int|
            0 <= k < flush_batch(queues, now, window).len() ==> exists|i: int|
                0 <= i < queues.len() && (#[trigger] flush_batch(
                    queues,
                    now,
                    window,
                )[k]).event.subject() == Some(#[trigger] queues[i].path),
    decreases queues.len(),
{
    if queues.len() > 0 {
        let front = queues.drop_last();
        let last = queues.last();
        assert(distinct_paths(front) && queues_are_chronological(front)) by {
            assert forall|i: int| 0 <= i < front.len() implies queue_is_chronological(
                #[trigger] front[i],
            ) by {
                assert(front[i] == queues[i]);
            }
            assert forall|i: int, j: int|
                0 <= i < front.len() && 0 <= j < front.len() && i != j implies #[trigger] front[i].path
                != #[trigger] front[j].path by {
                assert(front[i] == queues[i] && front[j] == queues[j]);
            }
        }
        lemma_shares_are_chronological(front, now, window);
        assert(queue_is_chronological(queues[queues.len() - 1]));
        lemma_share_is_chronological(last, now, window);
        let before = flush_batch(front, now, window);
        let share = flushed(last.events, now, window);
        let all = flush_batch(queues, now, window);
        assert(all == before + share);
        assert forall|k: int| 0 <= k < all.len() implies exists|i: int|
            0 <= i < queues.len() && (#[trigger] all[k]).event.subject() == Some(
                #[trigger] queues[i].path,
            ) by {
            if k < before.len() {
                assert(all[k] == before[k]);
                let i = choose|i: int|
                    0 <= i < front.len() && before[k].event.subject() == Some(
                        #[trigger] front[i].path,
                    );
                assert(queues[i].path == front[i].path);
            } else {
                assert(all[k] == share[k - before.len()]);
                assert(queues[queues.len() - 1].path == last.path);
            }
        }
        assert forall|a: int, b: int|
            0 <= a < b < all.len() && (#[trigger] all[a]).event.subject() == (
            #[trigger] all[b]).event.subject() implies all[a].time <= all[b].time by {
            if b < before.len() {
                assert(all[a] == before[a] && all[b] == before[b]);
            } else if a >= before.len() {
                assert(all[a] == share[a - before.len()] && all[b] == share[b - before.len()]);
            } else {
                // an event of an earlier queue and one of the last queue
                assert(all[a] == before[a] && all[b] == share[b - before.len()]);
                let i = choose|i: int|
                    0 <= i < front.len() && before[a].event.subject() == Some(
                        #[trigger] front[i].path,
                    );
                assert(queues[i].path == front[i].path);
                assert(queues[queues.len() - 1].path == last.path);
            }
        }
    }
}

/// Queues stay chronological under the push rule, for an event with one
/// path that is no older than what is pending for that path.
pub proof fn lemma_push_keeps_chronological(queues: Seq<QueueView>, ev: RawEventView)
    requires
        queues_wf(queues),
        queues_are_chronological(queues),
        ev.event.paths.len() == 1,
        forall|j: int|
            0 <= j < events_of(queues, ev.event.paths[0]).len() ==> (#[trigger] events_of(
                queues,
                ev.event.paths[0],
            )[j]).time <= ev.time,
    ensures
        queues_are_chronological(push_event(queues, ev)),
{
    let path = ev.event.paths[0];
    let pending = events_of(queues, path);
    let grown = pending.push(ev);
    let q = QueueView { path, events: grown };
    lemma_events_of_wf(queues, path);
    assert(ev.event.paths.last() == path);
    assert(queue_is_chronological(q)) by {
        if has_queue(queues, path) {
            assert(queue_is_chronological(queues[queue_index(queues, path)]));
        }
        assert forall|i: int, j: int| 0 <= i < j < grown.len() implies (#[trigger] grown[i]).time
            <= (#[trigger] grown[j]).time by {
            assert(grown[i] == pending[i]);
            if j < pending.len() {
                assert(grown[j] == pending[j]);
            }
        }
        assert forall|j: int| 0 <= j < grown.len() implies (#[trigger] grown[j]).event.subject()
            == Some(path) by {
            if j < pending.len() {
                assert(grown[j] == pending[j]);
            }
        }
    }
    let out = put_queue(queues, path, grown);
    assert forall|i: int| 0 <= i < out.len() implies queue_is_chronological(#[trigger] out[i]) by {
        if has_queue(queues, path) {
            if i != queue_index(queues, path) {
                assert(out[i] == queues[i]);
            }
        } else if i < queues.len() {
            assert(out[i] == queues[i]);
        }
    }
}

/// Queues stay chronological under a removal with one path.
pub proof fn lemma_remove_keeps_chronological(queues: Seq<QueueView>, ev: RawEventView)
    requires
        queues_wf(queues),
        queues_are_chronological(queues),
        ev.event.paths.len() == 1,
    ensures
        queues_are_chronological(push_remove_event(queues, ev)),
{
    let path = ev.event.paths[0];
    let kept = drop_below(queues, path);
    lemma_filter_wf(queues, outside_of(path));
    assert forall|i: int| 0 <= i < kept.len() implies queue_is_chronological(#[trigger] kept[i]) by {
        assert(queues.contains(kept[i]));
        let k = choose|k: int| 0 <= k < queues.len() && queues[k] == kept[i];
    }
    lemma_events_of_wf(kept, path);
    let out = push_remove_event(queues, ev);
    assert(ev.event.paths.last() == path);
    let alone = QueueView { path, events: seq![ev] };
    assert(queue_is_chronological(alone));
    assert forall|i: int| 0 <= i < out.len() implies queue_is_chronological(#[trigger] out[i]) by {
        if has_queue(kept, path) {
            let at = queue_index(kept, path);
            if was_created(events_of(kept, path)) {
                if i < at {
                    assert(out[i] == kept[i]);
                } else {
                    assert(out[i] == kept[i + 1]);
                }
            } else if i != at {
                assert(out[i] == kept[i]);
            }
        } else if i < kept.len() {
            assert(out[i] == kept[i]);
        }
    }
}

/// An engine whose queues are chronological, and which holds no rescan,
/// hands out every batch in the order of the times.
pub proof fn lemma_chronological_queues_drain_in_order(engine: EngineView, now: u64)
    requires
        engine.wf(),
        engine.rescan is None,
        queues_are_chronological(engine.queues),
    ensures
        sorted_by_time(drain_batch(engine, now)),
{
    lemma_shares_are_chronological(engine.queues, now, engine.window);
    assert(drain_unsorted(engine, now) =~= flush_batch(engine.queues, now, engine.window));
    lemma_drain_is_chronological(engine, now);
}

/// A drain hands out what it took out of the queues, each event once:
/// ordering neither drops nor repeats an event.
pub proof fn lemma_drain_is_permutation(engine: EngineView, now: u64)
    ensures
        drain_batch(engine, now).to_multiset() == drain_unsorted(engine, now).to_multiset(),
        drain_batch(engine, now).len() == drain_unsorted(engine, now).len(),
{
    lemma_order_is_permutation(drain_unsorted(engine, now));
}

/// What a drain leaves at the head of a queue has not expired.
pub proof fn lemma_rest_has_not_expired(events: Seq<RawEventView>, now: u64, window: u64)
    ensures
        expired_count(unflushed(events, now, window), now, window) == 0,
    decreases events.len(),
{
    if events.len() > 0 && is_expired(events[0], now, window) {
        let rest = events.drop_first();
        lemma_rest_has_not_expired(rest, now, window);
        lemma_expired_count_bounds(rest, now, window);
        let n = expired_count(rest, now, window);
        assert(events.skip(n + 1) =~= rest.skip(n));
    } else {
        assert(events.skip(0) =~= events);
    }
}

/// From the queues that a drain leaves, a drain at the same time takes
/// nothing, and leaves them as they are.
pub proof fn lemma_flush_is_complete(queues: Seq<QueueView>, now: u64, window: u64)
    ensures
        flush_batch(flush_rest(queues, now, window), now, window) == Seq::<RawEventView>::empty(),
        flush_rest(flush_rest(queues, now, window), now, window) == flush_rest(
            queues,
            now,
            window,
        ),
    decreases queues.len(),
{
    let none = Seq::<RawEventView>::empty();
    if queues.len() > 0 {
        let front = queues.drop_last();
        let last = queues.last();
        lemma_flush_is_complete(front, now, window);
        let rest = flush_rest(front, now, window);
        let left = unflushed(last.events, now, window);
        lemma_rest_has_not_expired(last.events, now, window);
        if left.len() > 0 {
            let q = QueueView { path: last.path, events: left };
            assert(rest.push(q).drop_last() =~= rest);
            assert(left.take(0) =~= none);
            assert(left.skip(0) =~= left);
            assert(flushed(left, now, window) == none);
            assert(none + none =~= none);
        }
    }
}

/// A drain is complete: right after it, at the same time, there is nothing
/// to hand out, and another drain changes nothing.
pub proof fn lemma_nothing_is_left_to_drain(engine: EngineView, now: u64)
    ensures
        drain_batch(drain_state(engine, now), now) == Seq::<RawEventView>::empty(),
        drain_state(drain_state(engine, now), now) == drain_state(engine, now),
{
    lemma_flush_is_complete(engine.queues, now, engine.window);
    let none = Seq::<RawEventView>::empty();
    assert(none + none =~= none);
}

/// The identity of a path bears on the halves of a rename only: another
/// notification does the same to the engine whatever the resolver holds.
pub proof fn lemma_identity_bears_on_renames_only(
    engine: EngineView,
    event: EventView,
    now: u64,
    exists: bool,
    one: Option<FileId>,
    other: Option<FileId>,
)
    requires
        !is_rename_half(event),
    ensures
        ingest(engine, event, now, exists, one) == ingest(engine, event, now, exists, other),
{
}

/// What is on disk bears on a rename of unknown direction only.
pub proof fn lemma_existence_bears_on_unknown_direction_only(
    engine: EngineView,
    event: EventView,
    now: u64,
    file_id: Option<FileId>,
)
    requires
        event.need_rescan() || event.kind != rename_kind(RenameMode::Any),
    ensures
        ingest(engine, event, now, true, file_id) == ingest(engine, event, now, false, file_id),
{
}

/// A rename of unknown direction is taken for the "to" half where its path
/// is there on disk, and for the "from" half where it is not.
pub proof fn lemma_unknown_direction_goes_by_existence(
    engine: EngineView,
    event: EventView,
    now: u64,
    exists: bool,
    file_id: Option<FileId>,
)
    requires
        event.kind == rename_kind(RenameMode::Any),
        !event.need_rescan(),
    ensures
        ingest(engine, event, now, exists, file_id) == ingest(
            engine,
            event.with_kind(
                rename_kind(
                    if exists {
                        RenameMode::To
                    } else {
                        RenameMode::From
                    },
                ),
            ),
            now,
            exists,
            file_id,
        ),
{
}

/// A notification that asks for no rescan and is neither a removal nor a
/// rename goes to the queue of its first path under the push rule, whatever
/// its kind is: an access, a change, a notification of the kind `Other` or
/// of no known kind.
pub proof fn lemma_plain_notification_is_queued(
    engine: EngineView,
    event: EventView,
    now: u64,
    exists: bool,
    file_id: Option<FileId>,
)
    requires
        !event.need_rescan(),
        event.paths.len() > 0,
        !(event.kind is Remove),
        !(event.kind is Modify && event.kind->Modify_0 is Name),
    ensures
        ingest(engine, event, now, exists, file_id) == (EngineView {
            queues: push_event(engine.queues, stamped(event, now)),
            ..engine
        }),
{
}

/// A notification of the kind `Other` for a path with nothing pending makes
/// a queue for that path that holds it alone, and has the resolver register
/// the path where it held nothing for it.
pub proof fn lemma_other_is_registered_and_queued<T: FileIdCache>(
    engine: EngineView,
    before: T,
    after: T,
    path: Seq<char>,
    event: EventView,
    now: u64,
    exists: bool,
)
    requires
        engine.wf(),
        !has_queue(engine.queues, path),
        event.kind == EventKind::Other,
        event.paths == seq![path],
        !event.need_rescan(),
        resolver_told(before, after, engine, event, exists),
    ensures
        ingest(engine, event, now, exists, identity_read(before, event)).queues
            == engine.queues.push(QueueView { path, events: seq![stamped(event, now)] }),
        is_accepted(event),
        before.held(path) is None ==> T::registers(before, after, path),
        before.held(path) is Some ==> after == before,
{
    assert(Seq::<RawEventView>::empty().push(stamped(event, now)) =~= seq![stamped(event, now)]);
}

/// The queue at a place is the queue of its path.
pub proof fn lemma_queue_at(queues: Seq<QueueView>, i: int)
    requires
        distinct_paths(queues),
        0 <= i < queues.len(),
    ensures
        has_queue(queues, queues[i].path),
        queue_index(queues, queues[i].path) == i,
        events_of(queues, queues[i].path) == queues[i].events,
{
}

/// A queue for a path that had none goes to the end, and is the only change.
pub proof fn lemma_new_queue(queues: Seq<QueueView>, q: QueueView)
    requires
        queues_wf(queues),
        !has_queue(queues, q.path),
        queue_wf(q),
    ensures
        queues_wf(queues.push(q)),
        has_queue(queues.push(q), q.path),
        queue_index(queues.push(q), q.path) == queues.len(),
        events_of(queues.push(q), q.path) == q.events,
        drop_queue(queues.push(q), q.path) == queues,
        forall|p: Seq<char>| p != q.path ==> has_queue(queues.push(q), p) == has_queue(queues, p),
{
    let out = queues.push(q);
    assert(out[queues.len() as int] == q);
    lemma_wf_push(queues, q);
    lemma_queue_at(out, queues.len() as int);
    assert(out.remove(queues.len() as int) =~= queues);
    assert forall|p: Seq<char>| p != q.path implies has_queue(out, p) == has_queue(queues, p) by {
        if has_queue(queues, p) {
            let i = choose|i: int| 0 <= i < queues.len() && #[trigger] queues[i].path == p;
            assert(out[i].path == p);
        }
        if has_queue(out, p) {
            let i = choose|i: int| 0 <= i < out.len() && #[trigger] out[i].path == p;
            assert(queues[i].path == p);
        }
    }
}

/// What a drain takes out of queues with one more queue at the end is what
/// it takes out of the queues, and then the share of that queue.
pub proof fn lemma_flush_new_queue(queues: Seq<QueueView>, q: QueueView, now: u64, window: u64)
    ensures
        flush_batch(queues.push(q), now, window) == flush_batch(queues, now, window) + flushed(
            q.events,
            now,
            window,
        ),
{
    assert(queues.push(q).drop_last() =~= queues);
}

/// Two notifications of one kind of metadata change for one path that had
/// nothing pending, both held for the whole window, leave in one drain as
/// one event: the later one.
pub proof fn lemma_metadata_changes_collapse(
    engine: EngineView,
    path: Seq<char>,
    kind: MetadataKind,
    first: EventView,
    second: EventView,
    t1: u64,
    t2: u64,
    now: u64,
    exists: bool,
    file_id: Option<FileId>,
)
    requires
        engine.wf(),
        !has_queue(engine.queues, path),
        first.kind == EventKind::Modify(ModifyKind::Metadata(kind)),
        second.kind == EventKind::Modify(ModifyKind::Metadata(kind)),
        first.paths == seq![path],
        second.paths == seq![path],
        !first.need_rescan(),
        !second.need_rescan(),
        is_expired(stamped(first, t1), now, engine.window),
        is_expired(stamped(second, t2), now, engine.window),
    ensures
        ({
            let after = ingest(
                ingest(engine, first, t1, exists, file_id),
                second,
                t2,
                exists,
                file_id,
            );
            &&& after.queues == engine.queues.push(
                QueueView { path, events: seq![stamped(first, t1), stamped(second, t2)] },
            )
            &&& drain_unsorted(after, now) == drain_unsorted(engine, now) + seq![
                stamped(second, t2),
            ]
            &&& outputs_of(seq![stamped(second, t2)]) == seq![
                OutputEvent::ModifyMetadata { path, metadata_type: metadata_type_of(kind) },
            ]
        }),
{
    let a = stamped(first, t1);
    let b = stamped(second, t2);
    let q1 = QueueView { path, events: seq![a] };
    let s1 = ingest(engine, first, t1, exists, file_id);
    assert(Seq::<RawEventView>::empty().push(a) =~= seq![a]);
    assert(s1.queues == engine.queues.push(q1));
    lemma_new_queue(engine.queues, q1);
    let s2 = ingest(s1, second, t2, exists, file_id);
    let both = seq![a, b];
    assert(seq![a].push(b) =~= both);
    let q2 = QueueView { path, events: both };
    assert(s1.queues.update(engine.queues.len() as int, q2) =~= engine.queues.push(q2));
    assert(s2.queues == engine.queues.push(q2));
    lemma_flush_new_queue(engine.queues, q2, now, engine.window);
    assert(flushed(both, now, engine.window) == seq![b]) by {
        lemma_two_expired(a, b, now, engine.window);
        assert(both.take(2) =~= both);
        lemma_latest_of_two_alike(a, b);
    }
    assert(outputs_of(seq![b]) == seq![
        OutputEvent::ModifyMetadata { path, metadata_type: metadata_type_of(kind) },
    ]) by {
        reveal_with_fuel(outputs_of, 2);
        assert(seq![b].drop_last() =~= Seq::<RawEventView>::empty());
        assert(Seq::<OutputEvent>::empty().push(output_of(b.event)->0) =~= seq![
            output_of(b.event)->0,
        ]);
    }
}

/// Two events at the head of a queue that have both expired are both taken.
pub proof fn lemma_two_expired(a: RawEventView, b: RawEventView, now: u64, window: u64)
    requires
        is_expired(a, now, window),
        is_expired(b, now, window),
    ensures
        expired_count(seq![a, b], now, window) == 2,
{
    reveal_with_fuel(expired_count, 3);
    assert(seq![a, b].drop_first() =~= seq![b]);
    assert(seq![b].drop_first() =~= Seq::<RawEventView>::empty());
}

/// Of two events of one kind the later one stays.
pub proof fn lemma_latest_of_two_alike(a: RawEventView, b: RawEventView)
    requires
        a.event.kind == b.event.kind,
    ensures
        latest_per_kind(seq![a, b]) == seq![b],
{
    reveal_with_fuel(latest_per_kind, 3);
    let none = Seq::<RawEventView>::empty();
    assert(seq![a, b].drop_first() =~= seq![b]);
    assert(seq![b].drop_first() =~= none);
    assert(seq![b][0].event.kind == a.event.kind);
    assert(seq![b] + none =~= seq![b]);
}

/// One expired event alone in a queue is taken.
pub proof fn lemma_one_expired(a: RawEventView, now: u64, window: u64)
    requires
        is_expired(a, now, window),
    ensures
        flushed(seq![a], now, window) == seq![a],
{
    reveal_with_fuel(expired_count, 2);
    reveal_with_fuel(latest_per_kind, 2);
    assert(seq![a].drop_first() =~= Seq::<RawEventView>::empty());
    assert(seq![a].take(1) =~= seq![a]);
    assert(seq![a] + Seq::<RawEventView>::empty() =~= seq![a]);
}

/// A change of content or metadata that follows the creation of a file
/// within the window is not queued. The creation stands for both.
pub proof fn lemma_change_after_creation_is_suppressed(
    engine: EngineView,
    path: Seq<char>,
    create: EventView,
    change: EventView,
    t1: u64,
    t2: u64,
    exists: bool,
    file_id: Option<FileId>,
)
    requires
        engine.wf(),
        !has_queue(engine.queues, path),
        create.kind is Create,
        change.kind is Modify,
        change.kind->Modify_0 is Data || change.kind->Modify_0 is Metadata,
        create.paths == seq![path],
        change.paths == seq![path],
        !create.need_rescan(),
        !change.need_rescan(),
    ensures
        ingest(ingest(engine, create, t1, exists, file_id), change, t2, exists, file_id).queues
            == engine.queues.push(QueueView { path, events: seq![stamped(create, t1)] }),
{
    let a = stamped(create, t1);
    let q1 = QueueView { path, events: seq![a] };
    assert(Seq::<RawEventView>::empty().push(a) =~= seq![a]);
    lemma_new_queue(engine.queues, q1);
}

/// A file that is created and removed within the window, at a path that had
/// nothing pending, leaves nothing pending at that path. The queues are
/// those that the removal alone would have left.
pub proof fn lemma_create_then_remove_cancels(
    engine: EngineView,
    path: Seq<char>,
    create: EventView,
    remove: EventView,
    t1: u64,
    t2: u64,
    exists: bool,
    file_id: Option<FileId>,
)
    requires
        engine.wf(),
        !has_queue(engine.queues, path),
        create.kind is Create,
        remove.kind is Remove,
        create.paths == seq![path],
        remove.paths == seq![path],
        !create.need_rescan(),
        !remove.need_rescan(),
    ensures
        ({
            let after = ingest(
                ingest(engine, create, t1, exists, file_id),
                remove,
                t2,
                exists,
                file_id,
            );
            &&& after.queues == drop_below(engine.queues, path)
            &&& !has_queue(after.queues, path)
            &&& after.rename == engine.rename
            &&& after.rescan == engine.rescan
        }),
{
    let a = stamped(create, t1);
    let q1 = QueueView { path, events: seq![a] };
    assert(Seq::<RawEventView>::empty().push(a) =~= seq![a]);
    lemma_new_queue(engine.queues, q1);
    let keep = outside_of(path);
    let kept = engine.queues.filter(keep);
    engine.queues.lemma_filter_push(q1, keep);
    assert(keep(q1));
    assert(drop_below(engine.queues.push(q1), path) == kept.push(q1));
    lemma_filter_wf(engine.queues, keep);
    assert(!has_queue(kept, path)) by {
        if has_queue(kept, path) {
            let i = choose|i: int| 0 <= i < kept.len() && #[trigger] kept[i].path == path;
            assert(engine.queues.contains(kept[i]));
            let k = choose|k: int| 0 <= k < engine.queues.len() && engine.queues[k] == kept[i];
            assert(engine.queues[k].path == path);
        }
    }
    lemma_new_queue(kept, q1);
}

/// The "from" half of a rename at a path with nothing pending, and a "to"
/// half at another such path that carries no tracker and resolves to the
/// identity captured with the "from" half, leave one rename from the old to
/// the new name, with the time of the "from" half, and nothing else for
/// either path.
pub proof fn lemma_rename_is_stitched_by_identity(
    engine: EngineView,
    old_path: Seq<char>,
    new_path: Seq<char>,
    from: EventView,
    to: EventView,
    t1: u64,
    t2: u64,
    now: u64,
    id: FileId,
    exists: bool,
)
    requires
        engine.wf(),
        !has_queue(engine.queues, old_path),
        !has_queue(engine.queues, new_path),
        from.kind == rename_kind(RenameMode::From),
        to.kind == rename_kind(RenameMode::To),
        from.paths == seq![old_path],
        to.paths == seq![new_path],
        !from.need_rescan(),
        !to.need_rescan(),
        to.tracker is None,
    ensures
        ({
            let after = ingest(
                ingest(engine, from, t1, exists, Some(id)),
                to,
                t2,
                exists,
                Some(id),
            );
            let rename = stitched_rename(old_path, to, t1);
            &&& after.queues == engine.queues.push(
                QueueView { path: new_path, events: seq![rename] },
            )
            &&& after.rename is None
            &&& output_of(rename.event) == Some(OutputEvent::Rename { old_path, new_path })
            &&& is_expired(rename, now, engine.window) ==> drain_unsorted(after, now)
                == drain_unsorted(engine, now) + seq![rename]
        }),
{
    let f = stamped(from, t1);
    let q1 = QueueView { path: old_path, events: seq![f] };
    assert(Seq::<RawEventView>::empty().push(f) =~= seq![f]);
    lemma_new_queue(engine.queues, q1);
    lemma_stitch_fresh(engine.queues, old_path, new_path, f, to, t1);
    let rename = stitched_rename(old_path, to, t1);
    if is_expired(rename, now, engine.window) {
        lemma_one_expired(rename, now, engine.window);
        lemma_flush_new_queue(
            engine.queues,
            QueueView { path: new_path, events: seq![rename] },
            now,
            engine.window,
        );
    }
}

/// Where the resolver holds an identity for the old path when the "from"
/// half of a rename arrives, and holds the same identity for the new path
/// when the "to" half arrives, the two halves leave one rename from the old
/// to the new name.
pub proof fn lemma_rename_is_stitched_by_held_identity<T: FileIdCache>(
    engine: EngineView,
    at_from: T,
    at_to: T,
    old_path: Seq<char>,
    new_path: Seq<char>,
    from: EventView,
    to: EventView,
    t1: u64,
    t2: u64,
    now: u64,
    exists: bool,
)
    requires
        engine.wf(),
        !has_queue(engine.queues, old_path),
        !has_queue(engine.queues, new_path),
        from.kind == rename_kind(RenameMode::From),
        to.kind == rename_kind(RenameMode::To),
        from.paths == seq![old_path],
        to.paths == seq![new_path],
        !from.need_rescan(),
        !to.need_rescan(),
        to.tracker is None,
        at_from.held(old_path) is Some,
        at_to.held(new_path) == at_from.held(old_path),
    ensures
        ({
            let after = ingest(
                ingest(engine, from, t1, exists, identity_read(at_from, from)),
                to,
                t2,
                exists,
                identity_read(at_to, to),
            );
            let rename = stitched_rename(old_path, to, t1);
            &&& after.queues == engine.queues.push(
                QueueView { path: new_path, events: seq![rename] },
            )
            &&& after.rename is None
            &&& output_of(rename.event) == Some(OutputEvent::Rename { old_path, new_path })
        }),
{
    lemma_rename_is_stitched_by_identity(
        engine,
        old_path,
        new_path,
        from,
        to,
        t1,
        t2,
        now,
        at_from.held(old_path)->0,
        exists,
    );
}

/// Where the two halves of a rename carry no tracker, and the resolver holds
/// for the new path another identity than it held for the old one, or none,
/// the halves are not stitched.
pub proof fn lemma_rename_is_not_stitched_by_another_identity<T: FileIdCache>(
    engine: EngineView,
    at_from: T,
    at_to: T,
    old_path: Seq<char>,
    new_path: Seq<char>,
    from: EventView,
    to: EventView,
    t1: u64,
    t2: u64,
    exists: bool,
)
    requires
        engine.wf(),
        old_path != new_path,
        !has_queue(engine.queues, old_path),
        !has_queue(engine.queues, new_path),
        from.kind == rename_kind(RenameMode::From),
        to.kind == rename_kind(RenameMode::To),
        from.paths == seq![old_path],
        to.paths == seq![new_path],
        !from.need_rescan(),
        !to.need_rescan(),
        from.tracker is None,
        at_from.held(old_path) is None || at_to.held(new_path) != at_from.held(old_path),
    ensures
        ({
            let after = ingest(
                ingest(engine, from, t1, exists, identity_read(at_from, from)),
                to,
                t2,
                exists,
                identity_read(at_to, to),
            );
            &&& after.queues == engine.queues.push(
                QueueView { path: old_path, events: seq![stamped(from, t1)] },
            ).push(QueueView { path: new_path, events: seq![stamped(to, t2)] })
            &&& after.rename is None
        }),
{
    lemma_unmatched_rename_is_not_stitched(
        engine,
        old_path,
        new_path,
        from,
        to,
        t1,
        t2,
        at_from.held(old_path),
        at_to.held(new_path),
        exists,
    );
}

/// Stitching a rename whose source queue holds the "from" half alone, onto a
/// destination with nothing pending.
proof fn lemma_stitch_fresh(
    queues: Seq<QueueView>,
    old_path: Seq<char>,
    new_path: Seq<char>,
    f: RawEventView,
    to: EventView,
    time: u64,
)
    requires
        queues_wf(queues),
        !has_queue(queues, old_path),
        !has_queue(queues, new_path),
        belongs_to(f, old_path),
        to.paths == seq![new_path],
    ensures
        push_rename_event(
            queues.push(QueueView { path: old_path, events: seq![f] }),
            old_path,
            to,
            time,
        ) == queues.push(
            QueueView { path: new_path, events: seq![stitched_rename(old_path, to, time)] },
        ),
{
    let q1 = QueueView { path: old_path, events: seq![f] };
    lemma_new_queue(queues, q1);
    let none = Seq::<RawEventView>::empty();
    assert(seq![f].drop_last() =~= none);
    assert(first_stitched(none) == 0);
    assert(none.map_values(
        |e: RawEventView| RawEventView { event: e.event.at_path(new_path), time: e.time },
    ) =~= none);
    assert(seq![stitched_rename(old_path, to, time)] + none =~= seq![
        stitched_rename(old_path, to, time),
    ]);
}

/// A "to" half that neither carries the tracker of the pending "from" half
/// nor resolves to its identity is no part of that rename. Both halves stay
/// in the queues of their own paths, and leave as a deletion of the old name
/// and a creation of the new one.
pub proof fn lemma_unmatched_rename_is_not_stitched(
    engine: EngineView,
    old_path: Seq<char>,
    new_path: Seq<char>,
    from: EventView,
    to: EventView,
    t1: u64,
    t2: u64,
    from_id: Option<FileId>,
    to_id: Option<FileId>,
    exists: bool,
)
    requires
        engine.wf(),
        old_path != new_path,
        !has_queue(engine.queues, old_path),
        !has_queue(engine.queues, new_path),
        from.kind == rename_kind(RenameMode::From),
        to.kind == rename_kind(RenameMode::To),
        from.paths == seq![old_path],
        to.paths == seq![new_path],
        !from.need_rescan(),
        !to.need_rescan(),
        !(from.tracker is Some && from.tracker == to.tracker),
        !(from_id is Some && from_id == to_id),
    ensures
        ({
            let after = ingest(ingest(engine, from, t1, exists, from_id), to, t2, exists, to_id);
            &&& after.queues == engine.queues.push(
                QueueView { path: old_path, events: seq![stamped(from, t1)] },
            ).push(QueueView { path: new_path, events: seq![stamped(to, t2)] })
            &&& after.rename is None
            &&& output_of(from) == Some(
                OutputEvent::Delete { path: old_path, object_type: ObjectType::Unknown },
            )
            &&& output_of(to) == Some(
                OutputEvent::Create { path: new_path, object_type: ObjectType::Unknown },
            )
        }),
{
    let f = stamped(from, t1);
    let t = stamped(to, t2);
    let q1 = QueueView { path: old_path, events: seq![f] };
    let q2 = QueueView { path: new_path, events: seq![t] };
    assert(Seq::<RawEventView>::empty().push(f) =~= seq![f]);
    assert(Seq::<RawEventView>::empty().push(t) =~= seq![t]);
    lemma_new_queue(engine.queues, q1);
    lemma_new_queue(engine.queues.push(q1), q2);
}

/// A rename onto a path whose pending events do not start with a creation
/// implies that what was at that path is gone. The path's queue then holds
/// the implied removal first and the rename second, both with the time of
/// the "from" half.
pub proof fn lemma_rename_onto_pending_path(
    engine: EngineView,
    old_path: Seq<char>,
    new_path: Seq<char>,
    from: EventView,
    to: EventView,
    t1: u64,
    t2: u64,
    now: u64,
    from_id: Option<FileId>,
    to_id: Option<FileId>,
    exists: bool,
)
    requires
        engine.wf(),
        old_path != new_path,
        !has_queue(engine.queues, old_path),
        has_queue(engine.queues, new_path),
        !was_created(events_of(engine.queues, new_path)),
        from.kind == rename_kind(RenameMode::From),
        to.kind == rename_kind(RenameMode::To),
        from.paths == seq![old_path],
        to.paths == seq![new_path],
        !from.need_rescan(),
        !to.need_rescan(),
        (from.tracker is Some && from.tracker == to.tracker) || (from_id is Some && from_id
            == to_id),
    ensures
        ({
            let after = ingest(ingest(engine, from, t1, exists, from_id), to, t2, exists, to_id);
            let remove = implied_remove(
                new_path,
                t1,
                was_removed(events_of(engine.queues, new_path)),
            );
            let rename = stitched_rename(old_path, to, t1);
            &&& after.queues == put_queue(engine.queues, new_path, seq![remove, rename])
            &&& events_of(after.queues, new_path) == seq![remove, rename]
            &&& is_expired(remove, now, engine.window) ==> flushed(
                seq![remove, rename],
                now,
                engine.window,
            ) == seq![remove, rename]
            &&& output_of(remove.event) == Some(
                OutputEvent::Delete { path: new_path, object_type: ObjectType::Unknown },
            )
            &&& output_of(rename.event) == Some(OutputEvent::Rename { old_path, new_path })
        }),
{
    let f = stamped(from, t1);
    let q1 = QueueView { path: old_path, events: seq![f] };
    assert(Seq::<RawEventView>::empty().push(f) =~= seq![f]);
    lemma_new_queue(engine.queues, q1);
    let none = Seq::<RawEventView>::empty();
    assert(seq![f].drop_last() =~= none);
    assert(first_stitched(none) == 0);
    assert(none.map_values(
        |e: RawEventView| RawEventView { event: e.event.at_path(new_path), time: e.time },
    ) =~= none);
    let rename = stitched_rename(old_path, to, t1);
    let remove = implied_remove(new_path, t1, was_removed(events_of(engine.queues, new_path)));
    assert(seq![rename] + none =~= seq![rename]);
    assert(seq![remove] + seq![rename] =~= seq![remove, rename]);
    let i = queue_index(engine.queues, new_path);
    let out = engine.queues.update(i, QueueView { path: new_path, events: seq![remove, rename] });
    assert(out[i].path == new_path);
    assert(distinct_paths(out)) by {
        assert forall|a: int, b: int|
            0 <= a < out.len() && 0 <= b < out.len() && a != b implies #[trigger] out[a].path
            != #[trigger] out[b].path by {
            assert(out[a].path == engine.queues[a].path);
            assert(out[b].path == engine.queues[b].path);
        }
    }
    lemma_queue_at(out, i);
    if is_expired(remove, now, engine.window) {
        lemma_two_expired(remove, rename, now, engine.window);
        assert(seq![remove, rename].take(2) =~= seq![remove, rename]);
        lemma_latest_of_two_unlike(remove, rename);
    }
}

/// Of two events of different kinds both stay, in their order.
pub proof fn lemma_latest_of_two_unlike(a: RawEventView, b: RawEventView)
    requires
        a.event.kind != b.event.kind,
    ensures
        latest_per_kind(seq![a, b]) == seq![a, b],
{
    reveal_with_fuel(latest_per_kind, 3);
    let none = Seq::<RawEventView>::empty();
    assert(seq![a, b].drop_first() =~= seq![b]);
    assert(seq![b].drop_first() =~= none);
    assert(seq![b] + none =~= seq![b]);
    assert(seq![a] + seq![b] =~= seq![a, b]);
}

} // verus!
