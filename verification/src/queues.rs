//! The per-path queues: the three ways in which an event enters them, and
//! how a drain takes the expired events out.

use crate::model;
use crate::model::{
    all_belong_to, all_have_paths, belongs_to, distinct_paths, events_of, expired_count, first_stitched, flush_batch,
    flush_rest, has_queue, in_order, is_remove, kind_occurs, latest_per_kind, queue_index,
    queue_wf, queues_wf, stamped, QueueView, RawEventView,
};
use crate::notification::{Event, EventAttributes, EventKind, ModifyKind, RemoveKind, RenameMode};
use crate::processor::RawEvent;
use crate::text::is_within;
use vstd::prelude::*;

verus! {

/// The pending events of one path, oldest first.
#[derive(Debug)]
pub(crate) struct FileEventQueue {
    pub(crate) path: String,
    pub(crate) events: Vec<RawEvent>,
}

impl DeepView for FileEventQueue {
    type V = QueueView;

    closed spec fn deep_view(&self) -> QueueView {
        QueueView { path: self.path@, events: self.events.deep_view() }
    }
}

/// Whether a queue that starts with an event of this kind shows that the
/// file came into being within the window.
fn is_creation(kind: EventKind) -> (r: bool)
    ensures
        r == model::is_creation(kind),
{
    match kind {
        EventKind::Create(_) => true,
        EventKind::Modify(ModifyKind::Name(RenameMode::To)) => true,
        _ => false,
    }
}

/// Whether a queue that starts with an event of this kind shows that the
/// file went away.
fn is_removal(kind: EventKind) -> (r: bool)
    ensures
        r == model::is_removal(kind),
{
    match kind {
        EventKind::Remove(_) => true,
        EventKind::Modify(ModifyKind::Name(RenameMode::From)) => true,
        _ => false,
    }
}

/// Whether the kind is that of a rename with both names.
fn is_stitched(kind: EventKind) -> (r: bool)
    ensures
        r == model::is_stitched(kind),
{
    match kind {
        EventKind::Modify(ModifyKind::Name(RenameMode::Both)) => true,
        _ => false,
    }
}

/// Whether an event of this kind is not queued behind a creation.
fn is_suppressible(kind: EventKind) -> (r: bool)
    ensures
        r == model::is_suppressible(kind),
{
    match kind {
        EventKind::Create(_) => true,
        EventKind::Modify(ModifyKind::Data(_)) => true,
        EventKind::Modify(ModifyKind::Metadata(_)) => true,
        _ => false,
    }
}

/// Whether the first of the events is a creation.
fn was_created(events: &Vec<RawEvent>) -> (r: bool)
    ensures
        r == model::was_created(events.deep_view()),
{
    events.len() > 0 && is_creation(events[0].event.kind)
}

/// Whether the first of the events is a removal.
fn was_removed(events: &Vec<RawEvent>) -> (r: bool)
    ensures
        r == model::was_removed(events.deep_view()),
{
    events.len() > 0 && is_removal(events[0].event.kind)
}

/// The place of the queue of `path`.
fn find_queue(queues: &Vec<FileEventQueue>, path: &String) -> (r: Option<usize>)
    ensures
        match r {
            Some(i) => {
                &&& i < queues.len()
                &&& queues[i as int].path@ == path@
                &&& has_queue(queues.deep_view(), path@)
                &&& distinct_paths(queues.deep_view()) ==> i == queue_index(
                    queues.deep_view(),
                    path@,
                )
            },
            None => !has_queue(queues.deep_view(), path@),
        },
{
    let mut i: usize = 0;
    while i < queues.len()
        invariant
            i <= queues.len(),
            forall|j: int| 0 <= j < i ==> queues[j].path@ != path@,
        decreases queues.len() - i,
    {
        if queues[i].path == *path {
            assert(queues.deep_view()[i as int].path == path@);
            return Some(i);
        }
        i += 1;
    }
    assert forall|j: int| 0 <= j < queues.deep_view().len() implies #[trigger] queues.deep_view()[j].path
        != path@ by {
        assert(queues.deep_view()[j].path == queues[j].path@);
    }
    None
}

/// Well-formed queues with a well-formed queue for a path that had none at
/// their end are well formed.
pub proof fn lemma_wf_push(queues: Seq<QueueView>, q: QueueView)
    requires
        queues_wf(queues),
        queue_wf(q),
        !has_queue(queues, q.path),
    ensures
        queues_wf(queues.push(q)),
{
    let out = queues.push(q);
    assert forall|i: int| 0 <= i < out.len() implies queue_wf(#[trigger] out[i]) by {
        if i < queues.len() {
            assert(out[i] == queues[i]);
        }
    }
    assert forall|i: int, j: int|
        0 <= i < out.len() && 0 <= j < out.len() && i != j implies #[trigger] out[i].path
        != #[trigger] out[j].path by {
        if i < queues.len() {
            assert(out[i] == queues[i]);
        }
        if j < queues.len() {
            assert(out[j] == queues[j]);
        }
    }
}

/// Well-formed queues of which one is replaced by a well-formed queue of the
/// same path are well formed.
pub proof fn lemma_wf_update(queues: Seq<QueueView>, i: int, q: QueueView)
    requires
        queues_wf(queues),
        queue_wf(q),
        0 <= i < queues.len(),
        q.path == queues[i].path,
    ensures
        queues_wf(queues.update(i, q)),
{
    let out = queues.update(i, q);
    assert forall|k: int| 0 <= k < out.len() implies queue_wf(#[trigger] out[k]) by {
        if k != i {
            assert(out[k] == queues[k]);
        }
    }
    assert forall|k: int, j: int|
        0 <= k < out.len() && 0 <= j < out.len() && k != j implies #[trigger] out[k].path
        != #[trigger] out[j].path by {
        assert(out[k].path == queues[k].path);
        assert(out[j].path == queues[j].path);
    }
}

/// Well-formed queues without one of them are well formed, and hold no
/// queue of its path.
pub proof fn lemma_wf_remove(queues: Seq<QueueView>, i: int)
    requires
        queues_wf(queues),
        0 <= i < queues.len(),
    ensures
        queues_wf(queues.remove(i)),
        !has_queue(queues.remove(i), queues[i].path),
{
    let out = queues.remove(i);
    assert forall|k: int| 0 <= k < out.len() implies queue_wf(#[trigger] out[k]) && out[k].path
        != queues[i].path by {
        if k < i {
            assert(out[k] == queues[k]);
        } else {
            assert(out[k] == queues[k + 1]);
        }
    }
    assert forall|k: int, j: int|
        0 <= k < out.len() && 0 <= j < out.len() && k != j implies #[trigger] out[k].path
        != #[trigger] out[j].path by {
        let k0 = if k < i { k } else { k + 1 };
        let j0 = if j < i { j } else { j + 1 };
        assert(out[k] == queues[k0]);
        assert(out[j] == queues[j0]);
    }
}

/// Events in order stay in order when an event that is neither a removal
/// nor a stitched rename goes to their end.
pub proof fn lemma_in_order_push(events: Seq<RawEventView>, ev: RawEventView)
    requires
        in_order(events),
        events.len() > 0,
        !is_remove(ev.event.kind),
        !model::is_stitched(ev.event.kind),
    ensures
        in_order(events.push(ev)),
{
    let out = events.push(ev);
    assert forall|j: int| 0 < j < out.len() implies !is_remove((#[trigger] out[j]).event.kind) by {
        if j < events.len() {
            assert(out[j] == events[j]);
        }
    }
    assert forall|j: int|
        0 <= j < out.len() && model::is_stitched((#[trigger] out[j]).event.kind) implies j == 0
        || (j == 1 && is_remove(out[0].event.kind)) by {
        assert(out[j] == events[j]);
        assert(out[0] == events[0]);
    }
}

/// The push rule. An event that goes to the end of a queue is neither a
/// removal nor a stitched rename: those are put at the head of one.
pub(crate) fn push_event(queues: &mut Vec<FileEventQueue>, event: Event, time: u64)
    requires
        queues_wf(old(queues).deep_view()),
        event@.paths.len() > 0,
        !is_remove(event@.kind),
        !model::is_stitched(event@.kind),
    ensures
        final(queues).deep_view() == model::push_event(
            old(queues).deep_view(),
            stamped(event@, time),
        ),
        queues_wf(final(queues).deep_view()),
{
    let ghost before = queues.deep_view();
    let ghost ev = stamped(event@, time);
    let path = event.paths[0].clone();
    assert(path@ == ev.event.paths[0]);
    match find_queue(queues, &path) {
        Some(i) => {
            if !(is_suppressible(event.kind) && was_created(&queues[i].events)) {
                let ghost pending = queues[i as int].events.deep_view();
                assert(before[i as int] == queues[i as int].deep_view());
                queues[i].events.push(RawEvent::new(event, time));
                assert(queues[i as int].events.deep_view() =~= pending.push(ev));
                assert(queues.deep_view()[i as int] == queues[i as int].deep_view());
                assert forall|j: int| 0 <= j < queues.len() && j != i implies queues.deep_view()[j]
                    == before[j] by {
                    assert(queues[j] == old(queues)[j]);
                }
                let ghost grown = QueueView { path: path@, events: pending.push(ev) };
                assert(queues.deep_view() =~= before.update(i as int, grown));
                proof {
                    lemma_in_order_push(pending, ev);
                    assert(all_have_paths(grown.events)) by {
                        assert forall|j: int| 0 <= j < grown.events.len() implies (
                        #[trigger] grown.events[j]).event.paths.len() > 0 by {
                            if j < pending.len() {
                                assert(grown.events[j] == pending[j]);
                            }
                        }
                    }
                    lemma_wf_update(before, i as int, grown);
                }
            }
        },
        None => {
            let mut events: Vec<RawEvent> = Vec::new();
            events.push(RawEvent::new(event, time));
            assert(events.deep_view() =~= seq![ev]);
            queues.push(FileEventQueue { path, events });
            assert(queues.deep_view()[queues.len() - 1] == queues[queues.len() - 1].deep_view());
            let ghost alone = QueueView { path: path@, events: seq![ev] };
            assert(queues.deep_view() =~= before.push(alone));
            assert(Seq::<RawEventView>::empty().push(ev) =~= seq![ev]);
            proof {
                lemma_wf_push(before, alone);
            }
        },
    }
}

/// The front of well-formed queues is well formed.
pub proof fn lemma_wf_front(queues: Seq<QueueView>)
    requires
        queues_wf(queues),
        queues.len() > 0,
    ensures
        queues_wf(queues.drop_last()),
        !has_queue(queues.drop_last(), queues.last().path),
        queue_wf(queues.last()),
{
    assert(queues.drop_last() =~= queues.remove(queues.len() - 1));
    lemma_wf_remove(queues, queues.len() - 1);
}

/// What is kept of well-formed queues is well formed, and holds no queue
/// that was not there.
pub proof fn lemma_filter_wf(queues: Seq<QueueView>, keep: spec_fn(QueueView) -> bool)
    requires
        queues_wf(queues),
    ensures
        queues_wf(queues.filter(keep)),
        forall|i: int|
            0 <= i < queues.filter(keep).len() ==> queues.contains(
                #[trigger] queues.filter(keep)[i],
            ),
    decreases queues.len(),
{
    reveal(Seq::filter);
    if queues.len() > 0 {
        let front = queues.drop_last();
        let last = queues.last();
        lemma_wf_front(queues);
        lemma_filter_wf(front, keep);
        let kept = front.filter(keep);
        assert forall|i: int| 0 <= i < kept.len() implies queues.contains(#[trigger] kept[i]) by {
            assert(front.contains(kept[i]));
            let k = choose|k: int| 0 <= k < front.len() && front[k] == kept[i];
            assert(queues[k] == kept[i]);
        }
        if keep(last) {
            let out = kept.push(last);
            assert(queues[queues.len() - 1] == last);
            assert forall|i: int| 0 <= i < out.len() implies queues.contains(#[trigger] out[i]) by {
                if i < kept.len() {
                    assert(out[i] == kept[i]);
                }
            }
            assert(!has_queue(kept, last.path)) by {
                if has_queue(kept, last.path) {
                    let i = choose|i: int| 0 <= i < kept.len() && #[trigger] kept[i].path == last.path;
                    assert(front.contains(kept[i]));
                    let k = choose|k: int| 0 <= k < front.len() && front[k] == kept[i];
                    assert(front[k].path == last.path);
                }
            }
            lemma_wf_push(kept, last);
        }
    }
}

/// Drops the queues of the paths strictly below `root`.
fn drop_below(queues: &mut Vec<FileEventQueue>, root: &String)
    requires
        queues_wf(old(queues).deep_view()),
    ensures
        final(queues).deep_view() == model::drop_below(old(queues).deep_view(), root@),
        queues_wf(final(queues).deep_view()),
{
    let ghost before = queues.deep_view();
    let ghost keep = model::outside_of(root@);
    let ghost mut done: int = 0;
    let mut i: usize = 0;
    assert(before.take(0) =~= Seq::<QueueView>::empty());
    assert(before.skip(0) =~= before);
    proof {
        reveal(Seq::filter);
    }
    assert(queues.deep_view() =~= before.take(0).filter(keep) + before.skip(0));
    while i < queues.len()
        invariant
            0 <= done <= before.len(),
            i <= queues.len(),
            i == before.take(done).filter(keep).len(),
            queues.len() - i == before.len() - done,
            queues.deep_view() == before.take(done).filter(keep) + before.skip(done),
            keep == model::outside_of(root@),
        decreases queues.len() - i,
    {
        let ghost now = queues.deep_view();
        let ghost kept = before.take(done).filter(keep);
        assert(now[i as int] == before.skip(done)[0]);
        assert(now[i as int] == queues[i as int].deep_view());
        proof {
            before.take(done).lemma_filter_push(before[done], keep);
            assert(before.take(done).push(before[done]) =~= before.take(done + 1));
        }
        if is_within(queues[i].path.as_str(), root.as_str()) && !(queues[i].path == *root) {
            queues.remove(i);
            assert(queues.deep_view() =~= now.remove(i as int));
            assert(now.remove(i as int) =~= kept + before.skip(done + 1));
        } else {
            i += 1;
            assert(now =~= kept.push(before[done]) + before.skip(done + 1));
        }
        proof {
            done = done + 1;
        }
    }
    assert(before.take(done) =~= before);
    assert(queues.deep_view() =~= before.filter(keep));
    proof {
        lemma_filter_wf(before, keep);
    }
}

/// A removal.
pub(crate) fn push_remove_event(queues: &mut Vec<FileEventQueue>, event: Event, time: u64)
    requires
        queues_wf(old(queues).deep_view()),
        event@.paths.len() > 0,
        is_remove(event@.kind),
    ensures
        final(queues).deep_view() == model::push_remove_event(
            old(queues).deep_view(),
            stamped(event@, time),
        ),
        queues_wf(final(queues).deep_view()),
{
    let ghost ev = stamped(event@, time);
    let path = event.paths[0].clone();
    assert(path@ == ev.event.paths[0]);
    drop_below(queues, &path);
    let ghost kept = queues.deep_view();
    let ghost alone = QueueView { path: path@, events: seq![ev] };
    assert(queue_wf(alone));
    match find_queue(queues, &path) {
        Some(i) => {
            assert(kept[i as int] == queues[i as int].deep_view());
            if was_created(&queues[i].events) {
                queues.remove(i);
                assert(queues.deep_view() =~= kept.remove(i as int));
                proof {
                    lemma_wf_remove(kept, i as int);
                }
            } else {
                let mut events: Vec<RawEvent> = Vec::new();
                events.push(RawEvent::new(event, time));
                assert(events.deep_view() =~= seq![ev]);
                queues[i].events = events;
                assert(queues.deep_view()[i as int] == queues[i as int].deep_view());
                assert forall|j: int| 0 <= j < queues.len() && j != i implies queues.deep_view()[j]
                    == kept[j] by {
                    assert(queues.deep_view()[j] == queues[j].deep_view());
                }
                assert(queues.deep_view() =~= kept.update(i as int, alone));
                proof {
                    lemma_wf_update(kept, i as int, alone);
                }
            }
        },
        None => {
            let mut events: Vec<RawEvent> = Vec::new();
            events.push(RawEvent::new(event, time));
            assert(events.deep_view() =~= seq![ev]);
            queues.push(FileEventQueue { path, events });
            assert(queues.deep_view()[queues.len() - 1] == queues[queues.len() - 1].deep_view());
            assert(queues.deep_view() =~= kept.push(alone));
            proof {
                lemma_wf_push(kept, alone);
            }
        },
    }
}

/// Takes the queue of `path` out, and gives its events.
fn take_queue(queues: &mut Vec<FileEventQueue>, path: &String) -> (events: Vec<RawEvent>)
    requires
        queues_wf(old(queues).deep_view()),
    ensures
        events.deep_view() == events_of(old(queues).deep_view(), path@),
        final(queues).deep_view() == model::drop_queue(old(queues).deep_view(), path@),
        queues_wf(final(queues).deep_view()),
        all_have_paths(events.deep_view()),
        all_belong_to(events.deep_view(), path@),
        in_order(events.deep_view()),
        !has_queue(final(queues).deep_view(), path@),
{
    let ghost before = queues.deep_view();
    match find_queue(queues, path) {
        Some(i) => {
            assert(before[i as int] == queues[i as int].deep_view());
            assert(queue_wf(before[i as int]));
            let q = queues.remove(i);
            assert(queues.deep_view() =~= before.remove(i as int));
            proof {
                lemma_wf_remove(before, i as int);
            }
            q.events
        },
        None => {
            let events: Vec<RawEvent> = Vec::new();
            assert(events.deep_view() =~= Seq::<RawEventView>::empty());
            events
        },
    }
}

/// Sets the queue of `path` to `events`: in place where there is one, else
/// as a new last queue.
fn put_queue(queues: &mut Vec<FileEventQueue>, path: String, events: Vec<RawEvent>)
    requires
        queues_wf(old(queues).deep_view()),
        events.len() > 0,
        all_have_paths(events.deep_view()),
        all_belong_to(events.deep_view(), path@),
        in_order(events.deep_view()),
    ensures
        final(queues).deep_view() == model::put_queue(
            old(queues).deep_view(),
            path@,
            events.deep_view(),
        ),
        queues_wf(final(queues).deep_view()),
{
    let ghost before = queues.deep_view();
    let ghost new_queue = QueueView { path: path@, events: events.deep_view() };
    match find_queue(queues, &path) {
        Some(i) => {
            assert(before[i as int] == queues[i as int].deep_view());
            queues[i].events = events;
            assert(queues.deep_view()[i as int] == queues[i as int].deep_view());
            assert forall|j: int| 0 <= j < queues.len() && j != i implies queues.deep_view()[j]
                == before[j] by {
                assert(queues.deep_view()[j] == queues[j].deep_view());
            }
            assert(queues.deep_view() =~= before.update(i as int, new_queue));
            proof {
                lemma_wf_update(before, i as int, new_queue);
            }
        },
        None => {
            queues.push(FileEventQueue { path, events });
            assert(queues.deep_view()[queues.len() - 1] == queues[queues.len() - 1].deep_view());
            assert(queues.deep_view() =~= before.push(new_queue));
            proof {
                lemma_wf_push(before, new_queue);
            }
        },
    }
}

/// The place of the first stitched rename among the events.
fn find_stitched(events: &Vec<RawEvent>) -> (k: usize)
    ensures
        k == first_stitched(events.deep_view()),
        k <= events.len(),
        k < events.len() ==> model::is_stitched(events.deep_view()[k as int].event.kind),
{
    let ghost all = events.deep_view();
    let mut i: usize = 0;
    assert(all.skip(0) =~= all);
    while i < events.len()
        invariant
            i <= events.len(),
            all == events.deep_view(),
            first_stitched(all) == i + first_stitched(all.skip(i as int)),
        decreases events.len() - i,
    {
        assert(all.skip(i as int)[0] == all[i as int]);
        assert(all.skip(i as int).drop_first() =~= all.skip(i + 1));
        if is_stitched(events[i].event.kind) {
            return i;
        }
        i += 1;
    }
    assert(all.skip(i as int).len() == 0);
    i
}

/// Reports every one of the events against `path` alone.
fn repoint(events: &mut Vec<RawEvent>, path: &String)
    ensures
        final(events).deep_view() == model::repoint(old(events).deep_view(), path@),
        all_have_paths(final(events).deep_view()),
        unmarked(old(events).deep_view()) ==> unmarked(final(events).deep_view())
            && all_belong_to(final(events).deep_view(), path@),
{
    let ghost before = events.deep_view();
    let mut i: usize = 0;
    while i < events.len()
        invariant
            i <= events.len(),
            events.len() == before.len(),
            forall|j: int|
                0 <= j < i ==> (#[trigger] events.deep_view()[j]) == (RawEventView {
                    event: before[j].event.at_path(path@),
                    time: before[j].time,
                }),
            forall|j: int| i <= j < events.len() ==> (#[trigger] events.deep_view()[j]) == before[j],
        decreases events.len() - i,
    {
        let ghost now = events.deep_view();
        let ghost prev = events@;
        let mut paths: Vec<String> = Vec::new();
        paths.push(path.clone());
        assert(paths.deep_view() =~= seq![path@]);
        events[i].event.paths = paths;
        assert(now[i as int] == prev[i as int]@);
        assert(events.deep_view()[i as int] == events@[i as int]@);
        assert(events@[i as int].time == prev[i as int].time);
        assert(events@[i as int].event.kind == prev[i as int].event.kind);
        assert(events@[i as int].event.attrs == prev[i as int].event.attrs);
        assert(events@[i as int].event.paths.deep_view() == seq![path@]);
        assert(events.deep_view()[i as int] == (RawEventView {
            event: before[i as int].event.at_path(path@),
            time: before[i as int].time,
        }));
        assert forall|j: int| 0 <= j < events.len() && j != i implies (
        #[trigger] events.deep_view()[j]) == now[j] by {
            assert(events@[j] == prev[j]);
            assert(now[j] == prev[j]@);
        }
        i += 1;
    }
    assert(events.deep_view() =~= model::repoint(before, path@));
    assert(unmarked(before) ==> unmarked(events.deep_view()) && all_belong_to(
        events.deep_view(),
        path@,
    )) by {
        if unmarked(before) {
            assert forall|j: int| 0 <= j < events.deep_view().len() implies !is_remove(
                (#[trigger] events.deep_view()[j]).event.kind,
            ) && !model::is_stitched(events.deep_view()[j].event.kind) && belongs_to(
                events.deep_view()[j],
                path@,
            ) by {
                assert(events.deep_view()[j].event.kind == before[j].event.kind);
                assert(events.deep_view()[j].event.paths == seq![path@]);
            }
        }
    }
}

/// None of the events is a removal or a stitched rename.
pub(crate) open spec fn unmarked(events: Seq<RawEventView>) -> bool {
    forall|j: int|
        0 <= j < events.len() ==> !is_remove((#[trigger] events[j]).event.kind) && !model::is_stitched(
            events[j].event.kind,
        )
}

/// None of the events is a stitched rename, and none but the first is a
/// removal.
pub(crate) open spec fn unstitched(events: Seq<RawEventView>) -> bool {
    &&& forall|j: int| 0 <= j < events.len() ==> !model::is_stitched((#[trigger] events[j]).event.kind)
    &&& forall|j: int| 0 < j < events.len() ==> !is_remove((#[trigger] events[j]).event.kind)
}

/// None of the events is a removal, and none but the first is a stitched
/// rename.
pub(crate) open spec fn headed(events: Seq<RawEventView>) -> bool {
    &&& forall|j: int| 0 <= j < events.len() ==> !is_remove((#[trigger] events[j]).event.kind)
    &&& forall|j: int| 0 < j < events.len() ==> !model::is_stitched((#[trigger] events[j]).event.kind)
}

/// Takes the queue of the source of a rename out, and gives its events
/// without the trailing "from" half, which the rename supersedes.
fn detach_source(queues: &mut Vec<FileEventQueue>, source: &String) -> (moved: Vec<RawEvent>)
    requires
        queues_wf(old(queues).deep_view()),
    ensures
        moved.deep_view() == model::without_from(events_of(old(queues).deep_view(), source@)),
        final(queues).deep_view() == model::drop_queue(old(queues).deep_view(), source@),
        queues_wf(final(queues).deep_view()),
        all_have_paths(moved.deep_view()),
        in_order(moved.deep_view()),
{
    let mut moved = take_queue(queues, source);
    let ghost all = moved.deep_view();
    if moved.len() > 0 {
        moved.pop();
        assert(moved.deep_view() =~= all.drop_last());
        assert(in_order(moved.deep_view())) by {
            let rest = moved.deep_view();
            assert forall|j: int| 0 <= j < rest.len() implies #[trigger] rest[j] == all[j] by {}
            assert forall|j: int| 0 < j < rest.len() implies !is_remove(
                (#[trigger] rest[j]).event.kind,
            ) by {
                assert(rest[j] == all[j]);
            }
            assert forall|j: int|
                0 <= j < rest.len() && model::is_stitched(
                    (#[trigger] rest[j]).event.kind,
                ) implies j == 0 || (j == 1 && is_remove(rest[0].event.kind)) by {
                assert(rest[j] == all[j]);
                assert(rest[0] == all[0]);
            }
        }
    }
    moved
}

/// Takes an earlier hop of the same window out of the events, and gives the
/// name and the time that the rename reports as the old ones: those of the
/// hop where there is one, else `source` and `time`.
fn extract_hop(moved: &mut Vec<RawEvent>, source: String, time: u64) -> (r: (String, u64))
    requires
        all_have_paths(old(moved).deep_view()),
        in_order(old(moved).deep_view()),
    ensures
        final(moved).deep_view() == model::without_stitched(old(moved).deep_view()),
        all_have_paths(final(moved).deep_view()),
        unstitched(final(moved).deep_view()),
        r.0@ == model::hop_path(old(moved).deep_view(), source@),
        r.1 == model::hop_time(old(moved).deep_view(), time),
{
    let ghost all = moved.deep_view();
    let k = find_stitched(moved);
    if k < moved.len() {
        let mut hop = moved.remove(k);
        assert(hop@ == all[k as int]);
        assert(moved.deep_view() =~= all.remove(k as int));
        assert(unstitched(moved.deep_view())) by {
            let rest = moved.deep_view();
            assert(k == 0 || k == 1);
            assert forall|j: int| 0 <= j < rest.len() implies !model::is_stitched(
                (#[trigger] rest[j]).event.kind,
            ) by {
                if j < k {
                    assert(rest[j] == all[j]);
                } else {
                    assert(rest[j] == all[j + 1]);
                }
            }
            assert forall|j: int| 0 < j < rest.len() implies !is_remove(
                (#[trigger] rest[j]).event.kind,
            ) by {
                if j < k {
                    assert(rest[j] == all[j]);
                } else {
                    assert(rest[j] == all[j + 1]);
                }
            }
        }
        let old_time = hop.time;
        let old_path = hop.event.paths.remove(0);
        assert(old_path@ == all[k as int].event.paths[0]);
        (old_path, old_time)
    } else {
        assert(unstitched(all)) by {
            lemma_none_stitched(all);
        }
        (source, time)
    }
}

/// Where the first stitched rename is looked for in vain, there is none.
pub proof fn lemma_none_stitched(events: Seq<RawEventView>)
    requires
        first_stitched(events) >= events.len(),
    ensures
        forall|j: int| 0 <= j < events.len() ==> !model::is_stitched((#[trigger] events[j]).event.kind),
    decreases events.len(),
{
    if events.len() > 0 {
        lemma_none_stitched(events.drop_first());
        assert forall|j: int| 0 <= j < events.len() implies !model::is_stitched(
            (#[trigger] events[j]).event.kind,
        ) by {
            if j > 0 {
                assert(events.drop_first()[j - 1] == events[j]);
            }
        }
    }
}

/// Leaves a leading removal behind, in a queue of its own under the path
/// that it names.
fn split_removal(queues: &mut Vec<FileEventQueue>, moved: &mut Vec<RawEvent>)
    requires
        queues_wf(old(queues).deep_view()),
        all_have_paths(old(moved).deep_view()),
        unstitched(old(moved).deep_view()),
    ensures
        unmarked(final(moved).deep_view()),
        final(moved).deep_view() == model::without_removal(old(moved).deep_view()),
        final(queues).deep_view() == model::left_behind(
            old(queues).deep_view(),
            old(moved).deep_view(),
        ),
        queues_wf(final(queues).deep_view()),
        all_have_paths(final(moved).deep_view()),
{
    let ghost rest = moved.deep_view();
    if was_removed(moved) {
        let head = moved.remove(0);
        assert(head@ == rest[0]);
        assert(moved.deep_view() =~= rest.drop_first());
        assert(unmarked(moved.deep_view())) by {
            let left = moved.deep_view();
            assert forall|j: int| 0 <= j < left.len() implies !is_remove(
                (#[trigger] left[j]).event.kind,
            ) && !model::is_stitched(left[j].event.kind) by {
                assert(left[j] == rest[j + 1]);
            }
        }
        let key = head.event.paths[0].clone();
        assert(key@ == rest[0].event.paths[0]);
        let mut alone: Vec<RawEvent> = Vec::new();
        alone.push(head);
        assert(alone.deep_view() =~= seq![rest[0]]);
        put_queue(queues, key, alone);
    } else {
        assert(unmarked(rest)) by {
            assert forall|j: int| 0 <= j < rest.len() implies !is_remove(
                (#[trigger] rest[j]).event.kind,
            ) && !model::is_stitched(rest[j].event.kind) by {}
        }
    }
}

/// Puts the stitched rename in front of the moved events, unless they show
/// that the file came into being within the window.
fn prepend_rename(moved: &mut Vec<RawEvent>, old_path: String, event: Event, old_time: u64)
    requires
        event@.paths.len() > 0,
        all_have_paths(old(moved).deep_view()),
        all_belong_to(old(moved).deep_view(), event@.paths[0]),
        unmarked(old(moved).deep_view()),
    ensures
        headed(final(moved).deep_view()),
        all_belong_to(final(moved).deep_view(), event@.paths[0]),
        final(moved).deep_view() == model::with_rename(
            old(moved).deep_view(),
            old_path@,
            event@,
            old_time,
        ),
        all_have_paths(final(moved).deep_view()),
        final(moved).len() > 0,
{
    if !was_created(moved) {
        let mut event = event;
        let dest = event.paths.remove(0);
        let mut paths: Vec<String> = Vec::new();
        paths.push(old_path);
        paths.push(dest);
        assert(paths.deep_view() =~= seq![old_path@, dest@]);
        let rename = RawEvent {
            event: Event {
                kind: EventKind::Modify(ModifyKind::Name(RenameMode::Both)),
                paths,
                attrs: event.attrs,
            },
            time: old_time,
        };
        let ghost tail = moved.deep_view();
        moved.insert(0, rename);
        assert(moved.deep_view() =~= seq![rename@] + tail);
        assert(all_belong_to(moved.deep_view(), dest@)) by {
            let out = moved.deep_view();
            assert(rename@.event.paths.last() == dest@);
            assert forall|j: int| 0 <= j < out.len() implies belongs_to(#[trigger] out[j], dest@) by {
                if j > 0 {
                    assert(out[j] == tail[j - 1]);
                }
            }
        }
        assert(headed(moved.deep_view())) by {
            let out = moved.deep_view();
            assert forall|j: int| 0 <= j < out.len() implies !is_remove(
                (#[trigger] out[j]).event.kind,
            ) by {
                if j > 0 {
                    assert(out[j] == tail[j - 1]);
                }
            }
            assert forall|j: int| 0 < j < out.len() implies !model::is_stitched(
                (#[trigger] out[j]).event.kind,
            ) by {
                assert(out[j] == tail[j - 1]);
            }
        }
    }
}

/// Puts the removal that the rename implies in front of the moved events,
/// where the destination has pending events that do not start with a
/// creation.
fn prepend_implied_remove(
    queues: &Vec<FileEventQueue>,
    moved: &mut Vec<RawEvent>,
    dest: &String,
    old_time: u64,
)
    requires
        queues_wf(queues.deep_view()),
        all_have_paths(old(moved).deep_view()),
        all_belong_to(old(moved).deep_view(), dest@),
        headed(old(moved).deep_view()),
        old(moved).len() > 0,
    ensures
        in_order(final(moved).deep_view()),
        all_belong_to(final(moved).deep_view(), dest@),
        final(moved).deep_view() == model::with_implied_remove(
            queues.deep_view(),
            old(moved).deep_view(),
            dest@,
            old_time,
        ),
        all_have_paths(final(moved).deep_view()),
        final(moved).len() > 0,
{
    match find_queue(queues, dest) {
        Some(j) => {
            assert(queues.deep_view()[j as int] == queues[j as int].deep_view());
            if !was_created(&queues[j].events) {
                let observed = was_removed(&queues[j].events);
                let info = if observed {
                    None
                } else {
                    Some("override".to_owned())
                };
                let mut paths: Vec<String> = Vec::new();
                paths.push(dest.clone());
                assert(paths.deep_view() =~= seq![dest@]);
                let remove = RawEvent {
                    event: Event {
                        kind: EventKind::Remove(RemoveKind::Any),
                        paths,
                        attrs: EventAttributes { tracker: None, flag: None, info },
                    },
                    time: old_time,
                };
                assert(remove@ == model::implied_remove(dest@, old_time, observed));
                let ghost tail = moved.deep_view();
                moved.insert(0, remove);
                assert(moved.deep_view() =~= seq![remove@] + tail);
                assert(all_belong_to(moved.deep_view(), dest@)) by {
                    let out = moved.deep_view();
                    assert forall|j: int| 0 <= j < out.len() implies belongs_to(
                        #[trigger] out[j],
                        dest@,
                    ) by {
                        if j > 0 {
                            assert(out[j] == tail[j - 1]);
                        }
                    }
                }
                assert(in_order(moved.deep_view())) by {
                    let out = moved.deep_view();
                    assert forall|j: int| 0 < j < out.len() implies !is_remove(
                        (#[trigger] out[j]).event.kind,
                    ) by {
                        assert(out[j] == tail[j - 1]);
                    }
                    assert forall|j: int|
                        0 <= j < out.len() && model::is_stitched(
                            (#[trigger] out[j]).event.kind,
                        ) implies j == 0 || (j == 1 && is_remove(out[0].event.kind)) by {
                        if j > 0 {
                            assert(out[j] == tail[j - 1]);
                        }
                    }
                }
            }
        },
        None => {},
    }
}

/// Rename stitching: the queue of `source` becomes that of the first path
/// of `event`, the "to" half of the rename. `time` is when the "from" half
/// was observed.
pub(crate) fn push_rename_event(
    queues: &mut Vec<FileEventQueue>,
    source: String,
    event: Event,
    time: u64,
)
    requires
        queues_wf(old(queues).deep_view()),
        event@.paths.len() > 0,
    ensures
        final(queues).deep_view() == model::push_rename_event(
            old(queues).deep_view(),
            source@,
            event@,
            time,
        ),
        queues_wf(final(queues).deep_view()),
{
    let dest = event.paths[0].clone();
    let mut moved = detach_source(queues, &source);
    let (old_path, old_time) = extract_hop(&mut moved, source, time);
    split_removal(queues, &mut moved);
    repoint(&mut moved, &dest);
    prepend_rename(&mut moved, old_path, event, old_time);
    prepend_implied_remove(queues, &mut moved, &dest, old_time);
    put_queue(queues, dest, moved);
}

/// Whether an event has been held for the whole window.
pub(crate) fn is_expired(e: &RawEvent, now: u64, window: u64) -> (r: bool)
    ensures
        r == model::is_expired(e@, now, window),
{
    let age = if now >= e.time {
        now - e.time
    } else {
        0
    };
    age >= window
}

/// Takes the expired events at the head of a queue out of it.
fn split_expired(events: &mut Vec<RawEvent>, now: u64, window: u64) -> (taken: Vec<RawEvent>)
    ensures
        taken.deep_view() == old(events).deep_view().take(
            expired_count(old(events).deep_view(), now, window),
        ),
        final(events).deep_view() == model::unflushed(old(events).deep_view(), now, window),
{
    let ghost all = events.deep_view();
    let mut n: usize = 0;
    assert(all.skip(0) =~= all);
    while n < events.len() && is_expired(&events[n], now, window)
        invariant
            n <= events.len(),
            all == events.deep_view(),
            expired_count(all, now, window) == n + expired_count(all.skip(n as int), now, window),
        decreases events.len() - n,
    {
        assert(all.skip(n as int)[0] == all[n as int]);
        assert(all.skip(n as int).drop_first() =~= all.skip(n + 1));
        n += 1;
    }
    assert(expired_count(all, now, window) == n) by {
        if n < events.len() {
            assert(all.skip(n as int)[0] == all[n as int]);
        }
    }
    let mut taken = events.split_off(n);
    core::mem::swap(events, &mut taken);
    assert(taken.deep_view() =~= all.take(n as int));
    assert(events.deep_view() =~= all.skip(n as int));
    taken
}

/// The place of the first event of the given kind, or the number of events
/// where there is none.
spec fn first_of_kind(events: Seq<RawEventView>, kind: EventKind) -> int
    decreases events.len(),
{
    if events.len() == 0 {
        0
    } else if events[0].event.kind == kind {
        0
    } else {
        1 + first_of_kind(events.drop_first(), kind)
    }
}

/// The events without the first one of the given kind.
spec fn without_kind(events: Seq<RawEventView>, kind: EventKind) -> Seq<RawEventView> {
    if first_of_kind(events, kind) < events.len() {
        events.remove(first_of_kind(events, kind))
    } else {
        events
    }
}

/// The first event of a kind is looked for in vain exactly where no event
/// is of that kind.
proof fn lemma_first_of_kind(events: Seq<RawEventView>, kind: EventKind)
    ensures
        0 <= first_of_kind(events, kind) <= events.len(),
        first_of_kind(events, kind) < events.len() <==> kind_occurs(events, kind),
    decreases events.len(),
{
    if events.len() > 0 {
        let rest = events.drop_first();
        lemma_first_of_kind(rest, kind);
        if events[0].event.kind != kind {
            if kind_occurs(rest, kind) {
                let j = choose|j: int| 0 <= j < rest.len() && (#[trigger] rest[j]).event.kind == kind;
                assert(events[j + 1] == rest[j]);
            }
            if kind_occurs(events, kind) {
                let j = choose|j: int|
                    0 <= j < events.len() && (#[trigger] events[j]).event.kind == kind;
                assert(rest[j - 1] == events[j]);
            }
        }
    }
}

/// What stays of events is some of them.
proof fn lemma_latest_members(events: Seq<RawEventView>, kind: EventKind)
    requires
        kind_occurs(latest_per_kind(events), kind),
    ensures
        kind_occurs(events, kind),
    decreases events.len(),
{
    if events.len() > 0 {
        let rest = events.drop_first();
        let kept = latest_per_kind(rest);
        let out = latest_per_kind(events);
        let j = choose|j: int| 0 <= j < out.len() && (#[trigger] out[j]).event.kind == kind;
        if kind_occurs(rest, events[0].event.kind) {
            lemma_latest_members(rest, kind);
        } else if j > 0 {
            assert(out[j] == kept[j - 1]);
            lemma_latest_members(rest, kind);
        } else {
            assert(out[0] == events[0]);
        }
        if kind_occurs(rest, kind) {
            let m = choose|m: int| 0 <= m < rest.len() && (#[trigger] rest[m]).event.kind == kind;
            assert(events[m + 1] == rest[m]);
        }
    }
}

/// An event that follows takes the place of the one of its kind that stayed
/// so far.
proof fn lemma_latest_push(events: Seq<RawEventView>, e: RawEventView)
    ensures
        latest_per_kind(events.push(e)) == without_kind(latest_per_kind(events), e.event.kind).push(
            e,
        ),
    decreases events.len(),
{
    let kind = e.event.kind;
    let none = Seq::<RawEventView>::empty();
    if events.len() == 0 {
        assert(events.push(e).drop_first() =~= none);
        assert(events.push(e)[0] == e);
        assert(seq![e] + none =~= none.push(e));
        assert(events =~= none);
    } else {
        let head = events[0];
        let rest = events.drop_first();
        let all = events.push(e);
        assert(all.drop_first() =~= rest.push(e));
        assert(all[0] == head);
        lemma_latest_push(rest, e);
        let kept = latest_per_kind(rest);
        lemma_first_of_kind(kept, kind);
        if head.event.kind == kind {
            assert(rest.push(e)[rest.len() as int].event.kind == kind);
            if kind_occurs(rest, kind) {
            } else {
                // the head was the one of its kind that stayed
                let was = seq![head] + kept;
                assert(was[0] == head);
                assert(was.remove(0) =~= kept);
                if kind_occurs(kept, kind) {
                    lemma_latest_members(rest, kind);
                }
            }
        } else {
            assert(kind_occurs(rest.push(e), head.event.kind) == kind_occurs(
                rest,
                head.event.kind,
            )) by {
                if kind_occurs(rest, head.event.kind) {
                    let j = choose|j: int|
                        0 <= j < rest.len() && (#[trigger] rest[j]).event.kind == head.event.kind;
                    assert(rest.push(e)[j] == rest[j]);
                }
                if kind_occurs(rest.push(e), head.event.kind) {
                    let j = choose|j: int|
                        0 <= j < rest.push(e).len() && (#[trigger] rest.push(e)[j]).event.kind
                            == head.event.kind;
                    assert(rest[j] == rest.push(e)[j]);
                }
            }
            if !kind_occurs(rest, head.event.kind) {
                let was = seq![head] + kept;
                assert(was[0] == head);
                assert(was.drop_first() =~= kept);
                let k = first_of_kind(kept, kind);
                if k < kept.len() {
                    assert(was.remove(k + 1) =~= seq![head] + kept.remove(k));
                }
                assert(seq![head] + without_kind(kept, kind).push(e) =~= (seq![head]
                    + without_kind(kept, kind)).push(e));
            }
        }
    }
}

/// The place of the first event of the given kind.
fn find_kind(events: &Vec<RawEvent>, kind: EventKind) -> (k: usize)
    ensures
        k == first_of_kind(events.deep_view(), kind),
        k <= events.len(),
{
    let ghost all = events.deep_view();
    let mut i: usize = 0;
    assert(all.skip(0) =~= all);
    while i < events.len()
        invariant
            i <= events.len(),
            all == events.deep_view(),
            first_of_kind(all, kind) == i + first_of_kind(all.skip(i as int), kind),
        decreases events.len() - i,
    {
        assert(all.skip(i as int)[0] == all[i as int]);
        assert(all.skip(i as int).drop_first() =~= all.skip(i + 1));
        if events[i].event.kind == kind {
            return i;
        }
        i += 1;
    }
    assert(all.skip(i as int).len() == 0);
    i
}

/// Last write wins: of the events of one kind only the last one is kept.
fn keep_latest(taken: Vec<RawEvent>) -> (kept: Vec<RawEvent>)
    ensures
        kept.deep_view() == latest_per_kind(taken.deep_view()),
{
    let ghost all = taken.deep_view();
    let mut kept: Vec<RawEvent> = Vec::new();
    assert(all.take(0) =~= Seq::<RawEventView>::empty());
    assert(kept.deep_view() =~= latest_per_kind(all.take(0)));
    for e in it: taken
        invariant
            it.seq() == taken@,
            all == taken.deep_view(),
            kept.deep_view() == latest_per_kind(all.take(it.index() as int)),
    {
        let ghost n = it.index() as int;
        let ghost before = kept.deep_view();
        assert(e@ == all[n]);
        assert(all.take(n).push(all[n]) =~= all.take(n + 1));
        proof {
            lemma_latest_push(all.take(n), all[n]);
        }
        let k = find_kind(&kept, e.event.kind);
        if k < kept.len() {
            kept.remove(k);
            assert(kept.deep_view() =~= before.remove(k as int));
        }
        let ghost trimmed = kept.deep_view();
        kept.push(e);
        assert(kept.deep_view() =~= trimmed.push(all[n]));
    }
    assert(all.take(all.len() as int) =~= all);
    kept
}

/// Takes what has expired out of every queue, and drops the queues that
/// this empties. What is taken goes to the end of `batch`, queue by queue.
pub(crate) fn flush(
    queues: &mut Vec<FileEventQueue>,
    batch: &mut Vec<RawEvent>,
    now: u64,
    window: u64,
)
    requires
        queues_wf(old(queues).deep_view()),
    ensures
        final(batch).deep_view() == old(batch).deep_view() + flush_batch(
            old(queues).deep_view(),
            now,
            window,
        ),
        final(queues).deep_view() == flush_rest(old(queues).deep_view(), now, window),
        queues_wf(final(queues).deep_view()),
{
    let ghost before = queues.deep_view();
    let ghost head = batch.deep_view();
    let ghost mut done: int = 0;
    let mut i: usize = 0;
    assert(before.take(0) =~= Seq::<QueueView>::empty());
    assert(before.skip(0) =~= before);
    assert(batch.deep_view() =~= head + flush_batch(before.take(0), now, window));
    assert(queues.deep_view() =~= flush_rest(before.take(0), now, window) + before.skip(0));
    while i < queues.len()
        invariant
            0 <= done <= before.len(),
            i <= queues.len(),
            queues_wf(before),
            i == flush_rest(before.take(done), now, window).len(),
            queues.len() - i == before.len() - done,
            batch.deep_view() == head + flush_batch(before.take(done), now, window),
            queues.deep_view() == flush_rest(before.take(done), now, window) + before.skip(done),
        decreases queues.len() - i,
    {
        let ghost current = queues.deep_view();
        let ghost so_far = batch.deep_view();
        let ghost rest = flush_rest(before.take(done), now, window);
        assert(current[i as int] == before.skip(done)[0]);
        assert(current[i as int] == queues[i as int].deep_view());
        assert(before.take(done + 1).drop_last() =~= before.take(done));
        assert(before.take(done + 1).last() == before[done]);
        let taken = split_expired(&mut queues[i].events, now, window);
        let mut kept = keep_latest(taken);
        let ghost added = kept.deep_view();
        batch.append(&mut kept);
        assert(batch.deep_view() =~= so_far + added);
        assert(batch.deep_view() =~= head + flush_batch(before.take(done + 1), now, window));
        let ghost left = model::unflushed(before[done].events, now, window);
        assert(queues[i as int].deep_view() == (QueueView { path: before[done].path, events: left }));
        assert forall|j: int| 0 <= j < queues.len() && j != i implies (
        #[trigger] queues.deep_view()[j]) == current[j] by {
            assert(queues.deep_view()[j] == queues[j].deep_view());
        }
        let ghost mid = queues.deep_view();
        assert(mid =~= current.update(
            i as int,
            QueueView { path: before[done].path, events: left },
        ));
        if queues[i].events.len() == 0 {
            queues.remove(i);
            assert(queues.deep_view() =~= mid.remove(i as int));
            assert(queues.deep_view() =~= rest + before.skip(done + 1));
        } else {
            assert(queues.deep_view()[i as int] == queues[i as int].deep_view());
            i += 1;
            assert(queues.deep_view() =~= rest.push(
                QueueView { path: before[done].path, events: left },
            ) + before.skip(done + 1));
        }
        proof {
            done = done + 1;
        }
    }
    assert(before.take(done) =~= before);
    assert(queues.deep_view() =~= flush_rest(before, now, window));
    proof {
        lemma_flush_rest_wf(before, now, window);
    }
}

/// The expired events at the head of a queue are some of its events.
pub proof fn lemma_expired_count_bounds(events: Seq<RawEventView>, now: u64, window: u64)
    ensures
        0 <= expired_count(events, now, window) <= events.len(),
    decreases events.len(),
{
    if events.len() > 0 && model::is_expired(events[0], now, window) {
        lemma_expired_count_bounds(events.drop_first(), now, window);
    }
}

/// What a drain leaves of well-formed queues is well formed, and every queue
/// that it leaves was there, under the same path.
pub proof fn lemma_flush_rest_wf(queues: Seq<QueueView>, now: u64, window: u64)
    requires
        queues_wf(queues),
    ensures
        queues_wf(flush_rest(queues, now, window)),
        forall|i: int|
            0 <= i < flush_rest(queues, now, window).len() ==> has_queue(
                queues,
                (#[trigger] flush_rest(queues, now, window)[i]).path,
            ),
    decreases queues.len(),
{
    if queues.len() > 0 {
        let front = queues.drop_last();
        let last = queues.last();
        assert(queues_wf(front)) by {
            assert forall|i: int| 0 <= i < front.len() implies (#[trigger] front[i]).events.len()
                > 0 by {
                assert(front[i] == queues[i]);
            }
            assert forall|i: int, j: int|
                0 <= i < front.len() && 0 <= j < front.len() && i != j implies #[trigger] front[i].path
                != #[trigger] front[j].path by {
                assert(front[i] == queues[i] && front[j] == queues[j]);
            }
            assert forall|i: int, j: int|
                0 <= i < front.len() && 0 <= j < front[i].events.len() implies (
            #[trigger] front[i].events[j]).event.paths.len() > 0 by {
                assert(front[i] == queues[i]);
            }
        }
        lemma_flush_rest_wf(front, now, window);
        lemma_expired_count_bounds(last.events, now, window);
        let rest = flush_rest(front, now, window);
        let out = flush_rest(queues, now, window);
        let left = model::unflushed(last.events, now, window);
        assert forall|i: int| 0 <= i < rest.len() implies has_queue(queues, (#[trigger] rest[i]).path) by {
            let k = choose|k: int| 0 <= k < front.len() && #[trigger] front[k].path == rest[i].path;
            assert(queues[k].path == rest[i].path);
        }
        assert(queues[queues.len() - 1].path == last.path);
        if left.len() > 0 {
            assert(out == rest.push(QueueView { path: last.path, events: left }));
            assert forall|i: int, j: int|
                0 <= i < out.len() && 0 <= j < out.len() && i != j implies #[trigger] out[i].path
                != #[trigger] out[j].path by {
                if i < rest.len() && j < rest.len() {
                    assert(out[i] == rest[i] && out[j] == rest[j]);
                } else if i < rest.len() {
                    assert(out[i] == rest[i]);
                    let k = choose|k: int|
                        0 <= k < front.len() && #[trigger] front[k].path == rest[i].path;
                    assert(queues[k].path == out[i].path);
                } else {
                    assert(out[j] == rest[j]);
                    let k = choose|k: int|
                        0 <= k < front.len() && #[trigger] front[k].path == rest[j].path;
                    assert(queues[k].path == out[j].path);
                }
            }
            assert forall|i: int, j: int|
                0 <= i < out.len() && 0 <= j < out[i].events.len() implies (
            #[trigger] out[i].events[j]).event.paths.len() > 0 by {
                if i < rest.len() {
                    assert(out[i] == rest[i]);
                } else {
                    let n = expired_count(last.events, now, window);
                    assert(left[j] == last.events[j + n]);
                    assert(queues[queues.len() - 1].events[j + n] == left[j]);
                }
            }
            assert forall|i: int| 0 <= i < out.len() implies has_queue(queues, (#[trigger] out[i]).path) by {
                if i < rest.len() {
                    assert(out[i] == rest[i]);
                }
            }
        }
    }
}

} // verus!
