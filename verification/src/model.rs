//! The mathematical model of the engine: per-path queues of timestamped
//! notifications, and the transitions that ingesting and draining perform.

use crate::notification::{EventKind, EventView, ModifyKind, RemoveKind, RenameMode};
use file_id::FileId;
use vstd::prelude::*;

verus! {

/// A notification together with the time at which it was observed.
pub struct RawEventView {
    pub event: EventView,
    pub time: u64,
}

/// The pending events of one path, oldest first.
pub struct QueueView {
    pub path: Seq<char>,
    pub events: Seq<RawEventView>,
}

/// The unmatched "from" half of a rename, with the identity that its path
/// had when it arrived.
pub struct PendingRename {
    pub event: RawEventView,
    pub file_id: Option<FileId>,
}

/// Everything the engine holds, but for the error backlog and the resolver.
pub struct EngineView {
    /// One queue per path, in the order in which the queues were made.
    pub queues: Seq<QueueView>,
    pub rename: Option<PendingRename>,
    pub rescan: Option<RawEventView>,
    /// The buffering window.
    pub window: u64,
}

/// `path` is `root` or lies below it: `root` is a prefix of `path` that ends
/// at a separator.
pub open spec fn path_within(path: Seq<char>, root: Seq<char>) -> bool {
    &&& root.len() <= path.len()
    &&& path.subrange(0, root.len() as int) == root
    &&& (root.len() == path.len() || path[root.len() as int] == '/' || (root.len() > 0
        && root.last() == '/'))
}

/// The head of a queue that starts like this shows that the file came into
/// being within the window.
pub open spec fn is_creation(kind: EventKind) -> bool {
    kind is Create || kind == EventKind::Modify(ModifyKind::Name(RenameMode::To))
}

/// The head of a queue that starts like this shows that the file went away.
pub open spec fn is_removal(kind: EventKind) -> bool {
    kind is Remove || kind == EventKind::Modify(ModifyKind::Name(RenameMode::From))
}

/// A rename with both names, as stitching makes it.
pub open spec fn is_stitched(kind: EventKind) -> bool {
    kind == EventKind::Modify(ModifyKind::Name(RenameMode::Both))
}

/// Kinds that are not queued behind a creation: a second creation, and
/// changes to content or metadata.
pub open spec fn is_suppressible(kind: EventKind) -> bool {
    match kind {
        EventKind::Create(_) => true,
        EventKind::Modify(ModifyKind::Data(_)) => true,
        EventKind::Modify(ModifyKind::Metadata(_)) => true,
        _ => false,
    }
}

/// The events show that the file came into being within the window.
pub open spec fn was_created(events: Seq<RawEventView>) -> bool {
    events.len() > 0 && is_creation(events[0].event.kind)
}

/// The events show that the file went away.
pub open spec fn was_removed(events: Seq<RawEventView>) -> bool {
    events.len() > 0 && is_removal(events[0].event.kind)
}

/// Some queue belongs to `path`.
pub open spec fn has_queue(queues: Seq<QueueView>, path: Seq<char>) -> bool {
    exists|i: int| 0 <= i < queues.len() && #[trigger] queues[i].path == path
}

/// The place of the queue of `path`, where there is one.
pub open spec fn queue_index(queues: Seq<QueueView>, path: Seq<char>) -> int {
    choose|i: int| 0 <= i < queues.len() && #[trigger] queues[i].path == path
}

/// No path has two queues.
pub open spec fn distinct_paths(queues: Seq<QueueView>) -> bool {
    forall|i: int, j: int|
        0 <= i < queues.len() && 0 <= j < queues.len() && i != j ==> #[trigger] queues[i].path
            != #[trigger] queues[j].path
}

/// The pending events of `path`; none where it has no queue.
pub open spec fn events_of(queues: Seq<QueueView>, path: Seq<char>) -> Seq<RawEventView> {
    if has_queue(queues, path) {
        queues[queue_index(queues, path)].events
    } else {
        Seq::empty()
    }
}

/// The queues with those of `path` set to `events`: in place where `path`
/// has a queue, and as a new last queue where it has none.
pub open spec fn put_queue(queues: Seq<QueueView>, path: Seq<char>, events: Seq<RawEventView>) -> Seq<
    QueueView,
> {
    if has_queue(queues, path) {
        queues.update(queue_index(queues, path), QueueView { path, events })
    } else {
        queues.push(QueueView { path, events })
    }
}

/// The queues without that of `path`.
pub open spec fn drop_queue(queues: Seq<QueueView>, path: Seq<char>) -> Seq<QueueView> {
    if has_queue(queues, path) {
        queues.remove(queue_index(queues, path))
    } else {
        queues
    }
}

/// The queues that a removal of `root` leaves: its own, and those of paths
/// that do not lie below it.
pub open spec fn outside_of(root: Seq<char>) -> spec_fn(QueueView) -> bool {
    |q: QueueView| !path_within(q.path, root) || q.path == root
}

/// The queues without those of paths strictly below `root`.
pub open spec fn drop_below(queues: Seq<QueueView>, root: Seq<char>) -> Seq<QueueView> {
    queues.filter(outside_of(root))
}

/// The push rule: the event goes to the end of the queue of its first path,
/// unless that queue starts with a creation and the event is one of the
/// kinds that a creation makes redundant.
pub open spec fn push_event(queues: Seq<QueueView>, ev: RawEventView) -> Seq<QueueView>
    recommends
        ev.event.paths.len() > 0,
{
    let path = ev.event.paths[0];
    let pending = events_of(queues, path);
    if has_queue(queues, path) && is_suppressible(ev.event.kind) && was_created(pending) {
        queues
    } else {
        put_queue(queues, path, pending.push(ev))
    }
}

/// A removal: the queues below the path go; the path's own queue goes too
/// where it starts with a creation, and else holds the removal alone.
pub open spec fn push_remove_event(queues: Seq<QueueView>, ev: RawEventView) -> Seq<QueueView>
    recommends
        ev.event.paths.len() > 0,
{
    let path = ev.event.paths[0];
    let kept = drop_below(queues, path);
    if was_created(events_of(kept, path)) {
        drop_queue(kept, path)
    } else {
        put_queue(kept, path, seq![ev])
    }
}

/// The place of the first stitched rename among `events`, or their number
/// where there is none.
pub open spec fn first_stitched(events: Seq<RawEventView>) -> int
    decreases events.len(),
{
    if events.len() == 0 {
        0
    } else if is_stitched(events[0].event.kind) {
        0
    } else {
        1 + first_stitched(events.drop_first())
    }
}

/// Every event reported against `path` alone.
pub open spec fn repoint(events: Seq<RawEventView>, path: Seq<char>) -> Seq<RawEventView> {
    events.map_values(|e: RawEventView| RawEventView { event: e.event.at_path(path), time: e.time })
}

/// The rename that stitching puts at the head of a queue.
pub open spec fn stitched_rename(old_path: Seq<char>, to: EventView, time: u64) -> RawEventView
    recommends
        to.paths.len() > 0,
{
    RawEventView {
        event: EventView {
            kind: EventKind::Modify(ModifyKind::Name(RenameMode::Both)),
            paths: seq![old_path, to.paths[0]],
            tracker: to.tracker,
            flag: to.flag,
            info: to.info,
        },
        time,
    }
}

/// The removal that a rename onto a path with pending events implies.
/// `observed` says that the path's queue already started with a removal;
/// where it did not, the event is marked as an override.
pub open spec fn implied_remove(path: Seq<char>, time: u64, observed: bool) -> RawEventView {
    RawEventView {
        event: EventView {
            kind: EventKind::Remove(RemoveKind::Any),
            paths: seq![path],
            tracker: None,
            flag: None,
            info: if observed {
                None
            } else {
                Some("override"@)
            },
        },
        time,
    }
}

/// What is left of the source queue of a rename once its trailing "from"
/// half is dropped.
pub open spec fn without_from(events: Seq<RawEventView>) -> Seq<RawEventView> {
    if events.len() > 0 {
        events.drop_last()
    } else {
        events
    }
}

/// The events without the first stitched rename among them.
pub open spec fn without_stitched(events: Seq<RawEventView>) -> Seq<RawEventView> {
    if first_stitched(events) < events.len() {
        events.remove(first_stitched(events))
    } else {
        events
    }
}

/// The events without a leading removal.
pub open spec fn without_removal(events: Seq<RawEventView>) -> Seq<RawEventView> {
    if was_removed(events) {
        events.drop_first()
    } else {
        events
    }
}

/// The old name that a stitched rename reports: that of an earlier hop in the
/// same window where the events hold one, else `source`.
pub open spec fn hop_path(events: Seq<RawEventView>, source: Seq<char>) -> Seq<char> {
    let k = first_stitched(events);
    if k < events.len() {
        events[k].event.paths[0]
    } else {
        source
    }
}

/// The time that a stitched rename reports: that of an earlier hop in the
/// same window where the events hold one, else `time`.
pub open spec fn hop_time(events: Seq<RawEventView>, time: u64) -> u64 {
    let k = first_stitched(events);
    if k < events.len() {
        events[k].time
    } else {
        time
    }
}

/// The queues once a leading removal among `events` is left behind, in a
/// queue of its own under the path that it names.
pub open spec fn left_behind(queues: Seq<QueueView>, events: Seq<RawEventView>) -> Seq<QueueView> {
    if was_removed(events) {
        put_queue(queues, events[0].event.paths[0], seq![events[0]])
    } else {
        queues
    }
}

/// The moved events with the stitched rename in front, unless they show that
/// the file came into being within the window.
pub open spec fn with_rename(
    moved: Seq<RawEventView>,
    old_path: Seq<char>,
    to: EventView,
    old_time: u64,
) -> Seq<RawEventView>
    recommends
        to.paths.len() > 0,
{
    if was_created(moved) {
        moved
    } else {
        seq![stitched_rename(old_path, to, old_time)] + moved
    }
}

/// The moved events with the removal that the rename implies in front, where
/// the destination has pending events that do not start with a creation.
pub open spec fn with_implied_remove(
    queues: Seq<QueueView>,
    moved: Seq<RawEventView>,
    dest: Seq<char>,
    old_time: u64,
) -> Seq<RawEventView> {
    let target = events_of(queues, dest);
    if has_queue(queues, dest) && !was_created(target) {
        seq![implied_remove(dest, old_time, was_removed(target))] + moved
    } else {
        moved
    }
}

/// Rename stitching: the queue of `source` becomes the queue of the
/// destination `to.paths[0]`.
///
/// The trailing "from" half is dropped. An earlier hop of the same window is
/// taken out and gives the old name and the time. A leading removal stays
/// behind in a queue of its own. What is left is reported against the
/// destination, with the stitched rename in front of it, and with the
/// removal that the rename implies in front of that.
pub open spec fn push_rename_event(
    queues: Seq<QueueView>,
    source: Seq<char>,
    to: EventView,
    time: u64,
) -> Seq<QueueView>
    recommends
        to.paths.len() > 0,
{
    let dest = to.paths[0];
    let trimmed = without_from(events_of(queues, source));
    let rest = without_stitched(trimmed);
    let q2 = left_behind(drop_queue(queues, source), rest);
    let moved = with_rename(
        repoint(without_removal(rest), dest),
        hop_path(trimmed, source),
        to,
        hop_time(trimmed, time),
    );
    put_queue(q2, dest, with_implied_remove(q2, moved, dest, hop_time(trimmed, time)))
}

/// A notification observed at `time`.
pub open spec fn stamped(event: EventView, time: u64) -> RawEventView {
    RawEventView { event, time }
}

/// The "from" half of a rename: it is held as pending with the identity that
/// its path had, and queued.
pub open spec fn rename_from(
    engine: EngineView,
    event: EventView,
    now: u64,
    file_id: Option<FileId>,
) -> EngineView
    recommends
        event.paths.len() > 0,
{
    EngineView {
        queues: push_event(engine.queues, stamped(event, now)),
        rename: Some(PendingRename { event: stamped(event, now), file_id }),
        ..engine
    }
}

/// A "to" half belongs to the pending "from" half: both carry the same
/// tracker, or the identity captured with the "from" half is the one that
/// the new path resolved to.
pub open spec fn rename_matches(
    pending: Option<PendingRename>,
    to: EventView,
    file_id: Option<FileId>,
) -> bool {
    match pending {
        Some(p) => {
            ||| (p.event.event.tracker is Some && p.event.event.tracker == to.tracker)
            ||| (p.file_id is Some && p.file_id == file_id)
        },
        None => false,
    }
}

/// The "to" half of a rename: stitched to the pending "from" half where the
/// two match, else queued as a move into the watched tree. Nothing is
/// pending afterwards.
pub open spec fn rename_to(
    engine: EngineView,
    event: EventView,
    now: u64,
    file_id: Option<FileId>,
) -> EngineView
    recommends
        event.paths.len() > 0,
{
    let queues = if rename_matches(engine.rename, event, file_id) {
        let from = engine.rename->0.event;
        push_rename_event(engine.queues, from.event.paths[0], event, from.time)
    } else {
        push_event(engine.queues, stamped(event, now))
    };
    EngineView { queues, rename: None, ..engine }
}

/// What a notification does to the engine.
///
/// `exists` says whether the notification's first path is there on disk, and
/// is looked at for a rename of unknown direction only. `file_id` is the
/// identity that the resolver had for the first path before the notification
/// changed anything.
pub open spec fn ingest(
    engine: EngineView,
    event: EventView,
    now: u64,
    exists: bool,
    file_id: Option<FileId>,
) -> EngineView {
    if event.need_rescan() {
        EngineView { rescan: Some(stamped(event, now)), ..engine }
    } else if event.paths.len() == 0 {
        engine
    } else {
        match event.kind {
            EventKind::Create(_) => EngineView {
                queues: push_event(engine.queues, stamped(event, now)),
                ..engine
            },
            EventKind::Modify(ModifyKind::Name(mode)) => match mode {
                RenameMode::Any => if exists {
                    rename_to(engine, event.with_kind(rename_kind(RenameMode::To)), now, file_id)
                } else {
                    rename_from(
                        engine,
                        event.with_kind(rename_kind(RenameMode::From)),
                        now,
                        file_id,
                    )
                },
                RenameMode::To => rename_to(engine, event, now, file_id),
                RenameMode::From => rename_from(engine, event, now, file_id),
                RenameMode::Both => engine,
                RenameMode::Other => engine,
            },
            EventKind::Remove(_) => EngineView {
                queues: push_remove_event(engine.queues, stamped(event, now)),
                ..engine
            },
            _ => EngineView { queues: push_event(engine.queues, stamped(event, now)), ..engine },
        }
    }
}

/// The notification is one half of a rename: only then does the identity
/// of its first path bear on what it does to the engine.
pub open spec fn is_rename_half(event: EventView) -> bool {
    &&& !event.need_rescan()
    &&& event.paths.len() > 0
    &&& (event.kind == rename_kind(RenameMode::Any) || event.kind == rename_kind(RenameMode::From)
        || event.kind == rename_kind(RenameMode::To))
}

/// The kind of a rename notification of the given mode.
pub open spec fn rename_kind(mode: RenameMode) -> EventKind {
    EventKind::Modify(ModifyKind::Name(mode))
}

/// Whether the engine takes a notification in. It passes over one that has
/// no path and asks for no rescan, and over the renames that it has no use
/// for: one that reports both names, which its two halves stand for, and one
/// of another mode.
pub open spec fn is_accepted(event: EventView) -> bool {
    event.need_rescan() || (event.paths.len() > 0 && event.kind != rename_kind(RenameMode::Both)
        && event.kind != rename_kind(RenameMode::Other))
}

/// The age of an event observed at `time`, at the time `now`; none where
/// `now` is the earlier of the two.
pub open spec fn age(time: u64, now: u64) -> int {
    if now >= time {
        now - time
    } else {
        0
    }
}

/// The event has been held for the whole window.
pub open spec fn is_expired(e: RawEventView, now: u64, window: u64) -> bool {
    age(e.time, now) >= window
}

/// How many events at the head of a queue have expired: those before the
/// first one that has not.
pub open spec fn expired_count(events: Seq<RawEventView>, now: u64, window: u64) -> int
    decreases events.len(),
{
    if events.len() == 0 || !is_expired(events[0], now, window) {
        0
    } else {
        1 + expired_count(events.drop_first(), now, window)
    }
}

/// Some one of the events is of the given kind.
pub open spec fn kind_occurs(events: Seq<RawEventView>, kind: EventKind) -> bool {
    exists|j: int| 0 <= j < events.len() && (#[trigger] events[j]).event.kind == kind
}

/// Last write wins: an event stays unless a later one is of its kind. What
/// stays keeps its order.
pub open spec fn latest_per_kind(events: Seq<RawEventView>) -> Seq<RawEventView>
    decreases events.len(),
{
    if events.len() == 0 {
        events
    } else if kind_occurs(events.drop_first(), events[0].event.kind) {
        latest_per_kind(events.drop_first())
    } else {
        seq![events[0]] + latest_per_kind(events.drop_first())
    }
}

/// What a drain takes out of one queue.
pub open spec fn flushed(events: Seq<RawEventView>, now: u64, window: u64) -> Seq<RawEventView> {
    latest_per_kind(events.take(expired_count(events, now, window)))
}

/// What a drain leaves in one queue.
pub open spec fn unflushed(events: Seq<RawEventView>, now: u64, window: u64) -> Seq<RawEventView> {
    events.skip(expired_count(events, now, window))
}

/// What a drain takes out of all queues, queue by queue.
pub open spec fn flush_batch(queues: Seq<QueueView>, now: u64, window: u64) -> Seq<RawEventView>
    decreases queues.len(),
{
    if queues.len() == 0 {
        Seq::empty()
    } else {
        flush_batch(queues.drop_last(), now, window) + flushed(queues.last().events, now, window)
    }
}

/// The queues that a drain leaves: those that still hold an event.
pub open spec fn flush_rest(queues: Seq<QueueView>, now: u64, window: u64) -> Seq<QueueView>
    decreases queues.len(),
{
    if queues.len() == 0 {
        Seq::empty()
    } else {
        let rest = flush_rest(queues.drop_last(), now, window);
        let left = unflushed(queues.last().events, now, window);
        if left.len() > 0 {
            rest.push(QueueView { path: queues.last().path, events: left })
        } else {
            rest
        }
    }
}

/// The pending rescan has been held for the whole window.
pub open spec fn rescan_due(engine: EngineView, now: u64) -> bool {
    match engine.rescan {
        Some(e) => is_expired(e, now, engine.window),
        None => false,
    }
}

/// What a drain takes out, in the order of ingestion: the rescan first,
/// then each queue's share.
pub open spec fn drain_unsorted(engine: EngineView, now: u64) -> Seq<RawEventView> {
    let head = if rescan_due(engine, now) {
        seq![engine.rescan->0]
    } else {
        Seq::empty()
    };
    head + flush_batch(engine.queues, now, engine.window)
}

/// The engine after a drain.
pub open spec fn drain_state(engine: EngineView, now: u64) -> EngineView {
    EngineView {
        queues: flush_rest(engine.queues, now, engine.window),
        rescan: if rescan_due(engine, now) {
            None
        } else {
            engine.rescan
        },
        ..engine
    }
}

/// `a` has to stand before `b` in a batch: they are reported against
/// different paths and `a` is the older one.
pub open spec fn comes_before(a: RawEventView, b: RawEventView) -> bool {
    a.event.subject() != b.event.subject() && a.time < b.time
}

/// `e` put into a batch: before the events at the end that it comes before,
/// and behind the last one that it does not.
pub open spec fn insert_by_time(sorted: Seq<RawEventView>, e: RawEventView) -> Seq<RawEventView>
    decreases sorted.len(),
{
    if sorted.len() > 0 && comes_before(e, sorted.last()) {
        insert_by_time(sorted.drop_last(), e).push(sorted.last())
    } else {
        sorted.push(e)
    }
}

/// A batch in the order in which it is handed out: events of different paths
/// by their time, events of one path as they were queued.
pub open spec fn chronological(events: Seq<RawEventView>) -> Seq<RawEventView>
    decreases events.len(),
{
    if events.len() == 0 {
        events
    } else {
        insert_by_time(chronological(events.drop_last()), events.last())
    }
}

/// The batch that a drain at `now` hands out.
pub open spec fn drain_batch(engine: EngineView, now: u64) -> Seq<RawEventView> {
    chronological(drain_unsorted(engine, now))
}

/// A removal is observed, or implied by a rename onto the path.
pub open spec fn is_remove(kind: EventKind) -> bool {
    kind is Remove
}

/// The events of one queue are in order: a removal stands first, and a
/// stitched rename stands first or right behind a removal.
pub open spec fn in_order(events: Seq<RawEventView>) -> bool {
    &&& forall|j: int| 0 < j < events.len() ==> !is_remove((#[trigger] events[j]).event.kind)
    &&& forall|j: int|
        0 <= j < events.len() && is_stitched((#[trigger] events[j]).event.kind) ==> j == 0 || (j
            == 1 && is_remove(events[0].event.kind))
}

/// Every one of the events names a path.
pub open spec fn all_have_paths(events: Seq<RawEventView>) -> bool {
    forall|j: int| 0 <= j < events.len() ==> (#[trigger] events[j]).event.paths.len() > 0
}

/// The event is one of the queue of `path`: it names that path first, or,
/// where it is a stitched rename, last.
pub open spec fn belongs_to(e: RawEventView, path: Seq<char>) -> bool {
    &&& e.event.paths.len() > 0
    &&& if is_stitched(e.event.kind) {
        e.event.paths.last() == path
    } else {
        e.event.paths[0] == path
    }
}

/// Every one of the events is one of the queue of `path`.
pub open spec fn all_belong_to(events: Seq<RawEventView>, path: Seq<char>) -> bool {
    forall|j: int| 0 <= j < events.len() ==> belongs_to(#[trigger] events[j], path)
}

/// A queue is well formed: it is not empty, every one of its events names a
/// path, and the path of the queue where it has to; and its events are in
/// order.
pub open spec fn queue_wf(q: QueueView) -> bool {
    &&& q.events.len() > 0
    &&& all_have_paths(q.events)
    &&& all_belong_to(q.events, q.path)
    &&& in_order(q.events)
}

/// The queues are well formed: no path has two queues, and every queue is
/// well formed.
pub open spec fn queues_wf(queues: Seq<QueueView>) -> bool {
    &&& distinct_paths(queues)
    &&& forall|i: int| 0 <= i < queues.len() ==> queue_wf(#[trigger] queues[i])
}

impl EngineView {
    /// The engine is well formed: its queues are, and a pending "from" half
    /// of a rename names a path.
    pub open spec fn wf(self) -> bool {
        &&& queues_wf(self.queues)
        &&& match self.rename {
            Some(p) => p.event.event.paths.len() > 0,
            None => true,
        }
    }
}

} // verus!
