//! The reconciliation engine: it takes raw notifications in, and hands out
//! what has been held for the buffering window.

use crate::file_cache::{same_file_id, FileIdCache};
use crate::model;
use crate::model::{
    drain_batch, drain_state, ingest, is_accepted, is_rename_half, rename_kind, stamped,
    EngineView, PendingRename, QueueView, RawEventView,
};
use crate::notification::{Event, EventKind, EventView, ModifyKind, RenameMode};
use crate::order::sort_chronological;
use crate::queues::{
    flush, is_expired, push_event, push_remove_event, push_rename_event, FileEventQueue,
};
use file_id::FileId;
use notify::Error;
use vstd::prelude::*;

verus! {

/// `notify::Error`: an error of the source. The engine holds such errors
/// and hands them out as they are.
#[verifier::external_type_specification]
#[verifier::external_body]
pub struct ExNotifyError(Error);

/// A notification with the time at which it was observed.
#[derive(Debug, PartialEq, Eq)]
pub struct RawEvent {
    /// The notification.
    pub event: Event,
    /// When it was observed, in the caller's clock.
    pub time: u64,
}

impl View for RawEvent {
    type V = RawEventView;

    open spec fn view(&self) -> RawEventView {
        RawEventView { event: self.event@, time: self.time }
    }
}

impl DeepView for RawEvent {
    type V = RawEventView;

    open spec fn deep_view(&self) -> RawEventView {
        self@
    }
}

impl RawEvent {
    /// The notification `event`, observed at `time`.
    pub fn new(event: Event, time: u64) -> (r: Self)
        ensures
            r@ == stamped(event@, time),
    {
        RawEvent { event, time }
    }
}

impl Clone for RawEvent {
    fn clone(&self) -> (r: Self)
        ensures
            r@ == self@,
    {
        RawEvent { event: self.event.clone(), time: self.time }
    }
}

/// The engine. `T` resolves paths to file identities.
#[derive(Debug)]
pub struct EventProcessor<T> {
    queues: Vec<FileEventQueue>,
    file_cache: T,
    rename_event: Option<(RawEvent, Option<FileId>)>,
    rescan_event: Option<RawEvent>,
    errors: Vec<Error>,
    buffering_time: u64,
}

impl<T> View for EventProcessor<T> {
    type V = EngineView;

    closed spec fn view(&self) -> EngineView {
        EngineView {
            queues: self.queues.deep_view(),
            rename: match self.rename_event {
                Some((e, file_id)) => Some(PendingRename { event: e@, file_id }),
                None => None,
            },
            rescan: match self.rescan_event {
                Some(e) => Some(e@),
                None => None,
            },
            window: self.buffering_time,
        }
    }
}

/// The identity that the engine reads for a notification: for one half of a
/// rename, that which the resolver holds for its path.
pub open spec fn identity_read<T: FileIdCache>(resolver: T, event: EventView) -> Option<FileId> {
    if is_rename_half(event) {
        resolver.held(event.paths[0])
    } else {
        None
    }
}

/// What the engine tells the resolver of the "to" half of a rename: the new
/// path is registered, and where the half belongs to the pending "from"
/// half, the old path is forgotten once more.
pub open spec fn told_of_new_name<T: FileIdCache>(
    before: T,
    after: T,
    engine: EngineView,
    event: EventView,
) -> bool
    recommends
        event.paths.len() > 0,
{
    let path = event.paths[0];
    if model::rename_matches(engine.rename, event, before.held(path)) {
        exists|between: T| #[trigger]
            T::registers(before, between, path) && T::forgets(
                between,
                after,
                engine.rename->0.event.event.paths[0],
            )
    } else {
        T::registers(before, after, path)
    }
}

/// What the engine tells the resolver of a notification: `after` is what
/// that makes of `before`.
///
/// A notification that asks for a rescan has the resolver rescan. A creation
/// registers the path, and a removal and the "from" half of a rename forget
/// it. Every other notification that the engine queues, a change or an
/// access among them, registers the path where the resolver holds nothing
/// for it. A notification that the engine passes over leaves the resolver
/// as it is.
pub open spec fn resolver_told<T: FileIdCache>(
    before: T,
    after: T,
    engine: EngineView,
    event: EventView,
    exists: bool,
) -> bool {
    if event.need_rescan() {
        T::rescans(before, after)
    } else if event.paths.len() == 0 {
        after == before
    } else {
        let path = event.paths[0];
        match event.kind {
            EventKind::Create(_) => T::registers(before, after, path),
            EventKind::Modify(ModifyKind::Name(mode)) => match mode {
                RenameMode::Any => if exists {
                    told_of_new_name(before, after, engine, event)
                } else {
                    T::forgets(before, after, path)
                },
                RenameMode::To => told_of_new_name(before, after, engine, event),
                RenameMode::From => T::forgets(before, after, path),
                RenameMode::Both => after == before,
                RenameMode::Other => after == before,
            },
            EventKind::Remove(_) => T::forgets(before, after, path),
            _ => if before.held(path) is None {
                T::registers(before, after, path)
            } else {
                after == before
            },
        }
    }
}

impl<T: FileIdCache> EventProcessor<T> {
    /// The errors of the source that no drain has handed out yet.
    pub closed spec fn pending_errors(&self) -> Seq<Error> {
        self.errors@
    }

    /// The resolver.
    pub closed spec fn resolver(&self) -> T {
        self.file_cache
    }

    /// The engine is well formed.
    pub open spec fn wf(&self) -> bool {
        self@.wf()
    }

    /// An engine that holds nothing. Events are held for `buffering_time`.
    pub fn new(file_cache: T, buffering_time: u64) -> (r: Self)
        ensures
            r@ == (EngineView {
                queues: Seq::<QueueView>::empty(),
                rename: None,
                rescan: None,
                window: buffering_time,
            }),
            r.wf(),
            r.pending_errors() == Seq::<Error>::empty(),
            r.resolver() == file_cache,
    {
        let r = EventProcessor {
            queues: Vec::new(),
            file_cache,
            rename_event: None,
            rescan_event: None,
            errors: Vec::new(),
            buffering_time,
        };
        assert(r.queues.deep_view() =~= Seq::<QueueView>::empty());
        r
    }

    /// Hands out the events that have been held for the whole window at the
    /// time `now`, in the order in which they are to be delivered.
    pub fn get_events(&mut self, now: u64) -> (batch: Vec<RawEvent>)
        requires
            old(self).wf(),
        ensures
            batch.deep_view() == drain_batch(old(self)@, now),
            final(self)@ == drain_state(old(self)@, now),
            final(self).wf(),
            final(self).pending_errors() == old(self).pending_errors(),
            final(self).resolver() == old(self).resolver(),
    {
        let mut batch: Vec<RawEvent> = Vec::new();
        assert(batch.deep_view() =~= Seq::<RawEventView>::empty());
        let due = match &self.rescan_event {
            Some(e) => is_expired(e, now, self.buffering_time),
            None => false,
        };
        if due {
            let e = self.rescan_event.take().unwrap();
            batch.push(e);
            assert(batch.deep_view() =~= seq![e@]);
        }
        flush(&mut self.queues, &mut batch, now, self.buffering_time);
        sort_chronological(batch)
    }

    /// Hands out the errors of the source, and holds none afterwards.
    pub fn get_errors(&mut self) -> (errors: Vec<Error>)
        ensures
            errors@ == old(self).pending_errors(),
            final(self).pending_errors() == Seq::<Error>::empty(),
            final(self)@ == old(self)@,
            final(self).resolver() == old(self).resolver(),
    {
        let mut v: Vec<Error> = Vec::new();
        core::mem::swap(&mut v, &mut self.errors);
        v
    }

    /// Holds an error of the source for the next drain.
    pub fn add_error(&mut self, error: Error)
        ensures
            final(self).pending_errors() == old(self).pending_errors().push(error),
            final(self)@ == old(self)@,
            final(self).resolver() == old(self).resolver(),
    {
        self.errors.push(error);
    }

    /// The "from" half of a rename.
    fn handle_rename_from(&mut self, event: Event, now: u64, file_id: Option<FileId>)
        requires
            old(self).wf(),
            event@.paths.len() > 0,
            event@.kind == rename_kind(RenameMode::From),
        ensures
            final(self)@ == model::rename_from(old(self)@, event@, now, file_id),
            final(self).wf(),
            final(self).pending_errors() == old(self).pending_errors(),
            final(self).resolver() == old(self).resolver(),
    {
        self.rename_event = Some((RawEvent::new(event.clone(), now), file_id));
        push_event(&mut self.queues, event, now);
    }

    /// Whether a "to" half belongs to the pending "from" half.
    fn matches_pending(&self, event: &Event, file_id: &Option<FileId>) -> (r: bool)
        ensures
            r == model::rename_matches(self@.rename, event@, *file_id),
    {
        match &self.rename_event {
            Some((from, from_id)) => {
                let trackers_match = match (from.event.attrs.tracker, event.attrs.tracker) {
                    (Some(a), Some(b)) => a == b,
                    _ => false,
                };
                let file_ids_match = match (from_id, file_id) {
                    (Some(a), Some(b)) => same_file_id(a, b),
                    _ => false,
                };
                trackers_match || file_ids_match
            },
            None => false,
        }
    }

    /// The "to" half of a rename.
    fn handle_rename_to(&mut self, event: Event, now: u64, file_id: Option<FileId>)
        requires
            old(self).wf(),
            event@.paths.len() > 0,
            event@.kind == rename_kind(RenameMode::To),
        ensures
            final(self)@ == model::rename_to(old(self)@, event@, now, file_id),
            final(self).wf(),
            final(self).pending_errors() == old(self).pending_errors(),
            final(self).resolver() == old(self).resolver(),
    {
        if self.matches_pending(&event, &file_id) {
            let (mut from, _) = self.rename_event.take().unwrap();
            let source = from.event.paths.remove(0);
            push_rename_event(&mut self.queues, source, event, from.time);
        } else {
            push_event(&mut self.queues, event, now);
            self.rename_event = None;
        }
    }

    /// Takes a notification in, given what the outside world says of its
    /// first path: `exists`, whether it is there on disk, which decides the
    /// direction of a rename that does not say it; and `file_id`, the
    /// identity that the resolver holds for it.
    ///
    /// Returns whether the notification was taken in. One without a path that
    /// asks for no rescan is passed over, as is a rename that reports both
    /// names or is of another mode.
    pub fn ingest(&mut self, event: Event, now: u64, exists: bool, file_id: Option<FileId>) -> (accepted:
        bool)
        requires
            old(self).wf(),
        ensures
            final(self)@ == ingest(old(self)@, event@, now, exists, file_id),
            accepted == is_accepted(event@),
            final(self).wf(),
            final(self).pending_errors() == old(self).pending_errors(),
            final(self).resolver() == old(self).resolver(),
    {
        if event.need_rescan() {
            self.rescan_event = Some(RawEvent::new(event, now));
            return true;
        }
        if event.paths.len() == 0 {
            return false;
        }
        match event.kind {
            EventKind::Create(_) => {
                push_event(&mut self.queues, event, now);
                true
            },
            EventKind::Modify(ModifyKind::Name(mode)) => match mode {
                RenameMode::Any => {
                    let mut event = event;
                    if exists {
                        event.kind = EventKind::Modify(ModifyKind::Name(RenameMode::To));
                        self.handle_rename_to(event, now, file_id);
                    } else {
                        event.kind = EventKind::Modify(ModifyKind::Name(RenameMode::From));
                        self.handle_rename_from(event, now, file_id);
                    }
                    true
                },
                RenameMode::To => {
                    self.handle_rename_to(event, now, file_id);
                    true
                },
                RenameMode::From => {
                    self.handle_rename_from(event, now, file_id);
                    true
                },
                RenameMode::Both => false,
                RenameMode::Other => false,
            },
            EventKind::Remove(_) => {
                push_remove_event(&mut self.queues, event, now);
                true
            },
            _ => {
                push_event(&mut self.queues, event, now);
                true
            },
        }
    }

    /// Tells the resolver of the "to" half of a rename.
    fn register_new_name(&mut self, event: &Event, file_id: &Option<FileId>)
        requires
            old(self).wf(),
            event@.paths.len() > 0,
            *file_id == old(self).resolver().held(event@.paths[0]),
        ensures
            told_of_new_name(old(self).resolver(), final(self).resolver(), old(self)@, event@),
            final(self)@ == old(self)@,
            final(self).pending_errors() == old(self).pending_errors(),
    {
        let ghost before = self.file_cache;
        let path = event.paths[0].as_str();
        assert(path@ == event@.paths[0]);
        self.file_cache.add_path(path);
        if self.matches_pending(event, file_id) {
            let ghost between = self.file_cache;
            let source = match &self.rename_event {
                Some((from, _)) => from.event.paths[0].clone(),
                None => String::new(),
            };
            self.file_cache.remove_path(source.as_str());
            assert(T::registers(before, between, event@.paths[0]) && T::forgets(
                between,
                self.file_cache,
                self@.rename->0.event.event.paths[0],
            ));
        }
    }

    /// Takes a notification in, as observed at the time `now`.
    ///
    /// The identity that the resolver holds for the first path is read
    /// first; it decides with the trackers whether the two halves of a rename
    /// belong together. Then the resolver is told of what the notification
    /// means for it, and the notification goes to the queues.
    ///
    /// `exists` says whether the first path is there on disk; it is looked at
    /// for a rename of unknown direction only.
    ///
    /// Returns whether the notification was taken in.
    pub fn add_event(&mut self, event: Event, now: u64, exists: bool) -> (accepted: bool)
        requires
            old(self).wf(),
        ensures
            final(self)@ == ingest(
                old(self)@,
                event@,
                now,
                exists,
                identity_read(old(self).resolver(), event@),
            ),
            resolver_told(
                old(self).resolver(),
                final(self).resolver(),
                old(self)@,
                event@,
                exists,
            ),
            accepted == is_accepted(event@),
            final(self).wf(),
            final(self).pending_errors() == old(self).pending_errors(),
    {
        if event.need_rescan() {
            self.file_cache.rescan();
            return self.ingest(event, now, exists, None);
        }
        if event.paths.len() == 0 {
            return self.ingest(event, now, exists, None);
        }
        let path = event.paths[0].as_str();
        assert(path@ == event@.paths[0]);
        let file_id = match event.kind {
            EventKind::Create(_) => {
                self.file_cache.add_path(path);
                None
            },
            EventKind::Modify(ModifyKind::Name(mode)) => match mode {
                RenameMode::Any => {
                    let file_id = self.file_cache.get_file_id(path);
                    if exists {
                        self.register_new_name(&event, &file_id);
                    } else {
                        self.file_cache.remove_path(path);
                    }
                    file_id
                },
                RenameMode::To => {
                    let file_id = self.file_cache.get_file_id(path);
                    self.register_new_name(&event, &file_id);
                    file_id
                },
                RenameMode::From => {
                    let file_id = self.file_cache.get_file_id(path);
                    self.file_cache.remove_path(path);
                    file_id
                },
                RenameMode::Both => None,
                RenameMode::Other => None,
            },
            EventKind::Remove(_) => {
                self.file_cache.remove_path(path);
                None
            },
            _ => {
                if self.file_cache.get_file_id(path).is_none() {
                    self.file_cache.add_path(path);
                }
                None
            },
        };
        self.ingest(event, now, exists, file_id)
    }

    /// The resolver.
    pub fn file_cache(&self) -> (r: &T)
        ensures
            *r == self.resolver(),
    {
        &self.file_cache
    }

    /// The resolver, to change it. The engine's own state stays as it is.
    pub fn file_cache_mut(&mut self) -> (r: &mut T)
        ensures
            *r == old(self).resolver(),
            final(self).resolver() == *final(r),
            final(self)@ == old(self)@,
            final(self).pending_errors() == old(self).pending_errors(),
    {
        &mut self.file_cache
    }
}

} // verus!
