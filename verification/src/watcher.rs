//! What stands between the engine and its consumers: the mapping from raw
//! notifications to the events that consumers receive, the errors that
//! callers see, and the decisions of the watch set and of the drain tick.

use crate::events::access::{access_mode_of, access_type_of, from_access_kind};
use crate::events::base::{object_type_of_create, object_type_of_remove, ObjectType};
use crate::events::create::{from_create_kind, CreateEvent};
use crate::events::delete::{from_delete_kind, DeleteEvent};
use crate::events::modify::{
    data_type_of, from_data_kind, from_metadata_kind, metadata_type_of, ModifyOtherEvent,
    ModifyUnknownEvent,
};
use crate::events::rename::from_rename_mode;
use crate::events::{EventType, OutputEvent};
use crate::file_cache::FileIdCache;
use crate::model::{drain_batch, drain_state, EngineView, RawEventView};
use crate::notification::{Event, EventKind, EventView, ModifyKind, RenameMode};
use crate::processor::{resolver_told, EventProcessor, RawEvent};
use crate::text::same_text;
use notify::Error;
use std::io;
use vstd::prelude::*;
use vstd::string::StringExecFns;

verus! {

/// The event that consumers receive for a raw notification; none for a
/// notification that has no path or a kind that is not handed on.
///
/// A rename with both names becomes a rename. Its unmatched halves become a
/// deletion of the old name and a creation of the new one.
pub open spec fn output_of(e: EventView) -> Option<OutputEvent> {
    if e.paths.len() == 0 {
        None
    } else {
        let path = e.paths[0];
        match e.kind {
            EventKind::Access(kind) => Some(
                OutputEvent::Access {
                    path,
                    access_type: access_type_of(kind),
                    access_mode: access_mode_of(kind),
                },
            ),
            EventKind::Create(kind) => Some(
                OutputEvent::Create { path, object_type: object_type_of_create(kind) },
            ),
            EventKind::Remove(kind) => Some(
                OutputEvent::Delete { path, object_type: object_type_of_remove(kind) },
            ),
            EventKind::Modify(ModifyKind::Metadata(kind)) => Some(
                OutputEvent::ModifyMetadata { path, metadata_type: metadata_type_of(kind) },
            ),
            EventKind::Modify(ModifyKind::Data(kind)) => Some(
                OutputEvent::ModifyData { path, data_type: data_type_of(kind) },
            ),
            EventKind::Modify(ModifyKind::Name(mode)) => match mode {
                RenameMode::From => Some(
                    OutputEvent::Delete { path, object_type: ObjectType::Unknown },
                ),
                RenameMode::To => Some(
                    OutputEvent::Create { path, object_type: ObjectType::Unknown },
                ),
                RenameMode::Both => Some(
                    OutputEvent::Rename { old_path: path, new_path: e.paths.last() },
                ),
                RenameMode::Any => Some(
                    OutputEvent::Rename { old_path: path, new_path: e.paths.last() },
                ),
                RenameMode::Other => None,
            },
            EventKind::Modify(ModifyKind::Other) => Some(OutputEvent::ModifyOther { path }),
            EventKind::Modify(ModifyKind::Any) => Some(OutputEvent::ModifyUnknown { path }),
            EventKind::Other => None,
            EventKind::Any => None,
        }
    }
}

/// The kinds that no event is handed on for.
pub open spec fn is_discarded(kind: EventKind) -> bool {
    kind == EventKind::Other || kind == EventKind::Any || kind == EventKind::Modify(
        ModifyKind::Name(RenameMode::Other),
    )
}

/// The mapping is total: a notification with a path yields an event, unless
/// its kind is one of the three that are not handed on.
pub proof fn lemma_output_total(e: EventView)
    ensures
        output_of(e) is Some <==> e.paths.len() > 0 && !is_discarded(e.kind),
{
}

/// The view of an optional event.
pub open spec fn output_view(e: Option<EventType>) -> Option<OutputEvent> {
    match e {
        Some(e) => Some(e@),
        None => None,
    }
}

/// The event that consumers receive for a raw notification.
pub fn create_event(event: &RawEvent) -> (r: Option<EventType>)
    ensures
        output_view(r) == output_of(event@.event),
{
    let paths = &event.event.paths;
    if paths.len() == 0 {
        return None;
    }
    let file_path = paths[0].clone();
    assert(event@.event.paths[0] == paths[0]@);
    assert(event@.event.paths.last() == paths[paths.len() - 1]@);
    match event.event.kind {
        EventKind::Access(access_kind) => Some(
            EventType::Access(from_access_kind(file_path, access_kind)),
        ),
        EventKind::Create(create_kind) => Some(
            EventType::Create(from_create_kind(file_path, create_kind)),
        ),
        EventKind::Remove(delete_kind) => Some(
            EventType::Delete(from_delete_kind(file_path, delete_kind)),
        ),
        EventKind::Modify(modify_kind) => match modify_kind {
            ModifyKind::Metadata(metadata_kind) => Some(
                EventType::ModifyMetadata(from_metadata_kind(file_path, metadata_kind)),
            ),
            ModifyKind::Data(data_kind) => Some(
                EventType::ModifyData(from_data_kind(file_path, data_kind)),
            ),
            ModifyKind::Name(mode) => match mode {
                RenameMode::From => Some(
                    EventType::Delete(DeleteEvent::new(file_path, ObjectType::Unknown)),
                ),
                RenameMode::To => Some(
                    EventType::Create(CreateEvent::new(file_path, ObjectType::Unknown)),
                ),
                RenameMode::Other => None,
                _ => {
                    let target_path = paths[paths.len() - 1].clone();
                    Some(EventType::Rename(from_rename_mode(file_path, target_path)))
                },
            },
            ModifyKind::Other => Some(EventType::ModifyOther(ModifyOtherEvent::new(file_path))),
            ModifyKind::Any => Some(EventType::ModifyUnknown(ModifyUnknownEvent::new(file_path))),
        },
        EventKind::Other => None,
        EventKind::Any => None,
    }
}

/// The events that consumers receive for a batch of raw notifications, in
/// the order of the batch.
pub open spec fn outputs_of(batch: Seq<RawEventView>) -> Seq<OutputEvent>
    decreases batch.len(),
{
    if batch.len() == 0 {
        Seq::empty()
    } else {
        let front = outputs_of(batch.drop_last());
        match output_of(batch.last().event) {
            Some(e) => front.push(e),
            None => front,
        }
    }
}

/// The events that consumers receive for a batch of raw notifications.
pub fn to_event_types(batch: &Vec<RawEvent>) -> (events: Vec<EventType>)
    ensures
        events.deep_view() == outputs_of(batch.deep_view()),
{
    let ghost all = batch.deep_view();
    let mut events: Vec<EventType> = Vec::new();
    let mut i: usize = 0;
    assert(all.take(0) =~= Seq::<RawEventView>::empty());
    assert(events.deep_view() =~= outputs_of(all.take(0)));
    while i < batch.len()
        invariant
            i <= batch.len(),
            all == batch.deep_view(),
            events.deep_view() == outputs_of(all.take(i as int)),
        decreases batch.len() - i,
    {
        let ghost before = events.deep_view();
        assert(all.take(i + 1).drop_last() =~= all.take(i as int));
        assert(all.take(i + 1).last() == batch[i as int]@);
        match create_event(&batch[i]) {
            Some(event) => {
                events.push(event);
                assert(events.deep_view() =~= before.push(event@));
            },
            None => {},
        }
        i += 1;
    }
    assert(all.take(all.len() as int) =~= all);
    events
}

/// What one drain hands to the scheduler.
pub struct Drained {
    /// The events for the consumers, in the order of delivery.
    pub events: Vec<EventType>,
    /// The errors of the source since the drain before.
    pub errors: Vec<Error>,
    /// Whether there is a batch to publish: an empty one is not published.
    pub publish: bool,
}

/// One drain at the time `now`: what has been held for the whole window
/// leaves the engine as events for the consumers, and the error backlog
/// leaves it whole.
pub fn get<T: FileIdCache>(processor: &mut EventProcessor<T>, now: u64) -> (r: Drained)
    requires
        old(processor).wf(),
    ensures
        r.events.deep_view() == outputs_of(drain_batch(old(processor)@, now)),
        r.errors@ == old(processor).pending_errors(),
        r.publish == (r.events.len() > 0),
        final(processor)@ == drain_state(old(processor)@, now),
        final(processor).pending_errors() == Seq::<Error>::empty(),
        final(processor).wf(),
{
    let raw_events = processor.get_events(now);
    let errors = processor.get_errors();
    let events = to_event_types(&raw_events);
    let publish = events.len() > 0;
    Drained { events, errors, publish }
}

/// `std::io::Error`: the cause of an error of the source that the operating
/// system reported.
#[verifier::external_type_specification]
#[verifier::external_body]
pub struct ExIoError(io::Error);

/// What an error of the operating system says, as far as callers are told.
#[derive(Debug, Clone, Copy, PartialEq, Eq, Structural)]
pub enum IoErrorClass {
    NotFound,
    PermissionDenied,
    Other,
}

/// The kind of an error of the source.
#[derive(Debug, PartialEq, Eq)]
pub enum SourceErrorKind {
    /// An error that is described by its text alone.
    Generic(String),
    /// An error of the operating system.
    Io(IoErrorClass),
    PathNotFound,
    WatchNotFound,
    InvalidConfig,
    MaxFilesWatch,
}

/// The mathematical value of the kind of an error of the source.
pub enum SourceErrorKindView {
    Generic(Seq<char>),
    Io(IoErrorClass),
    PathNotFound,
    WatchNotFound,
    InvalidConfig,
    MaxFilesWatch,
}

impl View for SourceErrorKind {
    type V = SourceErrorKindView;

    open spec fn view(&self) -> SourceErrorKindView {
        match *self {
            SourceErrorKind::Generic(text) => SourceErrorKindView::Generic(text@),
            SourceErrorKind::Io(class) => SourceErrorKindView::Io(class),
            SourceErrorKind::PathNotFound => SourceErrorKindView::PathNotFound,
            SourceErrorKind::WatchNotFound => SourceErrorKindView::WatchNotFound,
            SourceErrorKind::InvalidConfig => SourceErrorKindView::InvalidConfig,
            SourceErrorKind::MaxFilesWatch => SourceErrorKindView::MaxFilesWatch,
        }
    }
}

/// An error as callers see it.
#[derive(Debug, PartialEq, Eq)]
pub enum WatcherError {
    /// A path is not there.
    NotFound(String),
    /// A path may not be watched.
    PermissionDenied(String),
    /// Another error of the operating system or of the source.
    Os(String),
    /// The watcher has been stopped.
    Closed,
}

/// The mathematical value of an error as callers see it.
pub enum WatcherErrorView {
    NotFound(Seq<char>),
    PermissionDenied(Seq<char>),
    Os(Seq<char>),
    Closed,
}

impl View for WatcherError {
    type V = WatcherErrorView;

    open spec fn view(&self) -> WatcherErrorView {
        match *self {
            WatcherError::NotFound(text) => WatcherErrorView::NotFound(text@),
            WatcherError::PermissionDenied(text) => WatcherErrorView::PermissionDenied(text@),
            WatcherError::Os(text) => WatcherErrorView::Os(text@),
            WatcherError::Closed => WatcherErrorView::Closed,
        }
    }
}

/// `std::io::Error::kind`, as far as callers are told: not found,
/// permission denied, or another kind. Nothing is claimed of which it is.
#[verifier::external_body]
fn io_error_class(error: &io::Error) -> IoErrorClass {
    match error.kind() {
        io::ErrorKind::NotFound => IoErrorClass::NotFound,
        io::ErrorKind::PermissionDenied => IoErrorClass::PermissionDenied,
        _ => IoErrorClass::Other,
    }
}

/// The kind of an error of the source: its public field `kind`, variant for
/// variant, with the cause of an error of the operating system classed by
/// `std::io::Error::kind`.
pub uninterp spec fn source_kind_of(error: Error) -> SourceErrorKindView;

/// The field `kind` of `notify::Error`, variant for variant. What it gives
/// is a matter of the error alone.
#[verifier::external_body]
fn source_error_kind(error: &Error) -> (r: SourceErrorKind)
    ensures
        r@ == source_kind_of(*error),
{
    match &error.kind {
        notify::ErrorKind::Generic(text) => SourceErrorKind::Generic(text.clone()),
        notify::ErrorKind::Io(cause) => SourceErrorKind::Io(io_error_class(cause)),
        notify::ErrorKind::PathNotFound => SourceErrorKind::PathNotFound,
        notify::ErrorKind::WatchNotFound => SourceErrorKind::WatchNotFound,
        notify::ErrorKind::InvalidConfig(_) => SourceErrorKind::InvalidConfig,
        notify::ErrorKind::MaxFilesWatch => SourceErrorKind::MaxFilesWatch,
    }
}

/// How `notify::Error` displays itself. Nothing is claimed of the text.
#[verifier::external_body]
fn source_error_text(error: &Error) -> String {
    error.to_string()
}

/// How `notify::Error` shows itself for debugging. Nothing is claimed of
/// the text.
#[verifier::external_body]
fn source_error_detail(error: &Error) -> String {
    format!("{:?}", error)
}

/// What some sources say of a path that is not there.
pub open spec fn neither_file_nor_directory() -> Seq<char> {
    "Input watch path is neither a file nor a directory."@
}

/// An error of the source says that a path is not there.
pub open spec fn says_not_found(kind: SourceErrorKindView) -> bool {
    match kind {
        SourceErrorKindView::PathNotFound => true,
        SourceErrorKindView::Generic(text) => text == neither_file_nor_directory(),
        SourceErrorKindView::Io(class) => class == IoErrorClass::NotFound,
        _ => false,
    }
}

/// The error that callers see for an error of the source of the given kind
/// that displays itself as `text` and shows itself for debugging as
/// `detail`.
pub open spec fn classified(
    kind: SourceErrorKindView,
    text: Seq<char>,
    detail: Seq<char>,
) -> WatcherErrorView {
    if says_not_found(kind) {
        WatcherErrorView::NotFound(text)
    } else if kind == SourceErrorKindView::Io(IoErrorClass::PermissionDenied) {
        WatcherErrorView::PermissionDenied(text)
    } else {
        WatcherErrorView::Os(text + " ("@ + detail + ")"@)
    }
}

/// The error that callers see for an error of the source.
pub fn classify_error(kind: SourceErrorKind, text: String, detail: String) -> (r: WatcherError)
    ensures
        r@ == classified(kind@, text@, detail@),
{
    let not_found = match &kind {
        SourceErrorKind::PathNotFound => true,
        SourceErrorKind::Generic(said) => same_text(
            said.as_str(),
            "Input watch path is neither a file nor a directory.",
        ),
        SourceErrorKind::Io(class) => *class == IoErrorClass::NotFound,
        _ => false,
    };
    if not_found {
        return WatcherError::NotFound(text);
    }
    let denied = match &kind {
        SourceErrorKind::Io(class) => *class == IoErrorClass::PermissionDenied,
        _ => false,
    };
    if denied {
        return WatcherError::PermissionDenied(text);
    }
    let message = text.concat(" (").concat(detail.as_str()).concat(")");
    WatcherError::Os(message)
}

/// The error that callers see for an error of the source: it is classed by
/// its kind, and carries the text with which the error displays itself.
pub fn map_notify_error(error: &Error) -> (r: WatcherError)
    ensures
        exists|text: Seq<char>, detail: Seq<char>|
            r@ == #[trigger] classified(source_kind_of(*error), text, detail),
{
    let kind = source_error_kind(error);
    let text = source_error_text(error);
    let detail = source_error_detail(error);
    let ghost k = kind@;
    let ghost t = text@;
    let ghost d = detail@;
    let r = classify_error(kind, text, detail);
    assert(r@ == classified(k, t, d));
    r
}

/// What has to be looked up on disk before a notification goes to the
/// engine, so that the resolver finds there what the engine has it register.
#[derive(Debug, Clone, Copy, PartialEq, Eq, Structural)]
pub enum DiskLook {
    /// Nothing: the engine does not tell the resolver of the notification.
    Nothing,
    /// The watched roots, all of them: the resolver rescans.
    Roots,
    /// What is at the first path and below it: the resolver may register it.
    Present,
    /// What is at the first path and below it, which is the new name of a
    /// rename. The engine reads the identity of a new name before it has the
    /// resolver register it: for the rename to be told by that identity, the
    /// resolver has to hold it by then.
    NewName,
    /// That the first path is gone, with what was below it: the resolver
    /// forgets it.
    Gone,
}

/// What has to be looked up on disk for a notification. `exists` says
/// whether its first path is there, and is looked at for a rename of unknown
/// direction only.
pub open spec fn disk_look_for(event: EventView, exists: bool) -> DiskLook {
    if event.need_rescan() {
        DiskLook::Roots
    } else if event.paths.len() == 0 {
        DiskLook::Nothing
    } else {
        match event.kind {
            EventKind::Remove(_) => DiskLook::Gone,
            EventKind::Modify(ModifyKind::Name(mode)) => match mode {
                RenameMode::From => DiskLook::Gone,
                RenameMode::To => DiskLook::NewName,
                RenameMode::Any => if exists {
                    DiskLook::NewName
                } else {
                    DiskLook::Gone
                },
                RenameMode::Both => DiskLook::Nothing,
                RenameMode::Other => DiskLook::Nothing,
            },
            _ => DiskLook::Present,
        }
    }
}

/// What has to be looked up on disk for a notification.
pub fn disk_look(event: &Event, exists: bool) -> (r: DiskLook)
    ensures
        r == disk_look_for(event@, exists),
{
    if event.need_rescan() {
        return DiskLook::Roots;
    }
    if event.paths.len() == 0 {
        return DiskLook::Nothing;
    }
    match event.kind {
        EventKind::Remove(_) => DiskLook::Gone,
        EventKind::Modify(ModifyKind::Name(mode)) => match mode {
            RenameMode::From => DiskLook::Gone,
            RenameMode::To => DiskLook::NewName,
            RenameMode::Any => if exists {
                DiskLook::NewName
            } else {
                DiskLook::Gone
            },
            RenameMode::Both => DiskLook::Nothing,
            RenameMode::Other => DiskLook::Nothing,
        },
        _ => DiskLook::Present,
    }
}

/// The disk is looked at wherever the engine tells the resolver of a
/// notification, and left alone where the engine leaves the resolver alone.
pub proof fn lemma_disk_look_follows_the_resolver<T: FileIdCache>(
    before: T,
    after: T,
    engine: EngineView,
    event: EventView,
    exists: bool,
)
    requires
        resolver_told(before, after, engine, event, exists),
        disk_look_for(event, exists) == DiskLook::Nothing,
    ensures
        after == before,
{
}

/// What the channel of batches answered to a consumer that waits for the
/// next batch.
#[derive(Debug, PartialEq, Eq)]
pub enum Received {
    /// A batch.
    Batch(Vec<EventType>),
    /// No batch, but the word that the consumer was too slow and this many
    /// batches were dropped.
    Lagged(u64),
    /// Nothing: the watcher was stopped and the channel is closed.
    Closed,
}

/// What a consumer that waits for the next batch does with the answer of
/// the channel.
#[derive(Debug, PartialEq, Eq)]
pub enum Step {
    /// Hand the batch to the consumer.
    Yield(Vec<EventType>),
    /// Wait for the next answer: lost batches are no error.
    Wait,
    /// Tell the consumer that the stream has ended. That is no error either.
    End,
}

/// What a consumer that waits for the next batch does with the answer of
/// the channel: a batch is handed on as it is, lost batches are passed over,
/// and a closed channel ends the stream.
pub fn next_step(answer: Received) -> (r: Step)
    ensures
        match answer {
            Received::Batch(batch) => r == Step::Yield(batch),
            Received::Lagged(_) => r is Wait,
            Received::Closed => r is End,
        },
{
    match answer {
        Received::Batch(batch) => Step::Yield(batch),
        Received::Lagged(_) => Step::Wait,
        Received::Closed => Step::End,
    }
}

/// What is said of a path to watch that is not there.
pub open spec fn no_such_path(path: Seq<char>) -> Seq<char> {
    "No such file or directory: "@ + path
}

/// Whether a path may be handed to the source: it has to be there.
pub fn check_watch_path(path: &str, exists: bool) -> (r: Result<(), WatcherError>)
    ensures
        match r {
            Ok(_) => exists,
            Err(e) => !exists && e@ == WatcherErrorView::NotFound(no_such_path(path@)),
        },
{
    if exists {
        Ok(())
    } else {
        Err(WatcherError::NotFound(String::from_str("No such file or directory: ").concat(path)))
    }
}

/// An error of watching a path is passed over: the caller asked for that,
/// and the error does not say that the path is not there or that the
/// watcher is stopped.
pub open spec fn is_passed_over(e: WatcherErrorView, ignore_permission_errors: bool) -> bool {
    ignore_permission_errors && (e is PermissionDenied || e is Os)
}

/// What watching a path comes to, given what the source answered.
pub fn watch_outcome(answer: Result<(), WatcherError>, ignore_permission_errors: bool) -> (r:
    Result<(), WatcherError>)
    ensures
        match answer {
            Ok(_) => r is Ok,
            Err(e) => if is_passed_over(e@, ignore_permission_errors) {
                r is Ok
            } else {
                r == answer
            },
        },
{
    match answer {
        Ok(_) => Ok(()),
        Err(e) => {
            let passed_over = ignore_permission_errors && match &e {
                WatcherError::PermissionDenied(_) => true,
                WatcherError::Os(_) => true,
                _ => false,
            };
            if passed_over {
                Ok(())
            } else {
                Err(e)
            }
        },
    }
}

} // verus!
