use notifykit::events::access::{AccessEvent, AccessMode, AccessType};
use notifykit::events::base::ObjectType;
use notifykit::events::create::CreateEvent;
use notifykit::events::delete::DeleteEvent;
use notifykit::events::modify::{
    DataType, MetadataType, ModifyDataEvent, ModifyMetadataEvent, ModifyOtherEvent,
    ModifyUnknownEvent,
};
use notifykit::events::rename::RenameEvent;
use notifykit::events::EventType;
use notifykit::file_cache::NoCache;
use notifykit::notification;
use notifykit::notification::{
    AccessKind, CreateKind, DataChange, Event, EventKind, Flag, MetadataKind, ModifyKind,
    RemoveKind, RenameMode,
};
use notifykit::processor::{EventProcessor, RawEvent};
use notifykit::watcher::{
    check_watch_path, classify_error, create_event, disk_look, get, map_notify_error, next_step,
    to_event_types, watch_outcome, DiskLook, IoErrorClass, Received, SourceErrorKind, Step,
    WatcherError,
};
use std::io;

fn raw(kind: EventKind, paths: &[&str]) -> RawEvent {
    let mut event = Event::new(kind);
    for p in paths {
        event = event.add_path(p.to_string());
    }
    RawEvent::new(event, 0)
}

fn p() -> String {
    "/t/a".to_string()
}

fn all_access_modes() -> Vec<notification::AccessMode> {
    vec![
        notification::AccessMode::Any,
        notification::AccessMode::Execute,
        notification::AccessMode::Read,
        notification::AccessMode::Write,
        notification::AccessMode::Other,
    ]
}

fn all_kinds() -> Vec<EventKind> {
    let mut kinds = vec![EventKind::Any, EventKind::Other];
    kinds.push(EventKind::Access(AccessKind::Any));
    kinds.push(EventKind::Access(AccessKind::Read));
    kinds.push(EventKind::Access(AccessKind::Other));
    for mode in all_access_modes() {
        kinds.push(EventKind::Access(AccessKind::Open(mode)));
        kinds.push(EventKind::Access(AccessKind::Close(mode)));
    }
    for k in [CreateKind::Any, CreateKind::File, CreateKind::Folder, CreateKind::Other] {
        kinds.push(EventKind::Create(k));
    }
    for k in [RemoveKind::Any, RemoveKind::File, RemoveKind::Folder, RemoveKind::Other] {
        kinds.push(EventKind::Remove(k));
    }
    kinds.push(EventKind::Modify(ModifyKind::Any));
    kinds.push(EventKind::Modify(ModifyKind::Other));
    for k in [DataChange::Any, DataChange::Size, DataChange::Content, DataChange::Other] {
        kinds.push(EventKind::Modify(ModifyKind::Data(k)));
    }
    for k in [
        MetadataKind::Any,
        MetadataKind::AccessTime,
        MetadataKind::WriteTime,
        MetadataKind::Permissions,
        MetadataKind::Ownership,
        MetadataKind::Extended,
        MetadataKind::Other,
    ] {
        kinds.push(EventKind::Modify(ModifyKind::Metadata(k)));
    }
    for k in [
        RenameMode::Any,
        RenameMode::To,
        RenameMode::From,
        RenameMode::Both,
        RenameMode::Other,
    ] {
        kinds.push(EventKind::Modify(ModifyKind::Name(k)));
    }
    kinds
}

#[test]
fn every_kind_maps_to_one_event_or_is_discarded() {
    let kinds = all_kinds();
    assert_eq!(kinds.len(), 41);
    for kind in kinds {
        let discarded = matches!(
            kind,
            EventKind::Any | EventKind::Other | EventKind::Modify(ModifyKind::Name(RenameMode::Other))
        );
        let one = create_event(&raw(kind, &["/t/a"]));
        assert_eq!(one.is_none(), discarded, "{:?}", kind);
        // the mapping gives the same event whenever it is asked
        assert_eq!(one, create_event(&raw(kind, &["/t/a"])));
        let expected_variant = match kind {
            EventKind::Access(_) => matches!(one, Some(EventType::Access(_))),
            EventKind::Create(_) => matches!(one, Some(EventType::Create(_))),
            EventKind::Remove(_) => matches!(one, Some(EventType::Delete(_))),
            EventKind::Modify(ModifyKind::Data(_)) => matches!(one, Some(EventType::ModifyData(_))),
            EventKind::Modify(ModifyKind::Metadata(_)) => {
                matches!(one, Some(EventType::ModifyMetadata(_)))
            }
            EventKind::Modify(ModifyKind::Other) => matches!(one, Some(EventType::ModifyOther(_))),
            EventKind::Modify(ModifyKind::Any) => matches!(one, Some(EventType::ModifyUnknown(_))),
            EventKind::Modify(ModifyKind::Name(RenameMode::From)) => {
                matches!(one, Some(EventType::Delete(_)))
            }
            EventKind::Modify(ModifyKind::Name(RenameMode::To)) => {
                matches!(one, Some(EventType::Create(_)))
            }
            EventKind::Modify(ModifyKind::Name(RenameMode::Both))
            | EventKind::Modify(ModifyKind::Name(RenameMode::Any)) => {
                matches!(one, Some(EventType::Rename(_)))
            }
            _ => one.is_none(),
        };
        assert!(expected_variant, "{:?}", kind);
        // a notification without a path yields no event, whatever its kind
        assert_eq!(create_event(&raw(kind, &[])), None);
    }
}

#[test]
fn access_maps_to_its_type_and_mode() {
    assert_eq!(
        create_event(&raw(EventKind::Access(AccessKind::Read), &["/t/a"])),
        Some(EventType::Access(AccessEvent::new(p(), AccessType::Read, None)))
    );
    assert_eq!(
        create_event(&raw(EventKind::Access(AccessKind::Any), &["/t/a"])),
        Some(EventType::Access(AccessEvent::new(p(), AccessType::Unknown, None)))
    );
    assert_eq!(
        create_event(&raw(EventKind::Access(AccessKind::Other), &["/t/a"])),
        Some(EventType::Access(AccessEvent::new(p(), AccessType::Other, None)))
    );
    let modes = [
        (notification::AccessMode::Any, AccessMode::Unknown),
        (notification::AccessMode::Execute, AccessMode::Execute),
        (notification::AccessMode::Read, AccessMode::Read),
        (notification::AccessMode::Write, AccessMode::Write),
        (notification::AccessMode::Other, AccessMode::Other),
    ];
    for (raw_mode, mode) in modes {
        assert_eq!(
            create_event(&raw(EventKind::Access(AccessKind::Open(raw_mode)), &["/t/a"])),
            Some(EventType::Access(AccessEvent::new(p(), AccessType::Open, Some(mode))))
        );
        assert_eq!(
            create_event(&raw(EventKind::Access(AccessKind::Close(raw_mode)), &["/t/a"])),
            Some(EventType::Access(AccessEvent::new(p(), AccessType::Close, Some(mode))))
        );
    }
}

#[test]
fn create_and_remove_map_to_the_object_type() {
    let kinds = [
        (CreateKind::Any, RemoveKind::Any, ObjectType::Unknown),
        (CreateKind::File, RemoveKind::File, ObjectType::File),
        (CreateKind::Folder, RemoveKind::Folder, ObjectType::Dir),
        (CreateKind::Other, RemoveKind::Other, ObjectType::Other),
    ];
    for (create, remove, object) in kinds {
        assert_eq!(
            create_event(&raw(EventKind::Create(create), &["/t/a"])),
            Some(EventType::Create(CreateEvent::new(p(), object)))
        );
        assert_eq!(
            create_event(&raw(EventKind::Remove(remove), &["/t/a"])),
            Some(EventType::Delete(DeleteEvent::new(p(), object)))
        );
    }
}

#[test]
fn modifications_map_to_their_types() {
    let data = [
        (DataChange::Any, DataType::Unknown),
        (DataChange::Size, DataType::Size),
        (DataChange::Content, DataType::Content),
        (DataChange::Other, DataType::Other),
    ];
    for (change, data_type) in data {
        assert_eq!(
            create_event(&raw(EventKind::Modify(ModifyKind::Data(change)), &["/t/a"])),
            Some(EventType::ModifyData(ModifyDataEvent::new(p(), data_type)))
        );
    }
    let metadata = [
        (MetadataKind::Any, MetadataType::Unknown),
        (MetadataKind::AccessTime, MetadataType::AccessTime),
        (MetadataKind::WriteTime, MetadataType::WriteTime),
        (MetadataKind::Permissions, MetadataType::Permissions),
        (MetadataKind::Ownership, MetadataType::Ownership),
        (MetadataKind::Extended, MetadataType::Extended),
        (MetadataKind::Other, MetadataType::Other),
    ];
    for (kind, metadata_type) in metadata {
        assert_eq!(
            create_event(&raw(EventKind::Modify(ModifyKind::Metadata(kind)), &["/t/a"])),
            Some(EventType::ModifyMetadata(ModifyMetadataEvent::new(p(), metadata_type)))
        );
    }
    assert_eq!(
        create_event(&raw(EventKind::Modify(ModifyKind::Other), &["/t/a"])),
        Some(EventType::ModifyOther(ModifyOtherEvent::new(p())))
    );
    assert_eq!(
        create_event(&raw(EventKind::Modify(ModifyKind::Any), &["/t/a"])),
        Some(EventType::ModifyUnknown(ModifyUnknownEvent::new(p())))
    );
}

#[test]
fn renames_map_by_what_is_known_of_them() {
    let name = |mode| EventKind::Modify(ModifyKind::Name(mode));
    assert_eq!(
        create_event(&raw(name(RenameMode::Both), &["/t/a", "/t/b"])),
        Some(EventType::Rename(RenameEvent::new("/t/b".to_string(), "/t/a".to_string())))
    );
    let rename = RenameEvent::new("/t/new".to_string(), "/t/old".to_string());
    assert_eq!(rename.old_path, "/t/old");
    assert_eq!(rename.new_path, "/t/new");
    assert_eq!(
        create_event(&raw(name(RenameMode::From), &["/t/a"])),
        Some(EventType::Delete(DeleteEvent::new(p(), ObjectType::Unknown)))
    );
    assert_eq!(
        create_event(&raw(name(RenameMode::To), &["/t/a"])),
        Some(EventType::Create(CreateEvent::new(p(), ObjectType::Unknown)))
    );
    assert_eq!(
        create_event(&raw(name(RenameMode::Any), &["/t/a"])),
        Some(EventType::Rename(RenameEvent::new(p(), p())))
    );
    assert_eq!(create_event(&raw(name(RenameMode::Other), &["/t/a", "/t/b"])), None);
}

#[test]
fn batch_maps_event_by_event() {
    let batch = vec![
        raw(EventKind::Create(CreateKind::File), &["/t/a"]),
        raw(EventKind::Other, &["/t/a"]),
        raw(EventKind::Other, &[]),
        raw(EventKind::Modify(ModifyKind::Name(RenameMode::Both)), &["/x", "/y"]),
        raw(EventKind::Any, &["/t/a"]),
        raw(EventKind::Remove(RemoveKind::Folder), &["/d"]),
    ];
    assert_eq!(
        to_event_types(&batch),
        vec![
            EventType::Create(CreateEvent::new(p(), ObjectType::File)),
            EventType::Rename(RenameEvent::new("/y".to_string(), "/x".to_string())),
            EventType::Delete(DeleteEvent::new("/d".to_string(), ObjectType::Dir)),
        ]
    );
    assert!(to_event_types(&Vec::new()).is_empty());
}

#[test]
fn drain_hands_out_events_and_errors() {
    let mut processor = EventProcessor::new(NoCache, 20);
    let idle = get(&mut processor, 0);
    assert!(idle.events.is_empty() && idle.errors.is_empty() && !idle.publish);

    processor.add_event(
        Event::new(EventKind::Create(CreateKind::File)).add_path("/t/a.txt".to_string()),
        0,
        true,
    );
    processor.add_event(
        Event::new(EventKind::Modify(ModifyKind::Data(DataChange::Content)))
            .add_path("/t/a.txt".to_string()),
        5,
        true,
    );
    processor.add_error(notify::Error::generic("lost"));

    // errors leave with the next drain, whether or not an event does
    let early = get(&mut processor, 10);
    assert!(early.events.is_empty() && !early.publish);
    assert_eq!(early.errors.len(), 1);

    let drained = get(&mut processor, 25);
    assert_eq!(
        drained.events,
        vec![EventType::Create(CreateEvent::new("/t/a.txt".to_string(), ObjectType::File))]
    );
    assert!(drained.publish);
    assert!(drained.errors.is_empty());

    let after = get(&mut processor, 30);
    assert!(after.events.is_empty() && !after.publish);
}

#[test]
fn batch_of_discarded_events_is_not_published() {
    let mut processor = EventProcessor::new(NoCache, 20);
    processor.add_event(Event::new(EventKind::Other).set_flag(Flag::Rescan), 0, true);
    processor.add_event(Event::new(EventKind::Any).add_path("/t/a".to_string()), 0, true);
    processor.add_event(Event::new(EventKind::Other).add_path("/t/b".to_string()), 1, true);
    // all three leave the engine, and none of them is an event for the consumers
    assert_eq!(processor.get_events(0).len(), 0);
    assert_eq!(to_event_types(&processor.get_events(30)), vec![]);
    processor.add_event(Event::new(EventKind::Other).add_path("/t/b".to_string()), 31, true);
    let drained = get(&mut processor, 60);
    assert!(drained.events.is_empty());
    assert!(!drained.publish);
    assert!(get(&mut processor, 60).events.is_empty());
}

#[test]
fn stitched_rename_reaches_the_consumers_as_one_rename() {
    let mut processor = EventProcessor::new(NoCache, 20);
    let name = |mode| EventKind::Modify(ModifyKind::Name(mode));
    processor.add_event(Event::new(name(RenameMode::From)).add_path("/t/a".into()).set_tracker(1), 0, false);
    processor.add_event(Event::new(name(RenameMode::To)).add_path("/t/b".into()).set_tracker(1), 1, true);
    let drained = get(&mut processor, 30);
    assert_eq!(
        drained.events,
        vec![EventType::Rename(RenameEvent::new("/t/b".to_string(), "/t/a".to_string()))]
    );
}

#[test]
fn unstitched_halves_reach_the_consumers_as_delete_and_create() {
    let mut processor = EventProcessor::new(NoCache, 20);
    let name = |mode| EventKind::Modify(ModifyKind::Name(mode));
    processor.add_event(Event::new(name(RenameMode::From)).add_path("/t/a".into()), 0, false);
    processor.add_event(Event::new(name(RenameMode::To)).add_path("/t/b".into()), 1, true);
    let drained = get(&mut processor, 30);
    assert_eq!(
        drained.events,
        vec![
            EventType::Delete(DeleteEvent::new("/t/a".to_string(), ObjectType::Unknown)),
            EventType::Create(CreateEvent::new("/t/b".to_string(), ObjectType::Unknown)),
        ]
    );
}

#[test]
fn overwrite_by_rename_reaches_the_consumers_as_delete_then_rename() {
    let mut processor = EventProcessor::new(NoCache, 20);
    let name = |mode| EventKind::Modify(ModifyKind::Name(mode));
    processor.add_event(
        Event::new(EventKind::Modify(ModifyKind::Data(DataChange::Any))).add_path("/t/b".into()),
        0,
        true,
    );
    processor.add_event(Event::new(name(RenameMode::From)).add_path("/t/a".into()).set_tracker(1), 1, false);
    processor.add_event(Event::new(name(RenameMode::To)).add_path("/t/b".into()).set_tracker(1), 2, true);
    let drained = get(&mut processor, 30);
    assert_eq!(
        drained.events,
        vec![
            EventType::Delete(DeleteEvent::new("/t/b".to_string(), ObjectType::Unknown)),
            EventType::Rename(RenameEvent::new("/t/b".to_string(), "/t/a".to_string())),
        ]
    );
}

#[test]
fn errors_are_classed_by_their_kind() {
    let text = || "what it says".to_string();
    let detail = || "Detail".to_string();
    assert_eq!(
        classify_error(SourceErrorKind::PathNotFound, text(), detail()),
        WatcherError::NotFound(text())
    );
    assert_eq!(
        classify_error(SourceErrorKind::Io(IoErrorClass::NotFound), text(), detail()),
        WatcherError::NotFound(text())
    );
    assert_eq!(
        classify_error(
            SourceErrorKind::Generic(
                "Input watch path is neither a file nor a directory.".to_string()
            ),
            text(),
            detail()
        ),
        WatcherError::NotFound(text())
    );
    assert_eq!(
        classify_error(SourceErrorKind::Io(IoErrorClass::PermissionDenied), text(), detail()),
        WatcherError::PermissionDenied(text())
    );
    let os = WatcherError::Os("what it says (Detail)".to_string());
    assert_eq!(classify_error(SourceErrorKind::Io(IoErrorClass::Other), text(), detail()), os);
    assert_eq!(classify_error(SourceErrorKind::WatchNotFound, text(), detail()), os);
    assert_eq!(classify_error(SourceErrorKind::InvalidConfig, text(), detail()), os);
    assert_eq!(classify_error(SourceErrorKind::MaxFilesWatch, text(), detail()), os);
    assert_eq!(
        classify_error(SourceErrorKind::Generic("anything else".to_string()), text(), detail()),
        os
    );
}

#[test]
fn errors_of_the_source_are_read_and_classed() {
    assert_eq!(
        map_notify_error(&notify::Error::path_not_found()),
        WatcherError::NotFound("No path was found.".to_string())
    );
    assert_eq!(
        map_notify_error(&notify::Error::generic(
            "Input watch path is neither a file nor a directory."
        )),
        WatcherError::NotFound("Input watch path is neither a file nor a directory.".to_string())
    );
    let missing = notify::Error::io(io::Error::new(io::ErrorKind::NotFound, "gone"));
    assert_eq!(map_notify_error(&missing), WatcherError::NotFound("gone".to_string()));
    let denied = notify::Error::io(io::Error::new(io::ErrorKind::PermissionDenied, "locked"));
    assert_eq!(map_notify_error(&denied), WatcherError::PermissionDenied("locked".to_string()));
    match map_notify_error(&notify::Error::generic("boom")) {
        WatcherError::Os(text) => {
            assert!(text.starts_with("boom (Error {"), "{}", text);
            assert!(text.ends_with(")"));
        }
        other => panic!("{:?}", other),
    }
    match map_notify_error(&notify::Error::watch_not_found()) {
        WatcherError::Os(text) => assert!(text.starts_with("No watch was found. ("), "{}", text),
        other => panic!("{:?}", other),
    }
    let other_io = notify::Error::io(io::Error::new(io::ErrorKind::TimedOut, "slow"));
    assert!(matches!(map_notify_error(&other_io), WatcherError::Os(_)));
}

#[test]
fn path_to_watch_has_to_be_there() {
    assert_eq!(check_watch_path("/t/a", true), Ok(()));
    assert_eq!(
        check_watch_path("/t/a", false),
        Err(WatcherError::NotFound("No such file or directory: /t/a".to_string()))
    );
}

#[test]
fn errors_of_watching_are_passed_over_on_request() {
    let denied = || Err(WatcherError::PermissionDenied("no".to_string()));
    let os = || Err(WatcherError::Os("io".to_string()));
    let missing = || Err(WatcherError::NotFound("gone".to_string()));
    let closed = || Err(WatcherError::Closed);

    assert_eq!(watch_outcome(Ok(()), false), Ok(()));
    assert_eq!(watch_outcome(Ok(()), true), Ok(()));
    assert_eq!(watch_outcome(denied(), false), denied());
    assert_eq!(watch_outcome(denied(), true), Ok(()));
    assert_eq!(watch_outcome(os(), false), os());
    assert_eq!(watch_outcome(os(), true), Ok(()));
    // a path that is not there is reported whatever was asked for
    assert_eq!(watch_outcome(missing(), false), missing());
    assert_eq!(watch_outcome(missing(), true), missing());
    assert_eq!(watch_outcome(closed(), true), closed());
}

#[test]
fn disk_is_looked_at_where_the_resolver_is_told() {
    let at = |kind: EventKind| Event::new(kind).add_path("/t/a".to_string());
    let name = |mode| EventKind::Modify(ModifyKind::Name(mode));

    assert_eq!(disk_look(&at(EventKind::Create(CreateKind::File)), false), DiskLook::Present);
    assert_eq!(disk_look(&at(EventKind::Remove(RemoveKind::Any)), true), DiskLook::Gone);
    assert_eq!(disk_look(&at(name(RenameMode::From)), true), DiskLook::Gone);
    assert_eq!(disk_look(&at(name(RenameMode::To)), false), DiskLook::NewName);
    assert_eq!(disk_look(&at(name(RenameMode::Any)), true), DiskLook::NewName);
    assert_eq!(disk_look(&at(name(RenameMode::Any)), false), DiskLook::Gone);
    assert_eq!(disk_look(&at(name(RenameMode::Both)), true), DiskLook::Nothing);
    assert_eq!(disk_look(&at(name(RenameMode::Other)), true), DiskLook::Nothing);
    assert_eq!(disk_look(&at(EventKind::Other), true), DiskLook::Present);
    assert_eq!(disk_look(&at(EventKind::Any), true), DiskLook::Present);
    assert_eq!(disk_look(&at(EventKind::Access(AccessKind::Read)), true), DiskLook::Present);
    assert_eq!(
        disk_look(&at(EventKind::Modify(ModifyKind::Data(DataChange::Any))), true),
        DiskLook::Present
    );
    // a rescan looks at the roots, with or without a path
    assert_eq!(disk_look(&at(EventKind::Other).set_flag(Flag::Rescan), true), DiskLook::Roots);
    assert_eq!(
        disk_look(&Event::new(EventKind::Create(CreateKind::Any)).set_flag(Flag::Rescan), true),
        DiskLook::Roots
    );
    // a notification without a path is passed over
    assert_eq!(disk_look(&Event::new(EventKind::Create(CreateKind::Any)), true), DiskLook::Nothing);

    assert!(at(name(RenameMode::Any)).is_rename_of_unknown_direction());
    assert!(!at(name(RenameMode::To)).is_rename_of_unknown_direction());
    assert!(!at(EventKind::Any).is_rename_of_unknown_direction());
}

#[test]
fn consumer_goes_by_the_answer_of_the_channel() {
    let batch = vec![
        EventType::Create(CreateEvent::new("/t/a".to_string(), ObjectType::File)),
        EventType::ModifyOther(ModifyOtherEvent::new("/t/a".to_string())),
    ];
    assert_eq!(next_step(Received::Batch(batch.clone())), Step::Yield(batch));
    assert_eq!(next_step(Received::Batch(vec![])), Step::Yield(vec![]));
    assert_eq!(next_step(Received::Lagged(3)), Step::Wait);
    assert_eq!(next_step(Received::Lagged(0)), Step::Wait);
    assert_eq!(next_step(Received::Closed), Step::End);
}

#[test]
fn error_of_the_source_is_classed_by_its_own_kind() {
    // an answer that does not read the error would class all of these alike
    let classes: Vec<WatcherError> = vec![
        map_notify_error(&notify::Error::path_not_found()),
        map_notify_error(&notify::Error::io(io::Error::new(io::ErrorKind::PermissionDenied, "x"))),
        map_notify_error(&notify::Error::watch_not_found()),
    ];
    assert!(matches!(classes[0], WatcherError::NotFound(_)));
    assert!(matches!(classes[1], WatcherError::PermissionDenied(_)));
    assert!(matches!(classes[2], WatcherError::Os(_)));
    let max = notify::Error::new(notify::ErrorKind::MaxFilesWatch);
    assert_eq!(
        map_notify_error(&max),
        WatcherError::Os("OS file watch limit reached. (Error { kind: MaxFilesWatch, paths: [] })".to_string())
    );
}
