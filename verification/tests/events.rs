use notifykit::events::access::{from_access_kind, AccessEvent, AccessMode, AccessType};
use notifykit::events::base::ObjectType;
use notifykit::events::create::{from_create_kind, CreateEvent};
use notifykit::events::delete::{from_delete_kind, DeleteEvent};
use notifykit::events::modify::{
    from_data_kind, from_metadata_kind, DataType, MetadataType, ModifyDataEvent,
    ModifyMetadataEvent, ModifyOtherEvent, ModifyUnknownEvent,
};
use notifykit::events::others::{OtherEvent, UnknownEvent};
use notifykit::events::rename::{from_rename_mode, RenameEvent};
use notifykit::events::EventType;
use notifykit::notification;
use notifykit::notification::{
    AccessKind, CreateKind, DataChange, Event, EventAttributes, EventKind, Flag, MetadataKind,
    RemoveKind,
};

fn p() -> String {
    "/t/a".to_string()
}

#[test]
fn object_type_from_raw_kinds() {
    assert_eq!(ObjectType::from(CreateKind::Any), ObjectType::Unknown);
    assert_eq!(ObjectType::from(CreateKind::File), ObjectType::File);
    assert_eq!(ObjectType::from(CreateKind::Folder), ObjectType::Dir);
    assert_eq!(ObjectType::from(CreateKind::Other), ObjectType::Other);
    assert_eq!(ObjectType::from(RemoveKind::Any), ObjectType::Unknown);
    assert_eq!(ObjectType::from(RemoveKind::File), ObjectType::File);
    assert_eq!(ObjectType::from(RemoveKind::Folder), ObjectType::Dir);
    assert_eq!(ObjectType::from(RemoveKind::Other), ObjectType::Other);
}

#[test]
fn access_type_and_mode_from_raw_kinds() {
    assert_eq!(AccessType::from(AccessKind::Any), AccessType::Unknown);
    assert_eq!(AccessType::from(AccessKind::Read), AccessType::Read);
    assert_eq!(AccessType::from(AccessKind::Open(notification::AccessMode::Write)), AccessType::Open);
    assert_eq!(AccessType::from(AccessKind::Close(notification::AccessMode::Any)), AccessType::Close);
    assert_eq!(AccessType::from(AccessKind::Other), AccessType::Other);
    assert_eq!(AccessMode::from(notification::AccessMode::Any), AccessMode::Unknown);
    assert_eq!(AccessMode::from(notification::AccessMode::Read), AccessMode::Read);
    assert_eq!(AccessMode::from(notification::AccessMode::Write), AccessMode::Write);
    assert_eq!(AccessMode::from(notification::AccessMode::Execute), AccessMode::Execute);
    assert_eq!(AccessMode::from(notification::AccessMode::Other), AccessMode::Other);
}

#[test]
fn metadata_and_data_type_from_raw_kinds() {
    assert_eq!(MetadataType::from(MetadataKind::Any), MetadataType::Unknown);
    assert_eq!(MetadataType::from(MetadataKind::AccessTime), MetadataType::AccessTime);
    assert_eq!(MetadataType::from(MetadataKind::WriteTime), MetadataType::WriteTime);
    assert_eq!(MetadataType::from(MetadataKind::Ownership), MetadataType::Ownership);
    assert_eq!(MetadataType::from(MetadataKind::Permissions), MetadataType::Permissions);
    assert_eq!(MetadataType::from(MetadataKind::Extended), MetadataType::Extended);
    assert_eq!(MetadataType::from(MetadataKind::Other), MetadataType::Other);
    assert_eq!(DataType::from(DataChange::Any), DataType::Unknown);
    assert_eq!(DataType::from(DataChange::Content), DataType::Content);
    assert_eq!(DataType::from(DataChange::Size), DataType::Size);
    assert_eq!(DataType::from(DataChange::Other), DataType::Other);
}

#[test]
fn events_from_raw_kinds() {
    assert_eq!(
        from_access_kind(p(), AccessKind::Open(notification::AccessMode::Execute)),
        AccessEvent { path: p(), access_type: AccessType::Open, access_mode: Some(AccessMode::Execute) }
    );
    assert_eq!(
        from_access_kind(p(), AccessKind::Read),
        AccessEvent { path: p(), access_type: AccessType::Read, access_mode: None }
    );
    assert_eq!(
        from_create_kind(p(), CreateKind::Folder),
        CreateEvent { path: p(), file_type: ObjectType::Dir }
    );
    assert_eq!(
        from_delete_kind(p(), RemoveKind::File),
        DeleteEvent { path: p(), file_type: ObjectType::File }
    );
    assert_eq!(
        from_data_kind(p(), DataChange::Size),
        ModifyDataEvent { path: p(), data_type: DataType::Size }
    );
    assert_eq!(
        from_metadata_kind(p(), MetadataKind::Ownership),
        ModifyMetadataEvent { path: p(), metadata_type: MetadataType::Ownership }
    );
    assert_eq!(
        from_rename_mode("/old".to_string(), "/new".to_string()),
        RenameEvent { old_path: "/old".to_string(), new_path: "/new".to_string() }
    );
}

#[test]
fn constructors_keep_what_they_are_given() {
    assert_eq!(
        AccessEvent::new(p(), AccessType::Close, Some(AccessMode::Write)),
        AccessEvent { path: p(), access_type: AccessType::Close, access_mode: Some(AccessMode::Write) }
    );
    assert_eq!(CreateEvent::new(p(), ObjectType::File).file_type, ObjectType::File);
    assert_eq!(DeleteEvent::new(p(), ObjectType::Other).path, p());
    assert_eq!(ModifyDataEvent::new(p(), DataType::Content).data_type, DataType::Content);
    assert_eq!(
        ModifyMetadataEvent::new(p(), MetadataType::Extended).metadata_type,
        MetadataType::Extended
    );
    assert_eq!(ModifyOtherEvent::new(p()).path, p());
    assert_eq!(ModifyUnknownEvent::new(p()).path, p());
    assert_eq!(OtherEvent::new(17, p()), OtherEvent { detected_at_ns: 17, path: p() });
    assert_eq!(UnknownEvent::new(u128::MAX, p()), UnknownEvent { detected_at_ns: u128::MAX, path: p() });
    // the new name comes first
    let rename = RenameEvent::new("/new".to_string(), "/old".to_string());
    assert_eq!(rename, from_rename_mode("/old".to_string(), "/new".to_string()));
}

#[test]
fn event_has_a_path_unless_it_is_a_rename() {
    assert_eq!(EventType::Create(CreateEvent::new(p(), ObjectType::File)).path(), Some(&p()));
    assert_eq!(EventType::ModifyOther(ModifyOtherEvent::new(p())).path(), Some(&p()));
    assert_eq!(
        EventType::Access(AccessEvent::new("/x".to_string(), AccessType::Read, None)).path(),
        Some(&"/x".to_string())
    );
    assert_eq!(EventType::Rename(RenameEvent::new(p(), p())).path(), None);
}

#[test]
fn clones_are_equal() {
    let events = vec![
        EventType::Access(AccessEvent::new(p(), AccessType::Open, Some(AccessMode::Read))),
        EventType::Create(CreateEvent::new(p(), ObjectType::File)),
        EventType::Delete(DeleteEvent::new(p(), ObjectType::Dir)),
        EventType::ModifyMetadata(ModifyMetadataEvent::new(p(), MetadataType::WriteTime)),
        EventType::ModifyData(ModifyDataEvent::new(p(), DataType::Size)),
        EventType::ModifyUnknown(ModifyUnknownEvent::new(p())),
        EventType::ModifyOther(ModifyOtherEvent::new(p())),
        EventType::Rename(RenameEvent::new("/n".to_string(), "/o".to_string())),
    ];
    for e in &events {
        assert_eq!(&e.clone(), e);
    }
}

#[test]
fn notification_is_built_step_by_step() {
    let empty = Event::new(EventKind::Any);
    assert_eq!(empty.kind, EventKind::Any);
    assert!(empty.paths.is_empty());
    assert_eq!(empty.attrs, EventAttributes::new());
    assert_eq!(empty.tracker(), None);
    assert!(!empty.need_rescan());

    let full = Event::new(EventKind::Create(CreateKind::File))
        .add_path("/a".to_string())
        .add_path("/b".to_string())
        .set_tracker(3)
        .set_info("why")
        .set_flag(Flag::Rescan);
    assert_eq!(full.paths, vec!["/a".to_string(), "/b".to_string()]);
    assert_eq!(full.tracker(), Some(3));
    assert_eq!(full.attrs.info, Some("why".to_string()));
    assert!(full.need_rescan());
    assert_eq!(full.clone(), full);
}
