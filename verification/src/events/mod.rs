//! The events that consumers receive.

pub mod access;
pub mod base;
pub mod create;
pub mod delete;
pub mod modify;
pub mod others;
pub mod rename;

use crate::events::access::{AccessEvent, AccessMode, AccessType};
use crate::events::base::ObjectType;
use crate::events::create::CreateEvent;
use crate::events::delete::DeleteEvent;
use crate::events::modify::{
    DataType, MetadataType, ModifyDataEvent, ModifyMetadataEvent, ModifyOtherEvent,
    ModifyUnknownEvent,
};
use crate::events::rename::RenameEvent;
use vstd::prelude::*;

verus! {

/// An event as consumers receive it.
#[derive(Debug, PartialEq, Eq)]
pub enum EventType {
    Access(AccessEvent),
    Create(CreateEvent),
    Delete(DeleteEvent),
    ModifyMetadata(ModifyMetadataEvent),
    ModifyData(ModifyDataEvent),
    ModifyUnknown(ModifyUnknownEvent),
    ModifyOther(ModifyOtherEvent),
    Rename(RenameEvent),
}

/// The mathematical value of an event as consumers receive it.
pub enum OutputEvent {
    Access { path: Seq<char>, access_type: AccessType, access_mode: Option<AccessMode> },
    Create { path: Seq<char>, object_type: ObjectType },
    Delete { path: Seq<char>, object_type: ObjectType },
    ModifyMetadata { path: Seq<char>, metadata_type: MetadataType },
    ModifyData { path: Seq<char>, data_type: DataType },
    ModifyUnknown { path: Seq<char> },
    ModifyOther { path: Seq<char> },
    Rename { old_path: Seq<char>, new_path: Seq<char> },
}

impl View for EventType {
    type V = OutputEvent;

    open spec fn view(&self) -> OutputEvent {
        match *self {
            EventType::Access(e) => OutputEvent::Access {
                path: e.path@,
                access_type: e.access_type,
                access_mode: e.access_mode,
            },
            EventType::Create(e) => OutputEvent::Create { path: e.path@, object_type: e.file_type },
            EventType::Delete(e) => OutputEvent::Delete { path: e.path@, object_type: e.file_type },
            EventType::ModifyMetadata(e) => OutputEvent::ModifyMetadata {
                path: e.path@,
                metadata_type: e.metadata_type,
            },
            EventType::ModifyData(e) => OutputEvent::ModifyData {
                path: e.path@,
                data_type: e.data_type,
            },
            EventType::ModifyUnknown(e) => OutputEvent::ModifyUnknown { path: e.path@ },
            EventType::ModifyOther(e) => OutputEvent::ModifyOther { path: e.path@ },
            EventType::Rename(e) => OutputEvent::Rename {
                old_path: e.old_path@,
                new_path: e.new_path@,
            },
        }
    }
}

impl DeepView for EventType {
    type V = OutputEvent;

    open spec fn deep_view(&self) -> OutputEvent {
        self@
    }
}

impl OutputEvent {
    /// The path of an event that has one path; none for a rename, which has
    /// two.
    pub open spec fn path(self) -> Option<Seq<char>> {
        match self {
            OutputEvent::Access { path, .. } => Some(path),
            OutputEvent::Create { path, .. } => Some(path),
            OutputEvent::Delete { path, .. } => Some(path),
            OutputEvent::ModifyMetadata { path, .. } => Some(path),
            OutputEvent::ModifyData { path, .. } => Some(path),
            OutputEvent::ModifyUnknown { path } => Some(path),
            OutputEvent::ModifyOther { path } => Some(path),
            OutputEvent::Rename { .. } => None,
        }
    }
}

impl EventType {
    /// The path of an event that has one path; none for a rename, which has
    /// two.
    pub fn path(&self) -> (r: Option<&String>)
        ensures
            match r {
                Some(p) => self@.path() == Some(p@),
                None => self@.path() is None,
            },
    {
        match self {
            EventType::Access(e) => Some(&e.path),
            EventType::Create(e) => Some(&e.path),
            EventType::Delete(e) => Some(&e.path),
            EventType::ModifyMetadata(e) => Some(&e.path),
            EventType::ModifyData(e) => Some(&e.path),
            EventType::ModifyUnknown(e) => Some(&e.path),
            EventType::ModifyOther(e) => Some(&e.path),
            EventType::Rename(_) => None,
        }
    }
}

impl Clone for EventType {
    fn clone(&self) -> (r: Self)
        ensures
            r@ == self@,
    {
        match self {
            EventType::Access(e) => EventType::Access(e.clone()),
            EventType::Create(e) => EventType::Create(e.clone()),
            EventType::Delete(e) => EventType::Delete(e.clone()),
            EventType::ModifyMetadata(e) => EventType::ModifyMetadata(e.clone()),
            EventType::ModifyData(e) => EventType::ModifyData(e.clone()),
            EventType::ModifyUnknown(e) => EventType::ModifyUnknown(e.clone()),
            EventType::ModifyOther(e) => EventType::ModifyOther(e.clone()),
            EventType::Rename(e) => EventType::Rename(e.clone()),
        }
    }
}

} // verus!
