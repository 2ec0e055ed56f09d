//! What kind of object an event is about.

use crate::notification::{CreateKind, RemoveKind};
use vstd::prelude::*;
use vstd::std_specs::convert::FromSpecImpl;

verus! {

/// The kind of object that was created or deleted.
#[derive(Debug, Clone, Copy, PartialEq, Eq, Structural)]
pub enum ObjectType {
    Unknown,
    File,
    Dir,
    Other,
}

/// The kind of object that a raw creation reports.
pub open spec fn object_type_of_create(kind: CreateKind) -> ObjectType {
    match kind {
        CreateKind::Any => ObjectType::Unknown,
        CreateKind::File => ObjectType::File,
        CreateKind::Folder => ObjectType::Dir,
        CreateKind::Other => ObjectType::Other,
    }
}

impl From<CreateKind> for ObjectType {
    fn from(kind: CreateKind) -> (r: Self) {
        match kind {
            CreateKind::Any => ObjectType::Unknown,
            CreateKind::File => ObjectType::File,
            CreateKind::Folder => ObjectType::Dir,
            CreateKind::Other => ObjectType::Other,
        }
    }
}

impl FromSpecImpl<CreateKind> for ObjectType {
    open spec fn obeys_from_spec() -> bool {
        true
    }

    open spec fn from_spec(kind: CreateKind) -> Self {
        object_type_of_create(kind)
    }
}

/// The kind of object that a raw removal reports.
pub open spec fn object_type_of_remove(kind: RemoveKind) -> ObjectType {
    match kind {
        RemoveKind::Any => ObjectType::Unknown,
        RemoveKind::File => ObjectType::File,
        RemoveKind::Folder => ObjectType::Dir,
        RemoveKind::Other => ObjectType::Other,
    }
}

impl From<RemoveKind> for ObjectType {
    fn from(kind: RemoveKind) -> (r: Self) {
        match kind {
            RemoveKind::Any => ObjectType::Unknown,
            RemoveKind::File => ObjectType::File,
            RemoveKind::Folder => ObjectType::Dir,
            RemoveKind::Other => ObjectType::Other,
        }
    }
}

impl FromSpecImpl<RemoveKind> for ObjectType {
    open spec fn obeys_from_spec() -> bool {
        true
    }

    open spec fn from_spec(kind: RemoveKind) -> Self {
        object_type_of_remove(kind)
    }
}

} // verus!
