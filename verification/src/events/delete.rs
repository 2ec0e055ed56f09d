//! Deletion events.

use crate::events::base::{object_type_of_remove, ObjectType};
use crate::notification::RemoveKind;
use vstd::prelude::*;

verus! {

/// A file or directory went away.
#[derive(Debug, PartialEq, Eq)]
pub struct DeleteEvent {
    pub path: String,
    pub file_type: ObjectType,
}

impl DeleteEvent {
    pub fn new(path: String, file_type: ObjectType) -> (r: Self)
        ensures
            r.path == path,
            r.file_type == file_type,
    {
        Self { path, file_type }
    }
}

impl Clone for DeleteEvent {
    fn clone(&self) -> (r: Self)
        ensures
            r == *self,
    {
        Self { path: self.path.clone(), file_type: self.file_type }
    }
}

/// The deletion event for a raw removal of the given kind at `path`.
pub fn from_delete_kind(path: String, file_type: RemoveKind) -> (r: DeleteEvent)
    ensures
        r.path == path,
        r.file_type == object_type_of_remove(file_type),
{
    DeleteEvent { path, file_type: ObjectType::from(file_type) }
}

} // verus!
