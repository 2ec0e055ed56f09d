//! Creation events.

use crate::events::base::{object_type_of_create, ObjectType};
use crate::notification::CreateKind;
use vstd::prelude::*;

verus! {

/// A file or directory came into being.
#[derive(Debug, PartialEq, Eq)]
pub struct CreateEvent {
    pub path: String,
    pub file_type: ObjectType,
}

impl CreateEvent {
    pub fn new(path: String, file_type: ObjectType) -> (r: Self)
        ensures
            r.path == path,
            r.file_type == file_type,
    {
        Self { path, file_type }
    }
}

impl Clone for CreateEvent {
    fn clone(&self) -> (r: Self)
        ensures
            r == *self,
    {
        Self { path: self.path.clone(), file_type: self.file_type }
    }
}

/// The creation event for a raw creation of the given kind at `path`.
pub fn from_create_kind(path: String, file_type: CreateKind) -> (r: CreateEvent)
    ensures
        r.path == path,
        r.file_type == object_type_of_create(file_type),
{
    CreateEvent { path, file_type: ObjectType::from(file_type) }
}

} // verus!
