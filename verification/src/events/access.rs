//! Access events.

use crate::notification;
use crate::notification::AccessKind;
use vstd::prelude::*;
use vstd::std_specs::convert::FromSpecImpl;

verus! {

/// What was done to the file.
#[derive(Debug, Clone, Copy, PartialEq, Eq, Structural)]
pub enum AccessType {
    Unknown,
    Read,
    Open,
    Close,
    Other,
}

/// What a raw access did to the file.
pub open spec fn access_type_of(kind: AccessKind) -> AccessType {
    match kind {
        AccessKind::Read => AccessType::Read,
        AccessKind::Open(_) => AccessType::Open,
        AccessKind::Close(_) => AccessType::Close,
        AccessKind::Other => AccessType::Other,
        AccessKind::Any => AccessType::Unknown,
    }
}

impl From<AccessKind> for AccessType {
    fn from(kind: AccessKind) -> (r: Self) {
        match kind {
            AccessKind::Read => AccessType::Read,
            AccessKind::Open(_) => AccessType::Open,
            AccessKind::Close(_) => AccessType::Close,
            AccessKind::Other => AccessType::Other,
            AccessKind::Any => AccessType::Unknown,
        }
    }
}

impl FromSpecImpl<AccessKind> for AccessType {
    open spec fn obeys_from_spec() -> bool {
        true
    }

    open spec fn from_spec(kind: AccessKind) -> Self {
        access_type_of(kind)
    }
}

/// How the file was opened or closed.
#[derive(Debug, Clone, Copy, PartialEq, Eq, Structural)]
pub enum AccessMode {
    Unknown,
    Read,
    Write,
    Execute,
    Other,
}

/// The mode of a raw access.
pub open spec fn access_mode_from(kind: notification::AccessMode) -> AccessMode {
    match kind {
        notification::AccessMode::Read => AccessMode::Read,
        notification::AccessMode::Write => AccessMode::Write,
        notification::AccessMode::Execute => AccessMode::Execute,
        notification::AccessMode::Other => AccessMode::Other,
        notification::AccessMode::Any => AccessMode::Unknown,
    }
}

impl From<notification::AccessMode> for AccessMode {
    fn from(kind: notification::AccessMode) -> (r: Self) {
        match kind {
            notification::AccessMode::Read => AccessMode::Read,
            notification::AccessMode::Write => AccessMode::Write,
            notification::AccessMode::Execute => AccessMode::Execute,
            notification::AccessMode::Other => AccessMode::Other,
            notification::AccessMode::Any => AccessMode::Unknown,
        }
    }
}

impl FromSpecImpl<notification::AccessMode> for AccessMode {
    open spec fn obeys_from_spec() -> bool {
        true
    }

    open spec fn from_spec(kind: notification::AccessMode) -> Self {
        access_mode_from(kind)
    }
}

/// The mode of an access that opened or closed a file; none for another
/// kind of access.
pub open spec fn access_mode_of(kind: AccessKind) -> Option<AccessMode> {
    match kind {
        AccessKind::Open(mode) => Some(access_mode_from(mode)),
        AccessKind::Close(mode) => Some(access_mode_from(mode)),
        _ => None,
    }
}

/// A file was read, opened or closed.
#[derive(Debug, PartialEq, Eq)]
pub struct AccessEvent {
    pub path: String,
    pub access_type: AccessType,
    pub access_mode: Option<AccessMode>,
}

impl AccessEvent {
    pub fn new(path: String, access_type: AccessType, access_mode: Option<AccessMode>) -> (r: Self)
        ensures
            r.path == path,
            r.access_type == access_type,
            r.access_mode == access_mode,
    {
        Self { path, access_type, access_mode }
    }
}

impl Clone for AccessEvent {
    fn clone(&self) -> (r: Self)
        ensures
            r == *self,
    {
        Self {
            path: self.path.clone(),
            access_type: self.access_type,
            access_mode: self.access_mode,
        }
    }
}

/// The access event for a raw access of the given kind at `path`.
pub fn from_access_kind(path: String, access_kind: AccessKind) -> (r: AccessEvent)
    ensures
        r.path == path,
        r.access_type == access_type_of(access_kind),
        r.access_mode == access_mode_of(access_kind),
{
    let access_mode: Option<AccessMode> = match access_kind {
        AccessKind::Open(access_mode) => Some(AccessMode::from(access_mode)),
        AccessKind::Close(access_mode) => Some(AccessMode::from(access_mode)),
        _ => None,
    };
    AccessEvent { path, access_type: AccessType::from(access_kind), access_mode }
}

} // verus!
