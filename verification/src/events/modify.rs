//! Modification events.

use crate::notification::{DataChange, MetadataKind};
use vstd::prelude::*;
use vstd::std_specs::convert::FromSpecImpl;

verus! {

/// Which part of the metadata changed.
#[derive(Debug, Clone, Copy, PartialEq, Eq, Structural)]
pub enum MetadataType {
    Unknown,
    AccessTime,
    WriteTime,
    Ownership,
    Permissions,
    Extended,
    Other,
}

/// Which part of the metadata a raw change reports.
pub open spec fn metadata_type_of(kind: MetadataKind) -> MetadataType {
    match kind {
        MetadataKind::AccessTime => MetadataType::AccessTime,
        MetadataKind::WriteTime => MetadataType::WriteTime,
        MetadataKind::Ownership => MetadataType::Ownership,
        MetadataKind::Permissions => MetadataType::Permissions,
        MetadataKind::Extended => MetadataType::Extended,
        MetadataKind::Other => MetadataType::Other,
        MetadataKind::Any => MetadataType::Unknown,
    }
}

impl From<MetadataKind> for MetadataType {
    fn from(kind: MetadataKind) -> (r: Self) {
        match kind {
            MetadataKind::AccessTime => Self::AccessTime,
            MetadataKind::WriteTime => Self::WriteTime,
            MetadataKind::Ownership => Self::Ownership,
            MetadataKind::Permissions => Self::Permissions,
            MetadataKind::Extended => Self::Extended,
            MetadataKind::Other => Self::Other,
            MetadataKind::Any => Self::Unknown,
        }
    }
}

impl FromSpecImpl<MetadataKind> for MetadataType {
    open spec fn obeys_from_spec() -> bool {
        true
    }

    open spec fn from_spec(kind: MetadataKind) -> Self {
        metadata_type_of(kind)
    }
}

/// What changed in the content.
#[derive(Debug, Clone, Copy, PartialEq, Eq, Structural)]
pub enum DataType {
    Unknown,
    Content,
    Size,
    Other,
}

/// What a raw change of content reports.
pub open spec fn data_type_of(kind: DataChange) -> DataType {
    match kind {
        DataChange::Content => DataType::Content,
        DataChange::Size => DataType::Size,
        DataChange::Other => DataType::Other,
        DataChange::Any => DataType::Unknown,
    }
}

impl From<DataChange> for DataType {
    fn from(kind: DataChange) -> (r: Self) {
        match kind {
            DataChange::Content => Self::Content,
            DataChange::Size => Self::Size,
            DataChange::Other => Self::Other,
            DataChange::Any => Self::Unknown,
        }
    }
}

impl FromSpecImpl<DataChange> for DataType {
    open spec fn obeys_from_spec() -> bool {
        true
    }

    open spec fn from_spec(kind: DataChange) -> Self {
        data_type_of(kind)
    }
}

/// The content of a file changed.
#[derive(Debug, PartialEq, Eq)]
pub struct ModifyDataEvent {
    pub path: String,
    pub data_type: DataType,
}

impl ModifyDataEvent {
    pub fn new(path: String, data_type: DataType) -> (r: Self)
        ensures
            r.path == path,
            r.data_type == data_type,
    {
        Self { path, data_type }
    }
}

impl Clone for ModifyDataEvent {
    fn clone(&self) -> (r: Self)
        ensures
            r == *self,
    {
        Self { path: self.path.clone(), data_type: self.data_type }
    }
}

/// The event for a raw change of content of the given kind at `path`.
pub fn from_data_kind(path: String, data_kind: DataChange) -> (r: ModifyDataEvent)
    ensures
        r.path == path,
        r.data_type == data_type_of(data_kind),
{
    ModifyDataEvent { path, data_type: DataType::from(data_kind) }
}

/// The metadata of a file changed.
#[derive(Debug, PartialEq, Eq)]
pub struct ModifyMetadataEvent {
    pub path: String,
    pub metadata_type: MetadataType,
}

impl ModifyMetadataEvent {
    pub fn new(path: String, metadata_type: MetadataType) -> (r: Self)
        ensures
            r.path == path,
            r.metadata_type == metadata_type,
    {
        Self { path, metadata_type }
    }
}

impl Clone for ModifyMetadataEvent {
    fn clone(&self) -> (r: Self)
        ensures
            r == *self,
    {
        Self { path: self.path.clone(), metadata_type: self.metadata_type }
    }
}

/// The event for a raw change of metadata of the given kind at `path`.
pub fn from_metadata_kind(path: String, metadata_kind: MetadataKind) -> (r: ModifyMetadataEvent)
    ensures
        r.path == path,
        r.metadata_type == metadata_type_of(metadata_kind),
{
    ModifyMetadataEvent { path, metadata_type: MetadataType::from(metadata_kind) }
}

/// A file changed in a way that is neither content, metadata nor name.
#[derive(Debug, PartialEq, Eq)]
pub struct ModifyOtherEvent {
    pub path: String,
}

impl ModifyOtherEvent {
    pub fn new(path: String) -> (r: Self)
        ensures
            r.path == path,
    {
        Self { path }
    }
}

impl Clone for ModifyOtherEvent {
    fn clone(&self) -> (r: Self)
        ensures
            r == *self,
    {
        Self { path: self.path.clone() }
    }
}

/// A file changed, and the source did not say how.
#[derive(Debug, PartialEq, Eq)]
pub struct ModifyUnknownEvent {
    pub path: String,
}

impl ModifyUnknownEvent {
    pub fn new(path: String) -> (r: Self)
        ensures
            r.path == path,
    {
        Self { path }
    }
}

impl Clone for ModifyUnknownEvent {
    fn clone(&self) -> (r: Self)
        ensures
            r == *self,
    {
        Self { path: self.path.clone() }
    }
}

} // verus!
