//! Rename events.

use vstd::prelude::*;

verus! {

/// A file or directory got another name.
#[derive(Debug, PartialEq, Eq)]
pub struct RenameEvent {
    pub old_path: String,
    pub new_path: String,
}

impl RenameEvent {
    /// The new name comes first.
    pub fn new(new_path: String, old_path: String) -> (r: Self)
        ensures
            r.old_path == old_path,
            r.new_path == new_path,
    {
        Self { old_path, new_path }
    }
}

impl Clone for RenameEvent {
    fn clone(&self) -> (r: Self)
        ensures
            r == *self,
    {
        Self { old_path: self.old_path.clone(), new_path: self.new_path.clone() }
    }
}

/// The rename event from `old_path` to `new_path`.
pub fn from_rename_mode(old_path: String, new_path: String) -> (r: RenameEvent)
    ensures
        r.old_path == old_path,
        r.new_path == new_path,
{
    RenameEvent { old_path, new_path }
}

} // verus!
