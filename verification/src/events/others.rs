//! Events that say no more than that something happened.

use vstd::prelude::*;

verus! {

/// Something happened that none of the other events describes.
#[derive(Debug, PartialEq, Eq)]
pub struct OtherEvent {
    pub detected_at_ns: u128,
    pub path: String,
}

impl OtherEvent {
    pub fn new(detected_at_ns: u128, path: String) -> (r: Self)
        ensures
            r.detected_at_ns == detected_at_ns,
            r.path == path,
    {
        Self { detected_at_ns, path }
    }
}

impl Clone for OtherEvent {
    fn clone(&self) -> (r: Self)
        ensures
            r == *self,
    {
        Self { detected_at_ns: self.detected_at_ns, path: self.path.clone() }
    }
}

/// Something happened, and the source did not say what.
#[derive(Debug, PartialEq, Eq)]
pub struct UnknownEvent {
    pub detected_at_ns: u128,
    pub path: String,
}

impl UnknownEvent {
    pub fn new(detected_at_ns: u128, path: String) -> (r: Self)
        ensures
            r.detected_at_ns == detected_at_ns,
            r.path == path,
    {
        Self { detected_at_ns, path }
    }
}

impl Clone for UnknownEvent {
    fn clone(&self) -> (r: Self)
        ensures
            r == *self,
    {
        Self { detected_at_ns: self.detected_at_ns, path: self.path.clone() }
    }
}

} // verus!
