//! The closed set of raw notification kinds, and the notification itself.

use vstd::prelude::*;

verus! {

/// How a file was opened or closed.
#[derive(Clone, Copy, Debug, PartialEq, Eq, Hash, Structural)]
pub enum AccessMode {
    Any,
    Execute,
    Read,
    Write,
    Other,
}

/// What kind of access was observed.
#[derive(Clone, Copy, Debug, PartialEq, Eq, Hash, Structural)]
pub enum AccessKind {
    Any,
    Read,
    Open(AccessMode),
    Close(AccessMode),
    Other,
}

/// What kind of object was created.
#[derive(Clone, Copy, Debug, PartialEq, Eq, Hash, Structural)]
pub enum CreateKind {
    Any,
    File,
    Folder,
    Other,
}

/// What changed in the content of a file.
#[derive(Clone, Copy, Debug, PartialEq, Eq, Hash, Structural)]
pub enum DataChange {
    Any,
    Size,
    Content,
    Other,
}

/// What changed in the metadata of a file.
#[derive(Clone, Copy, Debug, PartialEq, Eq, Hash, Structural)]
pub enum MetadataKind {
    Any,
    AccessTime,
    WriteTime,
    Permissions,
    Ownership,
    Extended,
    Other,
}

/// Which half of a rename a notification reports.
#[derive(Clone, Copy, Debug, PartialEq, Eq, Hash, Structural)]
pub enum RenameMode {
    /// The direction is not known.
    Any,
    /// The new name.
    To,
    /// The old name.
    From,
    /// Both names, the old one first.
    Both,
    Other,
}

/// What kind of modification was observed.
#[derive(Clone, Copy, Debug, PartialEq, Eq, Hash, Structural)]
pub enum ModifyKind {
    Any,
    Data(DataChange),
    Metadata(MetadataKind),
    Name(RenameMode),
    Other,
}

/// What kind of object was removed.
#[derive(Clone, Copy, Debug, PartialEq, Eq, Hash, Structural)]
pub enum RemoveKind {
    Any,
    File,
    Folder,
    Other,
}

/// The kind of a raw notification.
#[derive(Clone, Copy, Debug, PartialEq, Eq, Hash, Structural)]
pub enum EventKind {
    Any,
    Access(AccessKind),
    Create(CreateKind),
    Modify(ModifyKind),
    Remove(RemoveKind),
    Other,
}

/// A marker that the source attaches to a notification.
#[derive(Clone, Copy, Debug, PartialEq, Eq, Hash, Structural)]
pub enum Flag {
    /// The source lost precision: what is known of the watched tree is stale.
    Rescan,
}

/// What a notification carries besides its kind and paths.
#[derive(Debug, PartialEq, Eq)]
pub struct EventAttributes {
    /// Correlates the two halves of a rename.
    pub tracker: Option<usize>,
    pub flag: Option<Flag>,
    pub info: Option<String>,
}

/// A raw notification from the source.
#[derive(Debug, PartialEq, Eq)]
pub struct Event {
    pub kind: EventKind,
    /// The subject path first; a rename that reports both names has two.
    pub paths: Vec<String>,
    pub attrs: EventAttributes,
}

/// The mathematical value of a notification: its paths and its info as
/// sequences of characters.
pub struct EventView {
    pub kind: EventKind,
    pub paths: Seq<Seq<char>>,
    pub tracker: Option<usize>,
    pub flag: Option<Flag>,
    pub info: Option<Seq<char>>,
}

impl EventView {
    /// The notification asks for the watched tree to be looked at anew.
    pub open spec fn need_rescan(self) -> bool {
        self.flag == Some(Flag::Rescan)
    }

    /// The path under which the notification is reported: its last one.
    pub open spec fn subject(self) -> Option<Seq<char>> {
        if self.paths.len() > 0 {
            Some(self.paths.last())
        } else {
            None
        }
    }

    /// The same notification, reported against `path` alone.
    pub open spec fn at_path(self, path: Seq<char>) -> EventView {
        EventView { paths: seq![path], ..self }
    }

    /// The same notification with another kind.
    pub open spec fn with_kind(self, kind: EventKind) -> EventView {
        EventView { kind, ..self }
    }
}

/// The characters of an optional string.
pub open spec fn opt_chars(s: Option<String>) -> Option<Seq<char>> {
    match s {
        Some(s) => Some(s@),
        None => None,
    }
}

impl View for EventAttributes {
    type V = (Option<usize>, Option<Flag>, Option<Seq<char>>);

    open spec fn view(&self) -> Self::V {
        (self.tracker, self.flag, opt_chars(self.info))
    }
}

impl View for Event {
    type V = EventView;

    open spec fn view(&self) -> EventView {
        EventView {
            kind: self.kind,
            paths: self.paths.deep_view(),
            tracker: self.attrs.tracker,
            flag: self.attrs.flag,
            info: opt_chars(self.attrs.info),
        }
    }
}

impl Clone for EventAttributes {
    fn clone(&self) -> (r: Self)
        ensures
            r@ == self@,
    {
        let info = match &self.info {
            Some(s) => Some(s.clone()),
            None => None,
        };
        EventAttributes { tracker: self.tracker, flag: self.flag, info }
    }
}

/// A copy of a list of paths.
pub fn clone_paths(paths: &Vec<String>) -> (r: Vec<String>)
    ensures
        r.deep_view() == paths.deep_view(),
{
    let mut r: Vec<String> = Vec::new();
    let mut i: usize = 0;
    while i < paths.len()
        invariant
            i <= paths.len(),
            r.len() == i,
            forall|j: int| 0 <= j < i ==> r[j]@ == paths[j]@,
        decreases paths.len() - i,
    {
        r.push(paths[i].clone());
        i += 1;
    }
    assert(r.deep_view() =~= paths.deep_view());
    r
}

impl Clone for Event {
    fn clone(&self) -> (r: Self)
        ensures
            r@ == self@,
    {
        Event { kind: self.kind, paths: clone_paths(&self.paths), attrs: self.attrs.clone() }
    }
}

impl EventAttributes {
    /// No tracker, no flag, no info.
    pub fn new() -> (r: Self)
        ensures
            r@ == (None::<usize>, None::<Flag>, None::<Seq<char>>),
    {
        EventAttributes { tracker: None, flag: None, info: None }
    }
}

impl Event {
    /// A notification of the given kind, without paths or attributes.
    pub fn new(kind: EventKind) -> (r: Self)
        ensures
            r@ == (EventView {
                kind,
                paths: Seq::<Seq<char>>::empty(),
                tracker: None,
                flag: None,
                info: None,
            }),
    {
        let r = Event { kind, paths: Vec::new(), attrs: EventAttributes::new() };
        assert(r.paths.deep_view() =~= Seq::<Seq<char>>::empty());
        r
    }

    /// Adds a path after those already there.
    pub fn add_path(self, path: String) -> (r: Self)
        ensures
            r@ == (EventView { paths: self@.paths.push(path@), ..self@ }),
    {
        let mut r = self;
        r.paths.push(path);
        assert(r.paths.deep_view() =~= self.paths.deep_view().push(path@));
        r
    }

    /// Sets the tracker that pairs the two halves of a rename.
    pub fn set_tracker(self, tracker: usize) -> (r: Self)
        ensures
            r@ == (EventView { tracker: Some(tracker), ..self@ }),
    {
        let mut r = self;
        r.attrs.tracker = Some(tracker);
        r
    }

    /// Sets the flag.
    pub fn set_flag(self, flag: Flag) -> (r: Self)
        ensures
            r@ == (EventView { flag: Some(flag), ..self@ }),
    {
        let mut r = self;
        r.attrs.flag = Some(flag);
        r
    }

    /// Sets the free-form info.
    pub fn set_info(self, info: &str) -> (r: Self)
        ensures
            r@ == (EventView { info: Some(info@), ..self@ }),
    {
        let mut r = self;
        r.attrs.info = Some(info.to_owned());
        r
    }

    /// Whether the notification asks for a rescan.
    pub fn need_rescan(&self) -> (b: bool)
        ensures
            b == self@.need_rescan(),
    {
        match self.attrs.flag {
            Some(flag) => flag == Flag::Rescan,
            None => false,
        }
    }

    /// Whether the notification is a rename that does not say which half it
    /// is. Only for such a one does the engine ask what is on disk.
    pub fn is_rename_of_unknown_direction(&self) -> (b: bool)
        ensures
            b == (self@.kind == EventKind::Modify(ModifyKind::Name(RenameMode::Any))),
    {
        match self.kind {
            EventKind::Modify(ModifyKind::Name(RenameMode::Any)) => true,
            _ => false,
        }
    }

    /// The tracker, if the source gave one.
    pub fn tracker(&self) -> (t: Option<usize>)
        ensures
            t == self@.tracker,
    {
        self.attrs.tracker
    }
}

} // verus!
