//! Values exchanged with the client: requests, events and directory entries.

use vstd::prelude::*;

verus! {

/// One child of a listed directory.
#[derive(Debug, Clone, PartialEq, Eq)]
pub struct Entry {
    /// Base file name; never built with an empty or unresolvable name.
    pub name: String,
    /// Full path as the traversal presented it.
    pub path: String,
    pub is_dir: bool,
}

impl Entry {
    /// A copy that is equal to `self` in every field.
    pub fn duplicate(&self) -> (r: Entry)
        ensures
            r == *self,
    {
        Entry { name: self.name.clone(), path: self.path.clone(), is_dir: self.is_dir }
    }
}

/// A decoded request line.
#[derive(Debug, Clone, PartialEq, Eq)]
pub enum Request {
    List { id: u64, path: String, show_hidden: bool, max: usize },
    Expand { id: u64, path: String, show_hidden: bool, max: usize },
    Cancel { id: u64 },
}

/// An event sent to the client.
#[derive(Debug, Clone, PartialEq, Eq)]
pub enum Event {
    /// A page of entries in final order; `done` marks the last page of `id`.
    ListChunk { id: u64, entries: Vec<Entry>, done: bool },
    /// A failure tied to request `id` (0 where the request could not be decoded).
    Error { id: u64, message: String },
}

/// Mathematical model of an [`Event`].
pub enum EventView {
    ListChunk { id: u64, entries: Seq<Entry>, done: bool },
    Error { id: u64, message: Seq<char> },
}

impl View for Event {
    type V = EventView;

    open spec fn view(&self) -> EventView {
        match *self {
            Event::ListChunk { id, entries, done } => EventView::ListChunk {
                id,
                entries: entries@,
                done,
            },
            Event::Error { id, message } => EventView::Error { id, message: message@ },
        }
    }
}

/// Page size used when a request names none.
pub open spec fn default_page_spec() -> usize {
    200
}

/// Page size used when a request names none.
pub fn default_page() -> (r: usize)
    ensures
        r == default_page_spec(),
        r >= 1,
{
    200
}

} // verus!
