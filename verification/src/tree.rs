//! What the file system holds, as plain values.
//!
//! The loaders never touch a disk. Whoever calls them looks at the disk first
//! and hands over what was found there: for a path a `Node`, for a directory
//! its entries with their own nodes.

use vstd::prelude::*;
use vstd::string::*;

use crate::error::IoFailure;
use crate::path::plain;

verus! {

/// What the file system holds at one path.
#[derive(Debug)]
pub enum Node {
    /// Nothing to load: no entry, or one that is neither a regular file nor
    /// a directory.
    Missing,
    /// A regular file.
    File,
    /// A directory with its entries, in the order in which the file system
    /// lists them.
    Directory(Vec<Entry>),
    /// A directory whose entries the file system refused to list.
    Unreadable(IoFailure),
}

/// One entry of a directory: its file name, and what stands there.
#[derive(Debug)]
pub struct Entry {
    pub name: String,
    pub node: Node,
}

impl Node {
    /// It is a directory, listed or not.
    pub open spec fn directory(self) -> bool {
        self is Directory || self is Unreadable
    }

    /// It looks as a file system lists it: every entry here and below has a
    /// plain file name.
    pub open spec fn listed(self) -> bool
        decreases self,
    {
        match self {
            Node::Directory(entries) => forall|i: int|
                0 <= i < entries@.len() ==> plain((#[trigger] entries@[i]).name@)
                    && entries@[i].node.listed(),
            _ => true,
        }
    }

    /// Every directory here and below could be listed.
    pub open spec fn readable(self) -> bool
        decreases self,
    {
        match self {
            Node::Directory(entries) => forall|i: int|
                0 <= i < entries@.len() ==> (#[trigger] entries@[i]).node.readable(),
            Node::Unreadable(_) => false,
            _ => true,
        }
    }

    /// Whether it is a directory, listed or not.
    pub fn is_dir(&self) -> (r: bool)
        ensures
            r == self.directory(),
    {
        match self {
            Node::Directory(_) => true,
            Node::Unreadable(_) => true,
            _ => false,
        }
    }

    /// Whether it is a regular file.
    pub fn is_file(&self) -> (r: bool)
        ensures
            r == (self is File),
    {
        match self {
            Node::File => true,
            _ => false,
        }
    }
}

impl Entry {
    /// The entry `name` of a directory, with what stands there.
    pub fn new(name: &str, node: Node) -> (entry: Entry)
        ensures
            entry.name@ == name@,
            entry.node == node,
    {
        Entry { name: name.to_owned(), node }
    }
}

} // verus!
