//! The operations a badge may be scoped to, and the rights of the capability
//! that carries it.
use vstd::prelude::*;

verus! {

/// A set of file operations: some of read and write. It says what a badge may
/// do with a file, and is independent of the kernel's transfer rights.
#[allow(non_camel_case_types)]
#[derive(Clone, Copy, PartialEq, Eq, Debug, Structural)]
pub enum FileOps {
    NONE,
    READ,
    WRITE,
    ALL,
}

impl FileOps {
    /// Whether reading is among the operations.
    pub open spec fn reads(self) -> bool {
        self == FileOps::READ || self == FileOps::ALL
    }

    /// Whether writing is among the operations.
    pub open spec fn writes(self) -> bool {
        self == FileOps::WRITE || self == FileOps::ALL
    }

    /// Whether every operation of `other` is among these.
    pub open spec fn includes(self, other: FileOps) -> bool {
        &&& other.reads() ==> self.reads()
        &&& other.writes() ==> self.writes()
    }

    /// Whether these are the operations of either `a` or `b`.
    pub open spec fn joins(self, a: FileOps, b: FileOps) -> bool {
        &&& self.reads() == (a.reads() || b.reads())
        &&& self.writes() == (a.writes() || b.writes())
    }

    /// The operations of either set.
    pub fn union(self, other: FileOps) -> (both: FileOps)
        ensures
            both.joins(self, other),
    {
        match (self, other) {
            (FileOps::NONE, _) => other,
            (_, FileOps::NONE) => self,
            (FileOps::READ, FileOps::READ) => FileOps::READ,
            (FileOps::WRITE, FileOps::WRITE) => FileOps::WRITE,
            _ => FileOps::ALL,
        }
    }

    /// Whether every operation of `other` is among these.
    pub fn contains(self, other: FileOps) -> (all: bool)
        ensures
            all == self.includes(other),
    {
        match (self, other) {
            (_, FileOps::NONE) => true,
            (FileOps::ALL, _) => true,
            (FileOps::READ, FileOps::READ) => true,
            (FileOps::WRITE, FileOps::WRITE) => true,
            _ => false,
        }
    }
}

/// A slot in a thread's capability space.
pub type CPtr = usize;

/// The kernel rights of a capability.
#[derive(Clone, Copy, PartialEq, Eq, Debug, Structural)]
pub struct Rights {
    pub read: bool,
    pub write: bool,
    pub grant: bool,
}

impl Rights {
    /// The rights to call through a capability and to pass it on.
    pub open spec fn call_and_grant() -> Rights {
        Rights { read: false, write: true, grant: true }
    }
}

} // verus!
