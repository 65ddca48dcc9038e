//! Entries seen by the scan and the tasks it produces.
//!
//! A `FileEntry` is one entry of a directory tree as the scan sees it:
//! its relative path, whether it is a directory, its byte size and its
//! modification time. A `Task` is one unit of work for the worker:
//! either copy one file or delete one file. Byte sizes are snapshotted
//! at scan time and never re-read.

use vstd::prelude::*;

verus! {

/// One entry of a tree, with the metadata the scan works from. The
/// modification time is an offset from an arbitrary epoch; only its
/// order matters.
#[derive(Clone, PartialEq, Eq, Debug)]
pub struct FileEntry {
    pub relative: String,
    pub is_dir: bool,
    pub bytes: u64,
    pub mtime: i64,
}

/// The mathematical content of a `FileEntry`.
pub struct FileEntryV {
    pub relative: Seq<char>,
    pub is_dir: bool,
    pub bytes: u64,
    pub mtime: i64,
}

impl View for FileEntry {
    type V = FileEntryV;

    open spec fn view(&self) -> FileEntryV {
        FileEntryV {
            relative: self.relative@,
            is_dir: self.is_dir,
            bytes: self.bytes,
            mtime: self.mtime,
        }
    }
}

impl DeepView for FileEntry {
    type V = FileEntryV;

    open spec fn deep_view(&self) -> FileEntryV {
        self.view()
    }
}

impl FileEntry {
    /// Builds an entry from its parts.
    pub fn new(relative: String, is_dir: bool, bytes: u64, mtime: i64) -> (r: FileEntry)
        ensures
            r@ == (FileEntryV { relative: relative@, is_dir, bytes, mtime }),
    {
        FileEntry { relative, is_dir, bytes, mtime }
    }
}

/// A pending copy of one file, with the byte size seen at scan time.
#[derive(Clone, PartialEq, Eq, Debug)]
pub struct Copy {
    pub from: String,
    pub to: String,
    pub relative: String,
    pub bytes: u64,
}

/// The mathematical content of a `Copy`.
pub struct CopyV {
    pub from: Seq<char>,
    pub to: Seq<char>,
    pub relative: Seq<char>,
    pub bytes: u64,
}

impl View for Copy {
    type V = CopyV;

    open spec fn view(&self) -> CopyV {
        CopyV { from: self.from@, to: self.to@, relative: self.relative@, bytes: self.bytes }
    }
}

impl Copy {
    /// Builds a copy task from its parts.
    pub fn new(from: String, to: String, relative: String, bytes: u64) -> (r: Self)
        ensures
            r@ == (CopyV { from: from@, to: to@, relative: relative@, bytes }),
    {
        Self { from, to, relative, bytes }
    }
}

/// A pending deletion of one target file.
#[derive(Clone, PartialEq, Eq, Debug)]
pub struct Delete {
    pub path: String,
    pub relative: String,
}

/// The mathematical content of a `Delete`.
pub struct DeleteV {
    pub path: Seq<char>,
    pub relative: Seq<char>,
}

impl View for Delete {
    type V = DeleteV;

    open spec fn view(&self) -> DeleteV {
        DeleteV { path: self.path@, relative: self.relative@ }
    }
}

impl Delete {
    /// Builds a delete task from its parts.
    pub fn new(path: String, relative: String) -> (r: Self)
        ensures
            r@ == (DeleteV { path: path@, relative: relative@ }),
    {
        Self { path, relative }
    }
}

/// One unit of work for the worker: copy a file or delete a file.
#[derive(Clone, PartialEq, Eq, Debug)]
pub enum Task {
    Copy(Copy),
    Delete(Delete),
}

/// The mathematical content of a `Task`.
pub enum TaskV {
    Copy(CopyV),
    Delete(DeleteV),
}

impl View for Task {
    type V = TaskV;

    open spec fn view(&self) -> TaskV {
        match self {
            Task::Copy(c) => TaskV::Copy(c@),
            Task::Delete(d) => TaskV::Delete(d@),
        }
    }
}

impl DeepView for Task {
    type V = TaskV;

    open spec fn deep_view(&self) -> TaskV {
        self.view()
    }
}

impl TaskV {
    /// The relative path the task is about, uniform over both variants.
    pub open spec fn relative(self) -> Seq<char> {
        match self {
            TaskV::Copy(c) => c.relative,
            TaskV::Delete(d) => d.relative,
        }
    }

    /// Whether this is a copy task.
    pub open spec fn is_copy(self) -> bool {
        self is Copy
    }

    /// The byte size a copy task carries; a delete task carries none.
    pub open spec fn copy_bytes(self) -> int {
        match self {
            TaskV::Copy(c) => c.bytes as int,
            TaskV::Delete(_) => 0,
        }
    }
}

impl Task {
    /// The relative path the task is about, for logging and progress.
    pub fn relative(&self) -> (r: &String)
        ensures
            r@ == self@.relative(),
    {
        match self {
            Task::Copy(c) => &c.relative,
            Task::Delete(d) => &d.relative,
        }
    }
}

} // verus!
