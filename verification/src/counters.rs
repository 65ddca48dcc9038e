//! Progress counters for one sync operation.
//!
//! Six monotonically increasing counters, reset when an operation
//! starts. The scan fills the scanned and pending counters; the worker
//! fills the copied and deleted counters. Increments saturate at the
//! counter's maximum, so monotonicity holds unconditionally.

use vstd::prelude::*;

verus! {

/// Addition clipped to the range of a counter.
pub open spec fn sat_add(a: int, b: int) -> int {
    if a + b > u64::MAX {
        u64::MAX as int
    } else {
        a + b
    }
}

/// Clipped addition over non-negative values can be taken one step at a
/// time or all at once.
pub proof fn lemma_sat_add_chain(a: int, b: int, c: int)
    requires
        0 <= a,
        0 <= b,
        0 <= c,
    ensures
        sat_add(sat_add(a, b), c) == sat_add(a, b + c),
{
}

/// The progress counters of one run.
#[derive(Clone, PartialEq, Eq, Debug)]
pub struct Counters {
    /// Files the source walk has looked at.
    pub files_scanned: u64,
    /// Bytes of all copy tasks produced so far.
    pub bytes_pending_copy: u64,
    /// Delete tasks produced so far.
    pub files_pending_delete: u64,
    /// Bytes the worker has written so far.
    pub bytes_copied: u64,
    /// Files the worker has finished copying.
    pub files_copied: u64,
    /// Files the worker has deleted.
    pub files_deleted: u64,
}

/// Every counter of `a` is at most the matching counter of `b`.
pub open spec fn counters_le(a: Counters, b: Counters) -> bool {
    &&& a.files_scanned <= b.files_scanned
    &&& a.bytes_pending_copy <= b.bytes_pending_copy
    &&& a.files_pending_delete <= b.files_pending_delete
    &&& a.bytes_copied <= b.bytes_copied
    &&& a.files_copied <= b.files_copied
    &&& a.files_deleted <= b.files_deleted
}

impl Counters {
    /// Fresh counters, all zero, for the start of an operation.
    pub fn new() -> (r: Counters)
        ensures
            r == (Counters {
                files_scanned: 0u64,
                bytes_pending_copy: 0u64,
                files_pending_delete: 0u64,
                bytes_copied: 0u64,
                files_copied: 0u64,
                files_deleted: 0u64,
            }),
    {
        Counters {
            files_scanned: 0,
            bytes_pending_copy: 0,
            files_pending_delete: 0,
            bytes_copied: 0,
            files_copied: 0,
            files_deleted: 0,
        }
    }

    /// Counts one more file looked at by the source walk.
    pub fn count_scanned(&mut self)
        ensures
            *final(self) == (Counters {
                files_scanned: sat_add(old(self).files_scanned as int, 1) as u64,
                ..*old(self)
            }),
            counters_le(*old(self), *final(self)),
    {
        self.files_scanned = self.files_scanned.saturating_add(1);
    }

    /// Adds the size of one more pending copy.
    pub fn count_pending_copy(&mut self, bytes: u64)
        ensures
            *final(self) == (Counters {
                bytes_pending_copy: sat_add(old(self).bytes_pending_copy as int, bytes as int) as u64,
                ..*old(self)
            }),
            counters_le(*old(self), *final(self)),
    {
        self.bytes_pending_copy = self.bytes_pending_copy.saturating_add(bytes);
    }

    /// Counts one more pending deletion.
    pub fn count_pending_delete(&mut self)
        ensures
            *final(self) == (Counters {
                files_pending_delete: sat_add(old(self).files_pending_delete as int, 1) as u64,
                ..*old(self)
            }),
            counters_le(*old(self), *final(self)),
    {
        self.files_pending_delete = self.files_pending_delete.saturating_add(1);
    }

    /// Adds bytes the worker has just written.
    pub fn count_copied_bytes(&mut self, bytes: u64)
        ensures
            *final(self) == (Counters {
                bytes_copied: sat_add(old(self).bytes_copied as int, bytes as int) as u64,
                ..*old(self)
            }),
            counters_le(*old(self), *final(self)),
    {
        self.bytes_copied = self.bytes_copied.saturating_add(bytes);
    }

    /// Counts one file the worker finished copying.
    pub fn count_copied_file(&mut self)
        ensures
            *final(self) == (Counters {
                files_copied: sat_add(old(self).files_copied as int, 1) as u64,
                ..*old(self)
            }),
            counters_le(*old(self), *final(self)),
    {
        self.files_copied = self.files_copied.saturating_add(1);
    }

    /// Counts one file the worker deleted.
    pub fn count_deleted_file(&mut self)
        ensures
            *final(self) == (Counters {
                files_deleted: sat_add(old(self).files_deleted as int, 1) as u64,
                ..*old(self)
            }),
            counters_le(*old(self), *final(self)),
    {
        self.files_deleted = self.files_deleted.saturating_add(1);
    }
}

} // verus!
