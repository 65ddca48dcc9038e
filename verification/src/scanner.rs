//! The scanner: diffs the source tree against the target tree.
//!
//! The scan works in two phases. The source phase walks the source
//! entries in order: directories that the filter keeps get their target
//! counterpart planned for creation; files that the filter keeps are
//! compared by modification time against the target, and a copy task is
//! planned iff the target misses the file or is strictly older. The
//! target phase (skipped when deletion is disabled) plans a delete task
//! for every target file whose relative path has no file under source.
//! All copy tasks are planned before any delete task.

use vstd::prelude::*;

use crate::counters::{sat_add, Counters};
use crate::filter::{keep_decision, keep_entry, RuleSet, RuleSetV};
use crate::paths::{join_path, joined_path};
use crate::tasks::{CopyV, Delete, DeleteV, FileEntry, FileEntryV, Task, TaskV};

verus! {

/// Everything one sync operation needs: the two roots, the three rule
/// sets, and the flags. Built once per operation and read-only after.
pub struct SyncOperation {
    pub source: String,
    pub target: String,
    pub exclude: RuleSet,
    pub retain: RuleSet,
    pub force: RuleSet,
    pub no_delete: bool,
    pub log_files: bool,
}

/// The mathematical content of a `SyncOperation`.
pub struct SyncOperationV {
    pub source: Seq<char>,
    pub target: Seq<char>,
    pub exclude: RuleSetV,
    pub retain: RuleSetV,
    pub force: RuleSetV,
    pub no_delete: bool,
    pub log_files: bool,
}

impl View for SyncOperation {
    type V = SyncOperationV;

    open spec fn view(&self) -> SyncOperationV {
        SyncOperationV {
            source: self.source@,
            target: self.target@,
            exclude: self.exclude@,
            retain: self.retain@,
            force: self.force@,
            no_delete: self.no_delete,
            log_files: self.log_files,
        }
    }
}

/// Whether the filter keeps this entry under the operation's rules.
pub open spec fn entry_kept(op: SyncOperationV, e: FileEntryV) -> bool {
    keep_decision(e.relative, e.is_dir, op.exclude, op.retain, op.force)
}

/// The modification time of the first target file at `rel`, if any.
pub open spec fn target_file_mtime(tgt: Seq<FileEntryV>, rel: Seq<char>) -> Option<i64>
    decreases tgt.len(),
{
    if tgt.len() == 0 {
        None
    } else if !tgt[0].is_dir && tgt[0].relative == rel {
        Some(tgt[0].mtime)
    } else {
        target_file_mtime(tgt.drop_first(), rel)
    }
}

/// Some file under source lies at `rel`.
pub open spec fn source_has_file(src: Seq<FileEntryV>, rel: Seq<char>) -> bool {
    exists|i: int| 0 <= i < src.len() && !src[i].is_dir && src[i].relative == rel
}

/// A kept source file needs copying iff the target misses it or the
/// target's copy is strictly older. A target at least as new as the
/// source suppresses the copy even if the contents differ.
pub open spec fn copy_needed(op: SyncOperationV, e: FileEntryV, tgt: Seq<FileEntryV>) -> bool {
    &&& !e.is_dir
    &&& entry_kept(op, e)
    &&& match target_file_mtime(tgt, e.relative) {
        Some(m) => e.mtime > m,
        None => true,
    }
}

/// The copy task planned for a source file, with its byte size
/// snapshotted from the scan.
pub open spec fn copy_task_for(op: SyncOperationV, e: FileEntryV) -> TaskV {
    TaskV::Copy(
        CopyV {
            from: joined_path(op.source, e.relative),
            to: joined_path(op.target, e.relative),
            relative: e.relative,
            bytes: e.bytes,
        },
    )
}

/// The copy tasks of the source phase, in source order.
pub open spec fn planned_copies(
    op: SyncOperationV,
    src: Seq<FileEntryV>,
    tgt: Seq<FileEntryV>,
) -> Seq<TaskV>
    decreases src.len(),
{
    if src.len() == 0 {
        Seq::empty()
    } else {
        let rest = planned_copies(op, src.drop_last(), tgt);
        if copy_needed(op, src.last(), tgt) {
            rest.push(copy_task_for(op, src.last()))
        } else {
            rest
        }
    }
}

/// A target file is an orphan iff no source file shares its relative
/// path; orphans are deleted only when deletion is enabled.
pub open spec fn delete_needed(op: SyncOperationV, e: FileEntryV, src: Seq<FileEntryV>) -> bool {
    &&& !e.is_dir
    &&& !source_has_file(src, e.relative)
}

/// The delete task planned for an orphaned target file.
pub open spec fn delete_task_for(op: SyncOperationV, e: FileEntryV) -> TaskV {
    TaskV::Delete(DeleteV { path: joined_path(op.target, e.relative), relative: e.relative })
}

/// The delete tasks of the target phase, in target order; none at all
/// when deletion is disabled.
pub open spec fn planned_deletes(
    op: SyncOperationV,
    src: Seq<FileEntryV>,
    tgt: Seq<FileEntryV>,
) -> Seq<TaskV>
    decreases tgt.len(),
{
    if op.no_delete || tgt.len() == 0 {
        Seq::empty()
    } else {
        let rest = planned_deletes(op, src, tgt.drop_last());
        if delete_needed(op, tgt.last(), src) {
            rest.push(delete_task_for(op, tgt.last()))
        } else {
            rest
        }
    }
}

/// The target directories to create during the source phase: one for
/// each kept source directory, in source order.
pub open spec fn planned_dir_creations(op: SyncOperationV, src: Seq<FileEntryV>) -> Seq<Seq<char>>
    decreases src.len(),
{
    if src.len() == 0 {
        Seq::empty()
    } else {
        let rest = planned_dir_creations(op, src.drop_last());
        if src.last().is_dir && entry_kept(op, src.last()) {
            rest.push(joined_path(op.target, src.last().relative))
        } else {
            rest
        }
    }
}

/// The number of file entries in a walk.
pub open spec fn file_count(s: Seq<FileEntryV>) -> int
    decreases s.len(),
{
    if s.len() == 0 {
        0
    } else {
        file_count(s.drop_last()) + if !s.last().is_dir {
            1int
        } else {
            0int
        }
    }
}

/// The bytes carried by the copy tasks of a stream.
pub open spec fn copy_bytes_sum(tasks: Seq<TaskV>) -> int
    decreases tasks.len(),
{
    if tasks.len() == 0 {
        0
    } else {
        copy_bytes_sum(tasks.drop_last()) + tasks.last().copy_bytes()
    }
}

pub proof fn lemma_file_count_nonneg(s: Seq<FileEntryV>)
    ensures
        0 <= file_count(s) <= s.len(),
    decreases s.len(),
{
    if s.len() != 0 {
        lemma_file_count_nonneg(s.drop_last());
    }
}

pub proof fn lemma_copy_bytes_sum_nonneg(tasks: Seq<TaskV>)
    ensures
        0 <= copy_bytes_sum(tasks),
    decreases tasks.len(),
{
    if tasks.len() != 0 {
        lemma_copy_bytes_sum_nonneg(tasks.drop_last());
    }
}

/// Looks up the modification time of the target file at `rel`.
fn find_target_mtime(target: &Vec<FileEntry>, rel: &String) -> (r: Option<i64>)
    ensures
        r == target_file_mtime(target.deep_view(), rel@),
{
    let ghost tdv = target.deep_view();
    let mut j: usize = 0;
    proof {
        assert(tdv.skip(0int) =~= tdv);
    }
    while j < target.len()
        invariant
            j <= target.len(),
            tdv == target.deep_view(),
            tdv.len() == target.len(),
            target_file_mtime(tdv, rel@) == target_file_mtime(tdv.skip(j as int), rel@),
        decreases target.len() - j,
    {
        proof {
            assert(tdv.skip(j as int)[0] == tdv[j as int]);
            assert(tdv[j as int] == target@[j as int]@);
            assert(tdv.skip(j as int).drop_first() =~= tdv.skip(j + 1));
        }
        let e = &target[j];
        if !e.is_dir && e.relative == *rel {
            return Some(e.mtime);
        }
        j += 1;
    }
    proof {
        assert(tdv.skip(target.len() as int) =~= Seq::<FileEntryV>::empty());
    }
    None
}

/// Whether some file under source lies at `rel`.
fn source_contains_file(source: &Vec<FileEntry>, rel: &String) -> (r: bool)
    ensures
        r == source_has_file(source.deep_view(), rel@),
{
    let ghost sdv = source.deep_view();
    let mut j: usize = 0;
    while j < source.len()
        invariant
            j <= source.len(),
            sdv == source.deep_view(),
            sdv.len() == source.len(),
            forall|k: int| 0 <= k < j ==> !(!sdv[k].is_dir && sdv[k].relative == rel@),
        decreases source.len() - j,
    {
        proof {
            assert(sdv[j as int] == source@[j as int]@);
        }
        let e = &source[j];
        if !e.is_dir && e.relative == *rel {
            return true;
        }
        j += 1;
    }
    false
}

/// The source phase over files: walks the source entries and plans a
/// copy task for every kept file that the target misses or holds in an
/// older version. Counts every file looked at and the bytes pending.
pub fn plan_copies(
    op: &SyncOperation,
    source: &Vec<FileEntry>,
    target: &Vec<FileEntry>,
    counters: &mut Counters,
) -> (tasks: Vec<Task>)
    ensures
        tasks.deep_view() == planned_copies(op@, source.deep_view(), target.deep_view()),
        final(counters).files_scanned == sat_add(
            old(counters).files_scanned as int,
            file_count(source.deep_view()),
        ),
        final(counters).bytes_pending_copy == sat_add(
            old(counters).bytes_pending_copy as int,
            copy_bytes_sum(tasks.deep_view()),
        ),
        final(counters).files_pending_delete == old(counters).files_pending_delete,
        final(counters).bytes_copied == old(counters).bytes_copied,
        final(counters).files_copied == old(counters).files_copied,
        final(counters).files_deleted == old(counters).files_deleted,
{
    let ghost sdv = source.deep_view();
    let ghost tdv = target.deep_view();
    let ghost c0 = *counters;
    let mut tasks: Vec<Task> = Vec::new();
    let mut i: usize = 0;
    proof {
        assert(sdv.take(0int) =~= Seq::<FileEntryV>::empty());
    }
    while i < source.len()
        invariant
            i <= source.len(),
            sdv == source.deep_view(),
            tdv == target.deep_view(),
            sdv.len() == source.len(),
            tasks.deep_view() == planned_copies(op@, sdv.take(i as int), tdv),
            counters.files_scanned == sat_add(c0.files_scanned as int, file_count(sdv.take(i as int))),
            counters.bytes_pending_copy == sat_add(
                c0.bytes_pending_copy as int,
                copy_bytes_sum(tasks.deep_view()),
            ),
            counters.files_pending_delete == c0.files_pending_delete,
            counters.bytes_copied == c0.bytes_copied,
            counters.files_copied == c0.files_copied,
            counters.files_deleted == c0.files_deleted,
        decreases source.len() - i,
    {
        let ghost pre_take = sdv.take(i as int);
        let ghost cur_take = sdv.take(i + 1);
        proof {
            assert(cur_take.drop_last() =~= pre_take);
            assert(cur_take.last() == sdv[i as int]);
            assert(sdv[i as int] == source@[i as int]@);
            lemma_file_count_nonneg(pre_take);
            lemma_copy_bytes_sum_nonneg(tasks.deep_view());
        }
        let e = &source[i];
        if !e.is_dir {
            counters.count_scanned();
            proof {
                crate::counters::lemma_sat_add_chain(
                    c0.files_scanned as int,
                    file_count(pre_take),
                    1,
                );
            }
            let kept = keep_entry(e.relative.as_str(), false, &op.exclude, &op.retain, &op.force);
            let mut needed = false;
            if kept {
                match find_target_mtime(target, &e.relative) {
                    Some(m) => {
                        needed = e.mtime > m;
                    },
                    None => {
                        needed = true;
                    },
                }
            }
            proof {
                assert(needed == copy_needed(op@, sdv[i as int], tdv));
            }
            if needed {
                let from = join_path(op.source.as_str(), e.relative.as_str());
                let to = join_path(op.target.as_str(), e.relative.as_str());
                let task = Task::Copy(crate::tasks::Copy::new(from, to, e.relative.clone(), e.bytes));
                let ghost pre_tasks = tasks.deep_view();
                let ghost pre_at = tasks@;
                proof {
                    assert(task@ == copy_task_for(op@, sdv[i as int]));
                }
                tasks.push(task);
                counters.count_pending_copy(e.bytes);
                proof {
                    assert(tasks@ == pre_at.push(task));
                    assert(tasks.deep_view().len() == tasks@.len());
                    assert(pre_tasks.len() == pre_at.len());
                    assert forall|k: int| 0 <= k < tasks@.len() implies tasks.deep_view()[k]
                        == pre_tasks.push(task@)[k] by {
                        assert(tasks.deep_view()[k] == tasks@[k]@);
                        if k < pre_at.len() {
                            assert(tasks@[k] == pre_at[k]);
                            assert(pre_tasks[k] == pre_at[k]@);
                        }
                    }
                    assert(tasks.deep_view() =~= pre_tasks.push(task@));
                    assert(tasks.deep_view() == planned_copies(op@, cur_take, tdv));
                    crate::counters::lemma_sat_add_chain(
                        c0.bytes_pending_copy as int,
                        copy_bytes_sum(pre_tasks),
                        e.bytes as int,
                    );
                    assert(tasks.deep_view().drop_last() =~= pre_tasks);
                    assert(tasks.deep_view().last() == task@);
                    assert(task@.copy_bytes() == e.bytes as int);
                    assert(copy_bytes_sum(tasks.deep_view()) == copy_bytes_sum(pre_tasks)
                        + e.bytes as int);
                }
            } else {
                proof {
                    assert(tasks.deep_view() == planned_copies(op@, cur_take, tdv));
                }
            }
        } else {
            proof {
                assert(tasks.deep_view() == planned_copies(op@, cur_take, tdv));
                assert(file_count(cur_take) == file_count(pre_take));
            }
        }
        i += 1;
    }
    proof {
        assert(sdv.take(source.len() as int) =~= sdv);
    }
    tasks
}

/// The target phase: plans a delete task for every orphaned target
/// file, or nothing at all when deletion is disabled.
pub fn plan_deletes(
    op: &SyncOperation,
    source: &Vec<FileEntry>,
    target: &Vec<FileEntry>,
    counters: &mut Counters,
) -> (tasks: Vec<Task>)
    ensures
        tasks.deep_view() == planned_deletes(op@, source.deep_view(), target.deep_view()),
        final(counters).files_pending_delete == sat_add(
            old(counters).files_pending_delete as int,
            tasks.deep_view().len() as int,
        ),
        final(counters).files_scanned == old(counters).files_scanned,
        final(counters).bytes_pending_copy == old(counters).bytes_pending_copy,
        final(counters).bytes_copied == old(counters).bytes_copied,
        final(counters).files_copied == old(counters).files_copied,
        final(counters).files_deleted == old(counters).files_deleted,
{
    let ghost sdv = source.deep_view();
    let ghost tdv = target.deep_view();
    let ghost c0 = *counters;
    let mut tasks: Vec<Task> = Vec::new();
    if op.no_delete {
        proof {
            assert(tasks.deep_view() =~= planned_deletes(op@, sdv, tdv));
        }
        return tasks;
    }
    let mut i: usize = 0;
    proof {
        assert(tdv.take(0int) =~= Seq::<FileEntryV>::empty());
    }
    while i < target.len()
        invariant
            i <= target.len(),
            sdv == source.deep_view(),
            tdv == target.deep_view(),
            tdv.len() == target.len(),
            !op.no_delete,
            tasks.deep_view() == planned_deletes(op@, sdv, tdv.take(i as int)),
            counters.files_pending_delete == sat_add(
                c0.files_pending_delete as int,
                tasks.deep_view().len() as int,
            ),
            counters.files_scanned == c0.files_scanned,
            counters.bytes_pending_copy == c0.bytes_pending_copy,
            counters.bytes_copied == c0.bytes_copied,
            counters.files_copied == c0.files_copied,
            counters.files_deleted == c0.files_deleted,
        decreases target.len() - i,
    {
        let ghost pre_take = tdv.take(i as int);
        let ghost cur_take = tdv.take(i + 1);
        proof {
            assert(cur_take.drop_last() =~= pre_take);
            assert(cur_take.last() == tdv[i as int]);
            assert(tdv[i as int] == target@[i as int]@);
        }
        let e = &target[i];
        if !e.is_dir && !source_contains_file(source, &e.relative) {
            let path = join_path(op.target.as_str(), e.relative.as_str());
            let task = Task::Delete(Delete::new(path, e.relative.clone()));
            let ghost pre_tasks = tasks.deep_view();
            let ghost pre_at = tasks@;
            proof {
                assert(task@ == delete_task_for(op@, tdv[i as int]));
            }
            tasks.push(task);
            counters.count_pending_delete();
            proof {
                assert(tasks@ == pre_at.push(task));
                assert(tasks.deep_view().len() == tasks@.len());
                assert(pre_tasks.len() == pre_at.len());
                assert forall|k: int| 0 <= k < tasks@.len() implies tasks.deep_view()[k]
                    == pre_tasks.push(task@)[k] by {
                    assert(tasks.deep_view()[k] == tasks@[k]@);
                    if k < pre_at.len() {
                        assert(tasks@[k] == pre_at[k]);
                        assert(pre_tasks[k] == pre_at[k]@);
                    }
                }
                assert(tasks.deep_view() =~= pre_tasks.push(task@));
                assert(tasks.deep_view() == planned_deletes(op@, sdv, cur_take));
                crate::counters::lemma_sat_add_chain(
                    c0.files_pending_delete as int,
                    pre_tasks.len() as int,
                    1,
                );
            }
        } else {
            proof {
                assert(tasks.deep_view() == planned_deletes(op@, sdv, cur_take));
            }
        }
        i += 1;
    }
    proof {
        assert(tdv.take(target.len() as int) =~= tdv);
    }
    tasks
}

/// The directory side of the source phase: the target directories to
/// create, one for each kept source directory, in walk order. With a
/// depth-first walk, a directory's target is planned before its
/// children's.
pub fn plan_dir_creations(op: &SyncOperation, source: &Vec<FileEntry>) -> (dirs: Vec<String>)
    ensures
        dirs.deep_view() == planned_dir_creations(op@, source.deep_view()),
{
    let ghost sdv = source.deep_view();
    let mut dirs: Vec<String> = Vec::new();
    let mut i: usize = 0;
    proof {
        assert(sdv.take(0int) =~= Seq::<FileEntryV>::empty());
    }
    while i < source.len()
        invariant
            i <= source.len(),
            sdv == source.deep_view(),
            sdv.len() == source.len(),
            dirs.deep_view() == planned_dir_creations(op@, sdv.take(i as int)),
        decreases source.len() - i,
    {
        let ghost pre_take = sdv.take(i as int);
        let ghost cur_take = sdv.take(i + 1);
        proof {
            assert(cur_take.drop_last() =~= pre_take);
            assert(cur_take.last() == sdv[i as int]);
            assert(sdv[i as int] == source@[i as int]@);
        }
        let e = &source[i];
        if e.is_dir && keep_entry(e.relative.as_str(), true, &op.exclude, &op.retain, &op.force) {
            let path = join_path(op.target.as_str(), e.relative.as_str());
            let ghost pre_dirs = dirs.deep_view();
            let ghost pre_at = dirs@;
            let ghost pv = path@;
            dirs.push(path);
            proof {
                assert(dirs.deep_view().len() == dirs@.len());
                assert(pre_dirs.len() == pre_at.len());
                assert forall|k: int| 0 <= k < dirs@.len() implies dirs.deep_view()[k]
                    == pre_dirs.push(pv)[k] by {
                    assert(dirs.deep_view()[k] == dirs@[k]@);
                    if k < pre_at.len() {
                        assert(dirs@[k] == pre_at[k]);
                        assert(pre_dirs[k] == pre_at[k]@);
                    }
                }
                assert(dirs.deep_view() =~= pre_dirs.push(pv));
                assert(dirs.deep_view() == planned_dir_creations(op@, cur_take));
            }
        } else {
            proof {
                assert(dirs.deep_view() == planned_dir_creations(op@, cur_take));
            }
        }
        i += 1;
    }
    proof {
        assert(sdv.take(source.len() as int) =~= sdv);
    }
    dirs
}

/// Every task of a stream that follows a non-copy task is itself a
/// non-copy task: all copies come first.
pub open spec fn copies_before_deletes(tasks: Seq<TaskV>) -> bool {
    forall|i: int, j: int|
        0 <= i < j < tasks.len() && (#[trigger] tasks[j]).is_copy() ==> (
        #[trigger] tasks[i]).is_copy()
}

/// Every task of the stream is a copy.
pub open spec fn all_copy(tasks: Seq<TaskV>) -> bool {
    forall|k: int| 0 <= k < tasks.len() ==> (#[trigger] tasks[k]).is_copy()
}

/// No task of the stream is a copy.
pub open spec fn no_copy(tasks: Seq<TaskV>) -> bool {
    forall|k: int| 0 <= k < tasks.len() ==> !(#[trigger] tasks[k]).is_copy()
}

/// Every planned copy task is a copy.
pub proof fn lemma_planned_copies_all_copy(
    op: SyncOperationV,
    src: Seq<FileEntryV>,
    tgt: Seq<FileEntryV>,
)
    ensures
        all_copy(planned_copies(op, src, tgt)),
    decreases src.len(),
{
    if src.len() != 0 {
        lemma_planned_copies_all_copy(op, src.drop_last(), tgt);
        let rest = planned_copies(op, src.drop_last(), tgt);
        if copy_needed(op, src.last(), tgt) {
            let full = rest.push(copy_task_for(op, src.last()));
            assert forall|k: int| 0 <= k < full.len() implies (#[trigger] full[k]).is_copy() by {
                if k < rest.len() {
                    assert(full[k] == rest[k]);
                } else {
                    assert(full[k] == copy_task_for(op, src.last()));
                }
            }
        }
    }
}

/// No planned delete task is a copy.
pub proof fn lemma_planned_deletes_no_copy(
    op: SyncOperationV,
    src: Seq<FileEntryV>,
    tgt: Seq<FileEntryV>,
)
    ensures
        no_copy(planned_deletes(op, src, tgt)),
    decreases tgt.len(),
{
    if !op.no_delete && tgt.len() != 0 {
        lemma_planned_deletes_no_copy(op, src, tgt.drop_last());
        let rest = planned_deletes(op, src, tgt.drop_last());
        if delete_needed(op, tgt.last(), src) {
            let full = rest.push(delete_task_for(op, tgt.last()));
            assert forall|k: int| 0 <= k < full.len() implies !(#[trigger] full[k]).is_copy() by {
                if k < rest.len() {
                    assert(full[k] == rest[k]);
                } else {
                    assert(full[k] == delete_task_for(op, tgt.last()));
                }
            }
        }
    }
}

/// The whole scan: source phase, then target phase. The returned stream
/// holds every copy task before the first delete task.
pub fn plan_tasks(
    op: &SyncOperation,
    source: &Vec<FileEntry>,
    target: &Vec<FileEntry>,
    counters: &mut Counters,
) -> (tasks: Vec<Task>)
    ensures
        tasks.deep_view() == planned_copies(op@, source.deep_view(), target.deep_view())
            + planned_deletes(op@, source.deep_view(), target.deep_view()),
        copies_before_deletes(tasks.deep_view()),
        crate::counters::counters_le(*old(counters), *final(counters)),
        final(counters).bytes_copied == old(counters).bytes_copied,
        final(counters).files_copied == old(counters).files_copied,
        final(counters).files_deleted == old(counters).files_deleted,
{
    let ghost sdv = source.deep_view();
    let ghost tdv = target.deep_view();
    let mut tasks = plan_copies(op, source, target, counters);
    let mut dels = plan_deletes(op, source, target, counters);
    let ghost cdv = tasks.deep_view();
    let ghost ddv = dels.deep_view();
    let ghost c_at = tasks@;
    let ghost d_at = dels@;
    tasks.append(&mut dels);
    proof {
        assert(tasks@ == c_at + d_at);
        assert(tasks.deep_view().len() == tasks@.len());
        assert(cdv.len() == c_at.len());
        assert(ddv.len() == d_at.len());
        assert forall|k: int| 0 <= k < tasks@.len() implies tasks.deep_view()[k] == (cdv + ddv)[k] by {
            assert(tasks.deep_view()[k] == tasks@[k]@);
            if k < c_at.len() {
                assert(tasks@[k] == c_at[k]);
                assert(cdv[k] == c_at[k]@);
            } else {
                assert(tasks@[k] == d_at[k - c_at.len()]);
                assert(ddv[k - c_at.len()] == d_at[k - c_at.len()]@);
            }
        }
        assert(tasks.deep_view() =~= cdv + ddv);
        lemma_file_count_nonneg(sdv);
        lemma_copy_bytes_sum_nonneg(cdv);
        lemma_planned_copies_all_copy(op@, sdv, tdv);
        lemma_planned_deletes_no_copy(op@, sdv, tdv);
        assert forall|i: int, j: int|
            0 <= i < j < tasks.deep_view().len() && #[trigger] tasks.deep_view()[j].is_copy()
                implies #[trigger] tasks.deep_view()[i].is_copy() by {
            if j >= cdv.len() {
                assert(tasks.deep_view()[j] == ddv[j - cdv.len()]);
                assert(!tasks.deep_view()[j].is_copy());
            } else {
                assert(tasks.deep_view()[i] == cdv[i]);
            }
        }
    }
    tasks
}

/// No two entries of the walk share a relative path.
pub open spec fn distinct_relatives(s: Seq<FileEntryV>) -> bool {
    forall|i: int, j: int|
        0 <= i < j < s.len() ==> (#[trigger] s[i]).relative != (#[trigger] s[j]).relative
}

/// How many copy tasks of the stream are about `rel`.
pub open spec fn copy_count_for(tasks: Seq<TaskV>, rel: Seq<char>) -> int
    decreases tasks.len(),
{
    if tasks.len() == 0 {
        0
    } else {
        copy_count_for(tasks.drop_last(), rel) + if tasks.last().is_copy() && tasks.last().relative()
            == rel {
            1int
        } else {
            0int
        }
    }
}

/// How many delete tasks of the stream are about `rel`.
pub open spec fn delete_count_for(tasks: Seq<TaskV>, rel: Seq<char>) -> int
    decreases tasks.len(),
{
    if tasks.len() == 0 {
        0
    } else {
        delete_count_for(tasks.drop_last(), rel) + if !tasks.last().is_copy() && tasks.last().relative()
            == rel {
            1int
        } else {
            0int
        }
    }
}

/// A relative path no source entry carries gets no copy task.
pub proof fn lemma_copy_count_absent(
    op: SyncOperationV,
    src: Seq<FileEntryV>,
    tgt: Seq<FileEntryV>,
    rel: Seq<char>,
)
    requires
        forall|i: int| 0 <= i < src.len() ==> (#[trigger] src[i]).relative != rel,
    ensures
        copy_count_for(planned_copies(op, src, tgt), rel) == 0,
    decreases src.len(),
{
    if src.len() != 0 {
        assert(src.last() == src[src.len() - 1]);
        assert(forall|i: int| 0 <= i < src.drop_last().len() ==> (#[trigger] src.drop_last()[i]).relative != rel);
        lemma_copy_count_absent(op, src.drop_last(), tgt, rel);
        let rest = planned_copies(op, src.drop_last(), tgt);
        if copy_needed(op, src.last(), tgt) {
            let full = rest.push(copy_task_for(op, src.last()));
            assert(full.drop_last() =~= rest);
            assert(full.last() == copy_task_for(op, src.last()));
        }
    }
}

/// The scan plans exactly one copy task for a source entry that needs
/// one, and none for an entry that does not, provided the walk holds no
/// two entries with the same relative path.
pub proof fn lemma_copy_count_exact(
    op: SyncOperationV,
    src: Seq<FileEntryV>,
    tgt: Seq<FileEntryV>,
    e: FileEntryV,
)
    requires
        distinct_relatives(src),
        src.contains(e),
    ensures
        copy_count_for(planned_copies(op, src, tgt), e.relative) == if copy_needed(op, e, tgt) {
            1int
        } else {
            0int
        },
    decreases src.len(),
{
    let n = src.len();
    let last = src.last();
    let rest = planned_copies(op, src.drop_last(), tgt);
    if last.relative == e.relative {
        let i = choose|i: int| 0 <= i < n && src[i] == e;
        if i < n - 1 {
            assert(src[i].relative != src[n - 1].relative);
            assert(false);
        }
        assert(e == last);
        assert(forall|k: int|
            0 <= k < src.drop_last().len() ==> (#[trigger] src.drop_last()[k]).relative
                != e.relative);
        lemma_copy_count_absent(op, src.drop_last(), tgt, e.relative);
        if copy_needed(op, last, tgt) {
            let full = rest.push(copy_task_for(op, last));
            assert(full.drop_last() =~= rest);
            assert(full.last() == copy_task_for(op, last));
        }
    } else {
        assert(e != last);
        let i = choose|i: int| 0 <= i < n && src[i] == e;
        assert(i < n - 1);
        assert(src.drop_last()[i] == e);
        assert(src.drop_last().contains(e));
        assert(distinct_relatives(src.drop_last()));
        lemma_copy_count_exact(op, src.drop_last(), tgt, e);
        if copy_needed(op, last, tgt) {
            let full = rest.push(copy_task_for(op, last));
            assert(full.drop_last() =~= rest);
            assert(full.last() == copy_task_for(op, last));
        }
    }
}

/// A source file the target misses, and which the filter keeps, gets
/// exactly one copy task.
pub proof fn lemma_missing_file_copied_once(
    op: SyncOperationV,
    src: Seq<FileEntryV>,
    tgt: Seq<FileEntryV>,
    e: FileEntryV,
)
    requires
        distinct_relatives(src),
        src.contains(e),
        !e.is_dir,
        entry_kept(op, e),
        target_file_mtime(tgt, e.relative) is None,
    ensures
        copy_count_for(planned_copies(op, src, tgt), e.relative) == 1,
{
    lemma_copy_count_exact(op, src, tgt, e);
}

/// A source file whose target is at least as new is never copied, even
/// if the contents differ.
pub proof fn lemma_fresh_target_not_copied(
    op: SyncOperationV,
    src: Seq<FileEntryV>,
    tgt: Seq<FileEntryV>,
    e: FileEntryV,
    m: i64,
)
    requires
        distinct_relatives(src),
        src.contains(e),
        target_file_mtime(tgt, e.relative) == Some(m),
        m >= e.mtime,
    ensures
        copy_count_for(planned_copies(op, src, tgt), e.relative) == 0,
{
    lemma_copy_count_exact(op, src, tgt, e);
}

/// With deletion disabled, no delete task is planned, whatever the
/// trees hold and however many orphans there are.
pub proof fn lemma_no_delete_means_no_deletes(
    op: SyncOperationV,
    src: Seq<FileEntryV>,
    tgt: Seq<FileEntryV>,
)
    requires
        op.no_delete,
    ensures
        planned_deletes(op, src, tgt) == Seq::<TaskV>::empty(),
{
}

/// A relative path no target entry carries gets no delete task.
pub proof fn lemma_delete_count_absent(
    op: SyncOperationV,
    src: Seq<FileEntryV>,
    tgt: Seq<FileEntryV>,
    rel: Seq<char>,
)
    requires
        forall|i: int| 0 <= i < tgt.len() ==> (#[trigger] tgt[i]).relative != rel,
    ensures
        delete_count_for(planned_deletes(op, src, tgt), rel) == 0,
    decreases tgt.len(),
{
    if !op.no_delete && tgt.len() != 0 {
        assert(tgt.last() == tgt[tgt.len() - 1]);
        assert(forall|i: int|
            0 <= i < tgt.drop_last().len() ==> (#[trigger] tgt.drop_last()[i]).relative != rel);
        lemma_delete_count_absent(op, src, tgt.drop_last(), rel);
        let rest = planned_deletes(op, src, tgt.drop_last());
        if delete_needed(op, tgt.last(), src) {
            let full = rest.push(delete_task_for(op, tgt.last()));
            assert(full.drop_last() =~= rest);
            assert(full.last() == delete_task_for(op, tgt.last()));
        }
    }
}

/// A target file gets a delete task iff deletion is enabled and no
/// source file shares its relative path; then it gets exactly one. With
/// deletion disabled no delete task exists at all.
pub proof fn lemma_delete_count_exact(
    op: SyncOperationV,
    src: Seq<FileEntryV>,
    tgt: Seq<FileEntryV>,
    e: FileEntryV,
)
    requires
        distinct_relatives(tgt),
        tgt.contains(e),
    ensures
        delete_count_for(planned_deletes(op, src, tgt), e.relative) == if !op.no_delete
            && delete_needed(op, e, src) {
            1int
        } else {
            0int
        },
    decreases tgt.len(),
{
    if op.no_delete {
        return ;
    }
    let n = tgt.len();
    let last = tgt.last();
    let rest = planned_deletes(op, src, tgt.drop_last());
    if last.relative == e.relative {
        let i = choose|i: int| 0 <= i < n && tgt[i] == e;
        if i < n - 1 {
            assert(tgt[i].relative != tgt[n - 1].relative);
            assert(false);
        }
        assert(e == last);
        assert(forall|k: int|
            0 <= k < tgt.drop_last().len() ==> (#[trigger] tgt.drop_last()[k]).relative
                != e.relative);
        lemma_delete_count_absent(op, src, tgt.drop_last(), e.relative);
        if delete_needed(op, last, src) {
            let full = rest.push(delete_task_for(op, last));
            assert(full.drop_last() =~= rest);
            assert(full.last() == delete_task_for(op, last));
        }
    } else {
        assert(e != last);
        let i = choose|i: int| 0 <= i < n && tgt[i] == e;
        assert(i < n - 1);
        assert(tgt.drop_last()[i] == e);
        assert(tgt.drop_last().contains(e));
        assert(distinct_relatives(tgt.drop_last()));
        lemma_delete_count_exact(op, src, tgt.drop_last(), e);
        if delete_needed(op, last, src) {
            let full = rest.push(delete_task_for(op, last));
            assert(full.drop_last() =~= rest);
            assert(full.last() == delete_task_for(op, last));
        }
    }
}

} // verus!
