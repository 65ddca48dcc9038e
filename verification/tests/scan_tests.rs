use baccy::counters::Counters;
use baccy::filter::RuleSet;
use baccy::scanner::{plan_copies, plan_deletes, plan_dir_creations, plan_tasks, SyncOperation};
use baccy::tasks::{FileEntry, Task};

fn entry(rel: &str, is_dir: bool, bytes: u64, mtime: i64) -> FileEntry {
    FileEntry::new(rel.to_string(), is_dir, bytes, mtime)
}

fn op(no_delete: bool) -> SyncOperation {
    SyncOperation {
        source: "src_root".to_string(),
        target: "dst_root".to_string(),
        exclude: RuleSet::empty(),
        retain: RuleSet::empty(),
        force: RuleSet::empty(),
        no_delete,
        log_files: false,
    }
}

fn copy_relatives(tasks: &[Task]) -> Vec<String> {
    tasks
        .iter()
        .filter_map(|t| match t {
            Task::Copy(c) => Some(c.relative.clone()),
            Task::Delete(_) => None,
        })
        .collect()
}

fn delete_relatives(tasks: &[Task]) -> Vec<String> {
    tasks
        .iter()
        .filter_map(|t| match t {
            Task::Copy(_) => None,
            Task::Delete(d) => Some(d.relative.clone()),
        })
        .collect()
}

#[test]
fn missing_file_gets_exactly_one_copy_task() {
    let source = vec![entry("a.txt", false, 42, 100)];
    let target = Vec::new();
    let mut counters = Counters::new();
    let tasks = plan_copies(&op(false), &source, &target, &mut counters);
    assert_eq!(tasks.len(), 1);
    match &tasks[0] {
        Task::Copy(c) => {
            assert_eq!(c.from.as_str(), "src_root/a.txt");
            assert_eq!(c.to.as_str(), "dst_root/a.txt");
            assert_eq!(c.relative.as_str(), "a.txt");
            assert_eq!(c.bytes, 42);
        }
        Task::Delete(_) => panic!("expected a copy task"),
    }
    assert_eq!(counters.files_scanned, 1);
    assert_eq!(counters.bytes_pending_copy, 42);
}

#[test]
fn fresh_target_suppresses_the_copy() {
    let source = vec![entry("a.txt", false, 42, 100)];
    // same mtime: not strictly newer in source, so no copy even though
    // sizes (and so contents) differ
    let target = vec![entry("a.txt", false, 7, 100)];
    let mut counters = Counters::new();
    let tasks = plan_copies(&op(false), &source, &target, &mut counters);
    assert_eq!(tasks.len(), 0);
    let newer_target = vec![entry("a.txt", false, 7, 250)];
    let tasks = plan_copies(&op(false), &source, &newer_target, &mut counters);
    assert_eq!(tasks.len(), 0);
}

#[test]
fn older_target_is_recopied() {
    let source = vec![entry("a.txt", false, 42, 100)];
    let target = vec![entry("a.txt", false, 42, 99)];
    let mut counters = Counters::new();
    let tasks = plan_copies(&op(false), &source, &target, &mut counters);
    assert_eq!(copy_relatives(&tasks), vec!["a.txt".to_string()]);
}

#[test]
fn orphan_is_deleted_only_when_deletion_is_enabled() {
    let source = vec![entry("kept.txt", false, 1, 10)];
    let target = vec![entry("kept.txt", false, 1, 10), entry("orphan.txt", false, 5, 10)];
    let mut counters = Counters::new();
    let tasks = plan_deletes(&op(false), &source, &target, &mut counters);
    assert_eq!(delete_relatives(&tasks), vec!["orphan.txt".to_string()]);
    match &tasks[0] {
        Task::Delete(d) => assert_eq!(d.path.as_str(), "dst_root/orphan.txt"),
        Task::Copy(_) => panic!("expected a delete task"),
    }
    assert_eq!(counters.files_pending_delete, 1);

    let mut counters = Counters::new();
    let none = plan_deletes(&op(true), &source, &target, &mut counters);
    assert_eq!(none.len(), 0);
    assert_eq!(counters.files_pending_delete, 0);
}

#[test]
fn no_delete_produces_zero_deletes_whatever_the_orphan_count() {
    let source = Vec::new();
    let target = vec![
        entry("o1", false, 1, 1),
        entry("o2", false, 1, 1),
        entry("o3", false, 1, 1),
    ];
    let mut counters = Counters::new();
    let tasks = plan_tasks(&op(true), &source, &target, &mut counters);
    assert_eq!(tasks.len(), 0);
}

#[test]
fn excluded_file_is_not_copied() {
    let mut operation = op(false);
    operation.exclude = RuleSet::compile(
        vec!["skip".to_string()],
        Vec::new(),
        &Vec::new(),
    )
    .unwrap();
    let source = vec![entry("skip/a.txt", false, 3, 9), entry("take/b.txt", false, 4, 9)];
    let mut counters = Counters::new();
    let tasks = plan_copies(&operation, &source, &Vec::new(), &mut counters);
    assert_eq!(copy_relatives(&tasks), vec!["take/b.txt".to_string()]);
    // both files were scanned, only one is pending
    assert_eq!(counters.files_scanned, 2);
    assert_eq!(counters.bytes_pending_copy, 4);
}

#[test]
fn source_file_prevents_deletion_even_when_excluded() {
    let mut operation = op(false);
    operation.exclude = RuleSet::compile(
        Vec::new(),
        vec!["a.txt".to_string()],
        &Vec::new(),
    )
    .unwrap();
    let source = vec![entry("a.txt", false, 3, 9)];
    let target = vec![entry("a.txt", false, 3, 1)];
    let mut counters = Counters::new();
    let tasks = plan_tasks(&operation, &source, &target, &mut counters);
    // not copied (excluded), not deleted (a source file exists)
    assert_eq!(tasks.len(), 0);
}

#[test]
fn copies_come_before_deletes_in_the_stream() {
    let source = vec![entry("new1", false, 1, 5), entry("new2", false, 2, 5)];
    let target = vec![entry("gone1", false, 1, 1), entry("gone2", false, 1, 1)];
    let mut counters = Counters::new();
    let tasks = plan_tasks(&op(false), &source, &target, &mut counters);
    assert_eq!(tasks.len(), 4);
    assert!(matches!(tasks[0], Task::Copy(_)));
    assert!(matches!(tasks[1], Task::Copy(_)));
    assert!(matches!(tasks[2], Task::Delete(_)));
    assert!(matches!(tasks[3], Task::Delete(_)));
}

#[test]
fn kept_directories_get_their_target_planned() {
    let mut operation = op(false);
    operation.exclude = RuleSet::compile(
        vec!["node_modules".to_string()],
        Vec::new(),
        &Vec::new(),
    )
    .unwrap();
    let source = vec![
        entry("a", true, 0, 0),
        entry("a/node_modules", true, 0, 0),
        entry("a/b", true, 0, 0),
        entry("a/file.txt", false, 1, 1),
    ];
    let dirs = plan_dir_creations(&operation, &source);
    assert_eq!(
        dirs,
        vec!["dst_root/a".to_string(), "dst_root/a/b".to_string()]
    );
}

#[test]
fn pipeline_delivers_the_plan_through_the_channel() {
    let source = vec![entry("n1", false, 1, 5), entry("n2", false, 2, 5)];
    let target = vec![entry("gone", false, 1, 1)];
    let mut counters = Counters::new();
    let out = baccy::channel::run_pipeline(&op(false), &source, &target, &mut counters);
    assert_eq!(copy_relatives(&out), vec!["n1".to_string(), "n2".to_string()]);
    assert_eq!(delete_relatives(&out), vec!["gone".to_string()]);
    assert!(matches!(out[2], Task::Delete(_)));
}

#[test]
fn end_to_end_plan_matches_the_expected_sync() {
    // source: a/, a/b/, a/f1.txt (newer), a/b/f2.txt (unchanged)
    let t1: i64 = 1000;
    let t2: i64 = 2000;
    let source = vec![
        entry("a", true, 0, t1),
        entry("a/b", true, 0, t1),
        entry("a/f1.txt", false, 10, t2),
        entry("a/b/f2.txt", false, 20, t1),
    ];
    // target pre-exists: a/f1.txt (older), a/b/f2.txt (same), a/stale.txt, a/old_dir/
    let target = vec![
        entry("a", true, 0, t1),
        entry("a/b", true, 0, t1),
        entry("a/old_dir", true, 0, t1),
        entry("a/f1.txt", false, 10, t1),
        entry("a/b/f2.txt", false, 20, t1),
        entry("a/stale.txt", false, 5, t1),
    ];
    let mut counters = Counters::new();
    let tasks = plan_tasks(&op(false), &source, &target, &mut counters);
    assert_eq!(copy_relatives(&tasks), vec!["a/f1.txt".to_string()]);
    assert_eq!(delete_relatives(&tasks), vec!["a/stale.txt".to_string()]);

    let source_dirs = vec!["a".to_string(), "a/b".to_string()];
    let target_dirs = vec!["a".to_string(), "a/b".to_string(), "a/old_dir".to_string()];
    let removals = baccy::reconcile::plan_dir_removals(&source_dirs, &target_dirs);
    assert_eq!(removals, vec!["a/old_dir".to_string()]);
}
