use baccy::channel::pump_through_channel;
use baccy::counters::Counters;
use baccy::tasks::{Delete, Task};
use baccy::worker::{next_chunk_len, use_streamed_copy, WorkerState, COPY_CHUNK_BYTES};

fn copy_task(rel: &str, bytes: u64) -> Task {
    Task::Copy(baccy::tasks::Copy::new(
        format!("s/{}", rel),
        format!("t/{}", rel),
        rel.to_string(),
        bytes,
    ))
}

fn delete_task(rel: &str) -> Task {
    Task::Delete(Delete::new(format!("t/{}", rel), rel.to_string()))
}

#[test]
fn channel_delivers_tasks_in_order_under_backpressure() {
    let tasks = vec![
        copy_task("a", 1),
        copy_task("b", 2),
        copy_task("c", 3),
        delete_task("x"),
        delete_task("y"),
    ];
    // capacity 2 forces draining while feeding
    let out = pump_through_channel(tasks.clone(), 2);
    assert_eq!(out, tasks);
}

#[test]
fn channel_is_fifo_without_backpressure_too() {
    let tasks = vec![copy_task("one", 1), delete_task("two")];
    let out = pump_through_channel(tasks, 10);
    assert_eq!(out[0].relative().as_str(), "one");
    assert_eq!(out[1].relative().as_str(), "two");
}

#[test]
fn every_copy_is_observed_before_the_first_delete() {
    let tasks = vec![
        copy_task("a", 1),
        copy_task("b", 2),
        delete_task("x"),
        delete_task("y"),
    ];
    let out = pump_through_channel(tasks, 2);
    let mut state = WorkerState::new();
    for task in &out {
        if matches!(task, Task::Copy(_)) {
            // the mode switch has not happened yet when a copy arrives
            assert!(!state.is_delete_step);
        }
        state.observe(task, true);
    }
    assert!(state.is_delete_step);
    assert_eq!(state.deleted_count, 2);
    assert_eq!(state.failed_count, 0);
}

#[test]
fn delete_mode_switches_once_and_stays() {
    let mut state = WorkerState::new();
    assert!(!state.is_delete_step);
    state.observe(&copy_task("a", 1), true);
    assert!(!state.is_delete_step);
    state.observe(&delete_task("x"), true);
    assert!(state.is_delete_step);
    state.observe(&delete_task("y"), false);
    assert!(state.is_delete_step);
    // a failed delete still counts as processed
    assert_eq!(state.deleted_count, 2);
    assert_eq!(state.failed_count, 0);
}

#[test]
fn failed_copies_are_counted_and_do_not_stop_the_run() {
    let mut state = WorkerState::new();
    state.observe(&copy_task("a", 1), false);
    state.observe(&copy_task("b", 1), true);
    state.observe(&copy_task("c", 1), false);
    assert_eq!(state.failed_count, 2);
    assert!(!state.is_delete_step);
}

#[test]
fn chunks_cover_the_file_exactly() {
    let total: u64 = 10 * 1024 * 1024;
    let mut copied: u64 = 0;
    let mut chunks = Vec::new();
    loop {
        let n = next_chunk_len(total, copied);
        if n == 0 {
            break;
        }
        chunks.push(n);
        copied += n;
    }
    assert_eq!(copied, total);
    assert_eq!(
        chunks,
        vec![COPY_CHUNK_BYTES, COPY_CHUNK_BYTES, 2 * 1024 * 1024]
    );
    assert_eq!(next_chunk_len(0, 0), 0);
    assert_eq!(next_chunk_len(5, 5), 0);
    assert_eq!(next_chunk_len(5, 0), 5);
}

#[test]
fn whole_file_copy_is_used_up_to_the_threshold() {
    assert!(!use_streamed_copy(0));
    assert!(!use_streamed_copy(50 * 1024 * 1024));
    assert!(use_streamed_copy(50 * 1024 * 1024 + 1));
}

#[test]
fn counters_increment_monotonically() {
    let mut c = Counters::new();
    assert_eq!(c.files_scanned, 0);
    c.count_scanned();
    c.count_scanned();
    c.count_pending_copy(100);
    c.count_pending_delete();
    c.count_copied_bytes(60);
    c.count_copied_file();
    c.count_deleted_file();
    assert_eq!(c.files_scanned, 2);
    assert_eq!(c.bytes_pending_copy, 100);
    assert_eq!(c.files_pending_delete, 1);
    assert_eq!(c.bytes_copied, 60);
    assert_eq!(c.files_copied, 1);
    assert_eq!(c.files_deleted, 1);
}

#[test]
fn counter_increments_saturate_instead_of_wrapping() {
    let mut c = Counters::new();
    c.count_pending_copy(u64::MAX);
    c.count_pending_copy(10);
    assert_eq!(c.bytes_pending_copy, u64::MAX);
}
