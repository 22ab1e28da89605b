use multidown::persist::PersistedTask;
use multidown::scheduler::Scheduler;
use multidown::task::Task;
use multidown::types::{CreateTaskInput, TaskStatus};

fn sample_task() -> Task {
    let mut t = Task::new(
        CreateTaskInput {
            url: "https://example.com/a/archive.zip".to_string(),
            save_dir: "/data".to_string(),
            filename: None,
        },
        true,
        Some(400),
        "task-a".to_string(),
        1_700_000_123,
    );
    t.begin().unwrap();
    t.apply_fetch_success(50);
    t.apply_fetch_failure("boom".to_string());
    t
}

#[test]
fn round_trip_preserves_all_snapshot_fields() {
    let t = sample_task();
    let p = PersistedTask::from_task(&t);
    let t2 = Task::from_persisted(p);
    assert_eq!(t2.id, t.id);
    assert_eq!(t2.url, t.url);
    assert_eq!(t2.save_path, t.save_path);
    assert_eq!(t2.filename, t.filename);
    assert_eq!(t2.total_bytes, t.total_bytes);
    assert_eq!(t2.downloaded, t.downloaded);
    assert_eq!(t2.status, t.status);
    assert_eq!(t2.pending_segments, t.pending_segments);
    assert_eq!(t2.supports_range, t.supports_range);
    assert_eq!(t2.created_at, t.created_at);
}

#[test]
fn snapshot_copies_the_live_values() {
    let t = sample_task();
    let p = PersistedTask::from_task(&t);
    assert_eq!(p.id, "task-a");
    assert_eq!(p.filename, "archive.zip");
    assert_eq!(p.save_path, "/data/archive.zip");
    assert_eq!(p.downloaded_bytes, 50);
    assert_eq!(p.status, TaskStatus::Failed);
    assert_eq!(p.pending_segments.len(), 7);
    assert_eq!(p.pending_segments[0], (50, 99));
    assert!(p.supports_range);
    assert_eq!(p.created_at, 1_700_000_123);
}

fn record(id: &str, status: TaskStatus) -> PersistedTask {
    PersistedTask {
        id: id.to_string(),
        url: "https://example.com/f".to_string(),
        save_path: "/data/f".to_string(),
        filename: "f".to_string(),
        total_bytes: Some(100),
        downloaded_bytes: 40,
        status,
        pending_segments: vec![(40, 99)],
        supports_range: true,
        created_at: 7,
    }
}

#[test]
fn load_normalizes_downloading_to_paused() {
    let s = Scheduler::from_persisted_list(vec![
        record("a", TaskStatus::Downloading),
        record("b", TaskStatus::Completed),
    ]);
    assert_eq!(s.len(), 2);
    let a = s.get_task("a", 0).unwrap();
    assert_eq!(a.status, TaskStatus::Paused);
    let b = s.get_task("b", 0).unwrap();
    assert_eq!(b.status, TaskStatus::Completed);
}

#[test]
fn load_skips_duplicate_identifiers() {
    let mut second = record("a", TaskStatus::Paused);
    second.downloaded_bytes = 99;
    let s = Scheduler::from_persisted_list(vec![record("a", TaskStatus::Pending), second]);
    assert_eq!(s.len(), 1);
    assert_eq!(s.get_task("a", 0).unwrap().downloaded_bytes, 40);
}

#[test]
fn loaded_task_keeps_progress_and_queue() {
    let s = Scheduler::from_persisted_list(vec![record("a", TaskStatus::Paused)]);
    let info = s.get_task("a", 0).unwrap();
    assert_eq!(info.downloaded_bytes, 40);
    assert_eq!(info.total_bytes, Some(100));
    assert_eq!(info.error_message, None);
}
