use multidown::persist::PersistedTask;
use multidown::scheduler::Scheduler;
use multidown::task::worker_count;
use multidown::types::{CreateTaskInput, TaskStatus, TaskError};

fn input(url: &str) -> CreateTaskInput {
    CreateTaskInput { url: url.to_string(), save_dir: "/dl".to_string(), filename: None }
}

fn sched_with(id: &str, total: Option<u64>, supports_range: bool) -> Scheduler {
    let mut s = Scheduler::new();
    s.create_task_with_id(input("https://e.com/file.bin"), supports_range, total, id.to_string(), 1)
        .unwrap();
    s
}

#[test]
fn create_assigns_fresh_ids() {
    let mut s = Scheduler::new();
    let id1 = s.create_task(input("https://e.com/a"), true, Some(10), 0).unwrap();
    let id2 = s.create_task(input("https://e.com/b"), true, Some(10), 0).unwrap();
    assert_eq!(id1.len(), 36);
    assert_eq!(id2.len(), 36);
    assert_ne!(id1, id2);
    assert_eq!(s.len(), 2);
}

#[test]
fn duplicate_id_is_refused() {
    let mut s = sched_with("t", Some(10), true);
    let r = s.create_task_with_id(input("https://e.com/x"), true, None, "t".to_string(), 2);
    assert_eq!(r, Err(TaskError::DuplicateId));
    assert_eq!(s.len(), 1);
}

#[test]
fn start_twice_is_a_state_error_without_extra_workers() {
    let mut s = sched_with("t", Some(100_000), true);
    assert_eq!(s.start_download("t"), Ok(()));
    let info = s.get_task("t", 0).unwrap();
    assert_eq!(info.status, TaskStatus::Downloading);
    // A second start is refused and the map is untouched, so no second
    // worker pool is ever spawned for the task.
    assert_eq!(s.start_download("t"), Err(TaskError::InvalidState));
    assert_eq!(s.get_task("t", 0).unwrap().status, TaskStatus::Downloading);
    assert_eq!(worker_count(true, Some(4)), 4);
}

#[test]
fn unknown_ids_are_not_found() {
    let mut s = Scheduler::new();
    assert_eq!(s.start_download("nope"), Err(TaskError::NotFound));
    assert_eq!(s.pause_task("nope"), Err(TaskError::NotFound));
    assert_eq!(s.cancel_task("nope"), Err(TaskError::NotFound));
    assert_eq!(s.remove_task("nope"), Err(TaskError::NotFound));
    assert!(s.get_task("nope", 0).is_none());
}

#[test]
fn pause_and_resume_cycle() {
    let mut s = sched_with("t", Some(1_048_576), true);
    s.start_download("t").unwrap();
    assert_eq!(s.pause_task("t"), Ok(()));
    assert_eq!(s.get_task("t", 0).unwrap().status, TaskStatus::Paused);
    // Pausing an already paused task succeeds and changes nothing.
    assert_eq!(s.pause_task("t"), Ok(()));
    assert_eq!(s.get_task("t", 0).unwrap().status, TaskStatus::Paused);
    assert_eq!(s.resume_task("t"), Ok(()));
    assert_eq!(s.get_task("t", 0).unwrap().status, TaskStatus::Downloading);
}

#[test]
fn pause_leaves_pending_work_intact() {
    let mut s = sched_with("t", Some(1_048_576), true);
    s.start_download("t").unwrap();
    {
        let t = s.task_at_index_mut(0);
        let (a, b) = t.next_pending().unwrap();
        t.apply_fetch_success(b - a + 1);
    }
    s.pause_task("t").unwrap();
    let t = s.task_at_index(0);
    assert_eq!(t.pending_segments.len(), 7);
    assert_eq!(t.downloaded, 131_072);
    assert!(t.is_well_formed());
}

#[test]
fn cancel_and_remove() {
    let mut s = sched_with("t", Some(10), true);
    assert_eq!(s.cancel_task("t"), Ok(()));
    assert_eq!(s.get_task("t", 0).unwrap().status, TaskStatus::Cancelled);
    assert_eq!(s.remove_task("t"), Ok(()));
    assert_eq!(s.len(), 0);
    assert_eq!(s.remove_task("t"), Err(TaskError::NotFound));
}

#[test]
fn clear_completed_removes_only_completed() {
    let mut s = Scheduler::new();
    for (i, done) in [(0u32, true), (1, false), (2, true), (3, false)] {
        let id = format!("t{}", i);
        s.create_task_with_id(input("https://e.com/f"), true, Some(8), id.clone(), 0).unwrap();
        if done {
            s.start_download(&id).unwrap();
            let idx = (s.len() - 1) as usize;
            let t = s.task_at_index_mut(idx);
            while let Some((a, b)) = t.next_pending() {
                t.apply_fetch_success(b - a + 1);
            }
            t.finish_run();
        }
    }
    assert_eq!(s.clear_completed_tasks(), 2);
    assert_eq!(s.len(), 2);
    assert!(s.get_task("t1", 0).is_some());
    assert!(s.get_task("t3", 0).is_some());
    assert_eq!(s.clear_completed_tasks(), 0);
}

#[test]
fn list_reports_every_task() {
    let mut s = Scheduler::new();
    s.create_task_with_id(input("https://e.com/a"), true, Some(10), "a".to_string(), 0).unwrap();
    s.create_task_with_id(input("https://e.com/b"), false, None, "b".to_string(), 0).unwrap();
    let infos = s.list_downloads(0);
    assert_eq!(infos.len(), 2);
    assert_eq!(infos[0].id, "a");
    assert_eq!(infos[1].id, "b");
    assert_eq!(infos[0].total_bytes, Some(10));
    assert_eq!(infos[1].total_bytes, None);
    assert_eq!(infos[0].status, TaskStatus::Pending);
}

#[test]
fn url_and_save_path_updates() {
    let mut s = sched_with("t", Some(10), true);
    s.refresh_task_url("t", "https://mirror.example.com/file.bin".to_string()).unwrap();
    assert_eq!(s.get_task("t", 0).unwrap().url, "https://mirror.example.com/file.bin");
    s.update_task_save_path("t", "/elsewhere/file.bin".to_string()).unwrap();
    assert_eq!(s.get_task("t", 0).unwrap().save_path, "/elsewhere/file.bin");
}

#[test]
fn any_downloading_drives_the_snapshot() {
    let mut s = sched_with("t", Some(10), true);
    assert!(!s.any_downloading());
    s.start_download("t").unwrap();
    assert!(s.any_downloading());
    s.pause_task("t").unwrap();
    assert!(!s.any_downloading());
}

#[test]
fn crash_resume_continues_with_remaining_ranges() {
    // Transfer 2 of 4 segments, snapshot, reload, finish the rest.
    let mut s = Scheduler::new();
    s.create_task_with_id(input("https://e.com/big"), true, None, "t".to_string(), 0).unwrap();
    // Shape the queue as four segments of 25,000 bytes each.
    {
        let t = s.task_at_index_mut(0);
        t.total_bytes = Some(100_000);
        t.pending_segments = multidown::types::static_segments(100_000, 4);
        assert!(t.is_well_formed());
    }
    s.start_download("t").unwrap();
    {
        let t = s.task_at_index_mut(0);
        t.apply_fetch_success(25_000);
        t.apply_fetch_success(25_000);
    }
    let snapshot: Vec<PersistedTask> = s.to_persisted();
    assert_eq!(snapshot[0].pending_segments, vec![(50_000, 74_999), (75_000, 99_999)]);
    assert_eq!(snapshot[0].downloaded_bytes, 50_000);
    assert_eq!(snapshot[0].status, TaskStatus::Downloading);

    // Simulated restart: reload from the snapshot.
    let mut s2 = Scheduler::from_persisted_list(snapshot);
    let loaded = s2.get_task("t", 0).unwrap();
    assert_eq!(loaded.status, TaskStatus::Paused);
    assert_eq!(loaded.downloaded_bytes, 50_000);
    s2.start_download("t").unwrap();
    {
        let t = s2.task_at_index_mut(0);
        assert_eq!(t.next_pending(), Some((50_000, 74_999)));
        t.apply_fetch_success(25_000);
        assert_eq!(t.next_pending(), Some((75_000, 99_999)));
        t.apply_fetch_success(25_000);
        assert!(t.finish_run());
        assert_eq!(t.downloaded, 100_000);
    }
    assert_eq!(s2.get_task("t", 0).unwrap().status, TaskStatus::Completed);
}

#[test]
fn failed_run_snapshots_with_the_range_still_pending() {
    let mut s = sched_with("t", Some(100_000), true);
    {
        let t = s.task_at_index_mut(0);
        t.pending_segments = multidown::types::static_segments(100_000, 4);
        assert!(t.is_well_formed());
    }
    s.start_download("t").unwrap();
    {
        let t = s.task_at_index_mut(0);
        t.apply_fetch_success(25_000);
        // The second range answers with a server error.
        t.apply_fetch_failure("range request failed: status 500".to_string());
    }
    let info = s.get_task("t", 0).unwrap();
    assert_eq!(info.status, TaskStatus::Failed);
    assert!(info.error_message.as_deref().unwrap().len() > 0);
    let snap = s.to_persisted();
    assert_eq!(snap[0].status, TaskStatus::Failed);
    assert_eq!(snap[0].pending_segments[0], (25_000, 49_999));
    assert_eq!(snap[0].pending_segments.len(), 3);
}

#[test]
fn no_range_task_runs_single_worker_to_completion() {
    let mut s = sched_with("t", Some(1024), false);
    assert_eq!(worker_count(false, Some(8)), 1);
    s.start_download("t").unwrap();
    {
        let t = s.task_at_index_mut(0);
        assert_eq!(t.pending_segments, vec![(0, 1023)]);
        t.apply_fetch_success(1024);
        assert!(t.finish_run());
    }
    let info = s.get_task("t", 0).unwrap();
    assert_eq!(info.status, TaskStatus::Completed);
    assert_eq!(info.downloaded_bytes, 1024);
}
