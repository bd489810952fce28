use slasshyvault::jobs::{DownloadJob, DownloadManager, JobUpdate};

#[test]
fn create_job_returns_snapshot_and_cancel_flag() {
    let mut manager = DownloadManager::new_in_memory();
    let snapshot = manager.create_job(
        1,
        "Test".into(),
        "test.mp4".into(),
        "/tmp/test.mp4".into(),
        1024,
        "gdrive".into(),
    );
    assert_eq!(snapshot.status, "queued");
    assert_eq!(snapshot.downloaded_bytes, 0);
    assert_eq!(snapshot.total_bytes, 1024);
    assert!(snapshot.error.is_none());
}

#[test]
fn create_job_persists_and_list_jobs_returns_it() {
    let mut manager = DownloadManager::new_in_memory();
    manager.create_job(
        1,
        "Movie".into(),
        "movie.mp4".into(),
        "/tmp/movie.mp4".into(),
        2048,
        "local".into(),
    );
    let jobs = manager.list_jobs();
    assert_eq!(jobs.len(), 1);
    assert_eq!(jobs[0].title, "Movie");
    assert_eq!(jobs[0].source_kind, "local");
}

#[test]
fn list_jobs_sorted_by_created_at_desc() {
    let mut manager = DownloadManager::new_in_memory();
    manager.create_job_at(
        "id-first".into(),
        "2025-01-01T00:00:00.010+00:00".into(),
        1,
        "First".into(),
        "a.mp4".into(),
        "/a".into(),
        1,
        "gdrive".into(),
    );
    // a later time stamp, as a second creation a moment later would get
    manager.create_job_at(
        "id-second".into(),
        "2025-01-01T00:00:00.020+00:00".into(),
        2,
        "Second".into(),
        "b.mp4".into(),
        "/b".into(),
        1,
        "gdrive".into(),
    );
    let jobs = manager.list_jobs();
    assert_eq!(jobs.len(), 2);
    assert_eq!(jobs[0].title, "Second");
    assert_eq!(jobs[1].title, "First");
}

#[test]
fn get_job_returns_existing() {
    let mut manager = DownloadManager::new_in_memory();
    let snapshot = manager.create_job(
        1,
        "Find Me".into(),
        "f.mp4".into(),
        "/f".into(),
        100,
        "gdrive".into(),
    );
    let found = manager.get_job(&snapshot.id);
    assert!(found.is_some());
    assert_eq!(found.unwrap().title, "Find Me");
}

#[test]
fn get_job_returns_none_for_missing() {
    let mut manager = DownloadManager::new_in_memory();
    assert!(manager.get_job("nonexistent-id").is_none());
}

#[test]
fn cancel_job_sets_status_to_cancelled() {
    let mut manager = DownloadManager::new_in_memory();
    let snapshot = manager.create_job(
        1,
        "Cancel Me".into(),
        "c.mp4".into(),
        "/c".into(),
        100,
        "gdrive".into(),
    );
    let result = manager.cancel_job(&snapshot.id);
    assert!(result.is_ok());
    assert_eq!(result.unwrap().status, "cancelled");
}

#[test]
fn cancel_job_not_found_returns_error() {
    let mut manager = DownloadManager::new_in_memory();
    let result = manager.cancel_job("nope");
    assert!(result.is_err());
    assert_eq!(result.unwrap_err(), "Download job not found");
}

#[test]
fn cancel_job_already_completed_stays_completed() {
    let mut manager = DownloadManager::new_in_memory();
    let snapshot = manager.create_job(
        1,
        "Done".into(),
        "d.mp4".into(),
        "/d".into(),
        100,
        "gdrive".into(),
    );
    manager.update_job(&snapshot.id, JobUpdate::Status("completed".into()));
    let result = manager.cancel_job(&snapshot.id).unwrap();
    // completed is not in the cancelable set, so status stays
    assert_eq!(result.status, "completed");
}

#[test]
fn delete_job_removes_it() {
    let mut manager = DownloadManager::new_in_memory();
    let snapshot = manager.create_job(
        1,
        "Delete".into(),
        "del.mp4".into(),
        "/del".into(),
        100,
        "gdrive".into(),
    );
    assert!(manager.get_job(&snapshot.id).is_some());
    let result = manager.delete_job(&snapshot.id);
    assert!(result.is_ok());
    assert!(manager.get_job(&snapshot.id).is_none());
}

#[test]
fn delete_job_not_found_returns_error() {
    let mut manager = DownloadManager::new_in_memory();
    let result = manager.delete_job("nonexistent");
    assert!(result.is_err());
    assert_eq!(result.unwrap_err(), "Download job not found");
}

#[test]
fn clear_history_removes_terminal_jobs() {
    let mut manager = DownloadManager::new_in_memory();
    let s1 = manager.create_job(
        1,
        "A".into(),
        "a.mp4".into(),
        "/a".into(),
        1,
        "gdrive".into(),
    );
    let s2 = manager.create_job(
        2,
        "B".into(),
        "b.mp4".into(),
        "/b".into(),
        1,
        "gdrive".into(),
    );
    let s3 = manager.create_job(
        3,
        "C".into(),
        "c.mp4".into(),
        "/c".into(),
        1,
        "gdrive".into(),
    );

    // Mark s1 completed, s2 failed, leave s3 queued
    manager.update_job(&s1.id, JobUpdate::Status("completed".into()));
    manager.update_job(&s2.id, JobUpdate::Status("failed".into()));

    manager.clear_history();

    let remaining = manager.list_jobs();
    assert_eq!(remaining.len(), 1);
    assert_eq!(remaining[0].id, s3.id);
}

#[test]
fn clear_history_keeps_active_jobs() {
    let mut manager = DownloadManager::new_in_memory();
    let s1 = manager.create_job(
        1,
        "Q".into(),
        "q.mp4".into(),
        "/q".into(),
        1,
        "gdrive".into(),
    );
    manager.update_job(&s1.id, JobUpdate::Status("preparing".into()));
    let s2 = manager.create_job(
        2,
        "D".into(),
        "d.mp4".into(),
        "/d".into(),
        1,
        "gdrive".into(),
    );
    manager.update_job(&s2.id, JobUpdate::Status("downloading".into()));

    manager.clear_history();

    let remaining = manager.list_jobs();
    assert_eq!(remaining.len(), 2);
}

#[test]
fn clear_history_empty_manager() {
    let mut manager = DownloadManager::new_in_memory();
    manager.clear_history();
    assert_eq!(manager.list_jobs().len(), 0);
}

#[test]
fn update_job_modifies_snapshot() {
    let mut manager = DownloadManager::new_in_memory();
    let snapshot = manager.create_job(
        1,
        "Update".into(),
        "u.mp4".into(),
        "/u".into(),
        1024,
        "gdrive".into(),
    );
    manager.update_job(&snapshot.id, JobUpdate::Progress(512));
    let updated = manager.update_job(&snapshot.id, JobUpdate::Status("downloading".into()));
    assert!(updated.is_some());
    let updated = updated.unwrap();
    assert_eq!(updated.downloaded_bytes, 512);
    assert_eq!(updated.status, "downloading");
}

#[test]
fn update_job_returns_none_for_missing() {
    let mut manager = DownloadManager::new_in_memory();
    assert!(manager.update_job("nope", JobUpdate::Progress(0)).is_none());
}

#[test]
fn new_in_memory_starts_empty() {
    let manager = DownloadManager::new_in_memory();
    assert_eq!(manager.list_jobs().len(), 0);
}

#[test]
fn clear_history_removes_cancelled_jobs() {
    let mut manager = DownloadManager::new_in_memory();
    let s1 = manager.create_job(
        1,
        "A".into(),
        "a.mp4".into(),
        "/a".into(),
        1,
        "gdrive".into(),
    );
    manager.update_job(&s1.id, JobUpdate::Status("cancelled".into()));
    manager.clear_history();
    assert_eq!(manager.list_jobs().len(), 0);
}

#[test]
fn update_job_returns_updated_snapshot() {
    let mut manager = DownloadManager::new_in_memory();
    let s = manager.create_job(
        1,
        "T".into(),
        "t.mp4".into(),
        "/t".into(),
        100,
        "gdrive".into(),
    );
    manager.update_job(&s.id, JobUpdate::Status("downloading".into()));
    let result = manager.update_job(&s.id, JobUpdate::Progress(50));
    assert!(result.is_some());
    let snap = result.unwrap();
    assert_eq!(snap.status, "downloading");
    assert_eq!(snap.downloaded_bytes, 50);
}

#[test]
fn update_job_sets_error_message() {
    let mut manager = DownloadManager::new_in_memory();
    let s = manager.create_job(
        1,
        "E".into(),
        "e.mp4".into(),
        "/e".into(),
        100,
        "gdrive".into(),
    );
    manager.update_job(&s.id, JobUpdate::Fail("connection timeout".into()));
    let fetched = manager.get_job(&s.id).unwrap();
    assert_eq!(fetched.status, "failed");
    assert_eq!(fetched.error.unwrap(), "connection timeout");
}

#[test]
fn update_job_persists_across_get() {
    let mut manager = DownloadManager::new_in_memory();
    let s = manager.create_job(
        1,
        "P".into(),
        "p.mp4".into(),
        "/p".into(),
        200,
        "gdrive".into(),
    );
    manager.update_job(&s.id, JobUpdate::Progress(100));
    let fetched = manager.get_job(&s.id).unwrap();
    assert_eq!(fetched.downloaded_bytes, 100);
}

#[test]
fn cancel_job_from_preparing_state() {
    let mut manager = DownloadManager::new_in_memory();
    let s = manager.create_job(
        1,
        "P".into(),
        "p.mp4".into(),
        "/p".into(),
        100,
        "gdrive".into(),
    );
    manager.update_job(&s.id, JobUpdate::Status("preparing".into()));
    let result = manager.cancel_job(&s.id).unwrap();
    assert_eq!(result.status, "cancelled");
}

#[test]
fn cancel_job_from_downloading_state() {
    let mut manager = DownloadManager::new_in_memory();
    let s = manager.create_job(
        1,
        "D".into(),
        "d.mp4".into(),
        "/d".into(),
        100,
        "gdrive".into(),
    );
    manager.update_job(&s.id, JobUpdate::Status("downloading".into()));
    let result = manager.cancel_job(&s.id).unwrap();
    assert_eq!(result.status, "cancelled");
}

#[test]
fn state_transition_queued_to_preparing() {
    let mut manager = DownloadManager::new_in_memory();
    let s = manager.create_job(
        1,
        "T".into(),
        "t.mp4".into(),
        "/t".into(),
        100,
        "gdrive".into(),
    );
    assert_eq!(s.status, "queued");
    manager.update_job(&s.id, JobUpdate::Status("preparing".into()));
    assert_eq!(manager.get_job(&s.id).unwrap().status, "preparing");
}

#[test]
fn state_transition_preparing_to_downloading() {
    let mut manager = DownloadManager::new_in_memory();
    let s = manager.create_job(
        1,
        "T".into(),
        "t.mp4".into(),
        "/t".into(),
        100,
        "gdrive".into(),
    );
    manager.update_job(&s.id, JobUpdate::Status("preparing".into()));
    manager.update_job(&s.id, JobUpdate::Status("downloading".into()));
    assert_eq!(manager.get_job(&s.id).unwrap().status, "downloading");
}

#[test]
fn state_transition_downloading_to_completed() {
    let mut manager = DownloadManager::new_in_memory();
    let s = manager.create_job(
        1,
        "T".into(),
        "t.mp4".into(),
        "/t".into(),
        100,
        "gdrive".into(),
    );
    manager.update_job(&s.id, JobUpdate::Status("downloading".into()));
    manager.update_job(&s.id, JobUpdate::Complete);
    let fetched = manager.get_job(&s.id).unwrap();
    assert_eq!(fetched.status, "completed");
    assert_eq!(fetched.downloaded_bytes, 100);
    assert!(fetched.target_exists);
}

#[test]
fn state_transition_downloading_to_failed() {
    let mut manager = DownloadManager::new_in_memory();
    let s = manager.create_job(
        1,
        "T".into(),
        "t.mp4".into(),
        "/t".into(),
        100,
        "gdrive".into(),
    );
    manager.update_job(&s.id, JobUpdate::Status("downloading".into()));
    manager.update_job(&s.id, JobUpdate::Fail("network error".into()));
    let fetched = manager.get_job(&s.id).unwrap();
    assert_eq!(fetched.status, "failed");
    assert_eq!(fetched.error.unwrap(), "network error");
}

#[test]
fn multiple_jobs_independent_state() {
    let mut manager = DownloadManager::new_in_memory();
    let s1 = manager.create_job(
        1,
        "A".into(),
        "a.mp4".into(),
        "/a".into(),
        100,
        "gdrive".into(),
    );
    let s2 = manager.create_job(
        2,
        "B".into(),
        "b.mp4".into(),
        "/b".into(),
        200,
        "local".into(),
    );
    manager.update_job(&s1.id, JobUpdate::Status("completed".into()));
    // s2 should still be queued
    assert_eq!(manager.get_job(&s1.id).unwrap().status, "completed");
    assert_eq!(manager.get_job(&s2.id).unwrap().status, "queued");
}

#[test]
fn delete_job_does_not_affect_others() {
    let mut manager = DownloadManager::new_in_memory();
    let s1 = manager.create_job(
        1,
        "A".into(),
        "a.mp4".into(),
        "/a".into(),
        100,
        "gdrive".into(),
    );
    let s2 = manager.create_job(
        2,
        "B".into(),
        "b.mp4".into(),
        "/b".into(),
        200,
        "local".into(),
    );
    manager.delete_job(&s1.id).unwrap();
    assert!(manager.get_job(&s1.id).is_none());
    assert!(manager.get_job(&s2.id).is_some());
}

fn stored(id: &str, status: &str, updated_at: &str) -> DownloadJob {
    DownloadJob {
        id: id.into(),
        media_id: 1,
        title: "T".into(),
        file_name: "t.mp4".into(),
        target_path: "/t.mp4".into(),
        status: status.into(),
        downloaded_bytes: 10,
        total_bytes: 100,
        created_at: updated_at.into(),
        updated_at: updated_at.into(),
        error: None,
        source_kind: "gdrive".into(),
        source_exists: true,
        target_exists: false,
    }
}

#[test]
fn restore_marks_interrupted_jobs_failed() {
    let manager = DownloadManager::restore(vec![
        stored("a", "downloading", "2025-01-01T00:00:00Z"),
        stored("b", "completed", "2025-01-01T00:00:00Z"),
        stored("c", "queued", "2025-01-01T00:00:00Z"),
    ]);
    let a = manager.get_job("a").unwrap();
    assert_eq!(a.status, "failed");
    assert_eq!(
        a.error.as_deref(),
        Some("Download was interrupted because the app was closed or refreshed.")
    );
    assert_eq!(manager.get_job("b").unwrap().status, "completed");
    assert!(manager.get_job("b").unwrap().error.is_none());
    assert_eq!(manager.get_job("c").unwrap().status, "failed");
}

#[test]
fn restore_keeps_the_later_of_two_jobs_with_one_id() {
    let mut second = stored("a", "completed", "2025-01-02T00:00:00Z");
    second.title = "Second".into();
    let manager = DownloadManager::restore(vec![stored("a", "failed", "2025-01-01T00:00:00Z"), second]);
    assert_eq!(manager.snapshots().len(), 1);
    assert_eq!(manager.get_job("a").unwrap().title, "Second");
}

#[test]
fn cleanup_forgets_finished_jobs_a_week_old() {
    let mut manager = DownloadManager::restore(vec![
        stored("old-done", "completed", "2025-01-01T00:00:00Z"),
        stored("new-done", "completed", "2025-01-07T00:00:01Z"),
        stored("old-failed", "failed", "2024-12-01T00:00:00Z"),
        stored("unreadable", "cancelled", "not a date"),
    ]);
    let removed = manager.cleanup_terminal_jobs_at("2025-01-08T00:00:00Z");
    assert_eq!(removed, 2);
    assert!(manager.get_job("old-done").is_none());
    assert!(manager.get_job("old-failed").is_none());
    assert!(manager.get_job("new-done").is_some());
    assert!(manager.get_job("unreadable").is_some());
}

#[test]
fn cleanup_keeps_active_jobs_however_old() {
    let mut manager = DownloadManager::new_in_memory();
    manager.create_job_at(
        "x".into(),
        "2020-01-01T00:00:00Z".into(),
        1,
        "X".into(),
        "x.mp4".into(),
        "/x".into(),
        1,
        "gdrive".into(),
    );
    assert_eq!(manager.cleanup_terminal_jobs_at("2025-01-08T00:00:00Z"), 0);
    assert_eq!(manager.get_job("x").unwrap().status, "queued");
}

#[test]
fn cancel_twice_is_cancel_once() {
    let mut manager = DownloadManager::new_in_memory();
    manager.create_job_at(
        "x".into(),
        "2025-01-01T00:00:00Z".into(),
        1,
        "X".into(),
        "x.mp4".into(),
        "/x".into(),
        1,
        "gdrive".into(),
    );
    let first = manager.cancel_job_at("x", "2025-01-01T00:01:00Z".into()).unwrap();
    let second = manager.cancel_job_at("x", "2025-01-01T00:02:00Z".into()).unwrap();
    assert_eq!(first.status, "cancelled");
    assert_eq!(second.status, "cancelled");
    assert_eq!(second.updated_at, "2025-01-01T00:01:00Z");
}

#[test]
fn create_at_an_existing_id_replaces_the_job() {
    let mut manager = DownloadManager::new_in_memory();
    manager.create_job_at("x".into(), "t1".into(), 1, "Old".into(), "o".into(), "/o".into(), 1, "k".into());
    manager.create_job_at("y".into(), "t2".into(), 2, "Other".into(), "y".into(), "/y".into(), 1, "k".into());
    manager.create_job_at("x".into(), "t3".into(), 3, "New".into(), "n".into(), "/n".into(), 1, "k".into());
    assert_eq!(manager.snapshots().len(), 2);
    assert_eq!(manager.get_job("x").unwrap().title, "New");
    assert_eq!(manager.get_job("y").unwrap().title, "Other");
}

#[test]
fn list_is_newest_first_with_every_job() {
    let mut manager = DownloadManager::new_in_memory();
    for (id, t) in [("a", "2025-01-02"), ("b", "2025-01-03"), ("c", "2025-01-01"), ("d", "2025-01-03")] {
        manager.create_job_at(id.into(), t.into(), 1, id.into(), "f".into(), "/f".into(), 1, "k".into());
    }
    let list = manager.list_jobs();
    let times: Vec<&str> = list.iter().map(|j| j.created_at.as_str()).collect();
    assert_eq!(times, vec!["2025-01-03", "2025-01-03", "2025-01-02", "2025-01-01"]);
    let mut ids: Vec<&str> = list.iter().map(|j| j.id.as_str()).collect();
    ids.sort();
    assert_eq!(ids, vec!["a", "b", "c", "d"]);
}

#[test]
fn fresh_jobs_get_distinct_ids() {
    let mut manager = DownloadManager::new_in_memory();
    let a = manager.create_job(1, "A".into(), "a".into(), "/a".into(), 1, "k".into());
    let b = manager.create_job(2, "B".into(), "b".into(), "/b".into(), 1, "k".into());
    assert_ne!(a.id, b.id);
    assert_eq!(a.created_at, a.updated_at);
    assert_eq!(manager.list_jobs().len(), 2);
}

#[test]
fn jobs_get_a_uuid_and_readable_time_stamps() {
    let mut manager = DownloadManager::new_in_memory();
    let job = manager.create_job(1, "T".into(), "t.mp4".into(), "/tmp/t.mp4".into(), 10, "local".into());
    assert_eq!(job.id.len(), 36);
    assert_eq!(job.id.chars().nth(14), Some('4'));
    assert!(chrono::DateTime::parse_from_rfc3339(&job.created_at).is_ok());
    assert_eq!(job.created_at, job.updated_at);
    let cancelled = manager.cancel_job(&job.id).unwrap();
    assert_eq!(cancelled.status, "cancelled");
    assert!(chrono::DateTime::parse_from_rfc3339(&cancelled.updated_at).is_ok());
    let updated = manager.update_job(&job.id, JobUpdate::Progress(5)).unwrap();
    assert!(chrono::DateTime::parse_from_rfc3339(&updated.updated_at).is_ok());
}
