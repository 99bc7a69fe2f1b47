use hibiscus_core::manager::{
    add_download, build_download_path, delete_download, finish_download, get_all_downloads,
    get_downloads_by_status, get_local_video_path, handle_progress, pause_all_downloads,
    pause_download, resume_all_downloads, resume_download, resume_queued_downloads,
};
use hibiscus_core::store::StoreState;
use hibiscus_core::task::{DownloadStatus, SnapshotStatus};
use hibiscus_core::topic::ProgressTopic;

fn fresh_store() -> StoreState {
    StoreState::new(String::from("/data"))
}

#[test]
fn add_task_example_starts_downloading() {
    let mut store = fresh_store();
    let (task, req) = add_download(
        &mut store,
        "v1",
        "T",
        "c.jpg",
        "1080P",
        "https://x/v1.mp4",
        1000,
    );
    assert!(matches!(task.status, SnapshotStatus::Downloading));
    let req = req.unwrap();
    assert!(req.save_path.ends_with("v1_1080P.mp4"));
    assert_eq!(req.save_path, "/data/downloads/v1_1080P.mp4");
    assert_eq!(req.url, "https://x/v1.mp4");
    let rec = store.get_download_by_video_id("v1").unwrap();
    assert!(matches!(rec.status, DownloadStatus::Downloading));
    assert_eq!(rec.save_path.as_deref(), Some("/data/downloads/v1_1080P.mp4"));
}

#[test]
fn add_task_twice_keeps_one_record() {
    let mut store = fresh_store();
    let _ = add_download(&mut store, "v1", "T", "c.jpg", "1080P", "https://x/v1.mp4", 1000);
    let (task, req) = add_download(&mut store, "v1", "T", "c.jpg", "1080P", "https://x/v1.mp4", 2000);
    assert_eq!(store.get_downloads().len(), 1);
    // the second call returns the existing record and starts no second
    // transfer while the task is already Downloading
    assert!(matches!(task.status, SnapshotStatus::Downloading));
    assert!(req.is_none());
}

#[test]
fn download_path_derivation() {
    assert_eq!(
        build_download_path("/data", "v9", "720 P", "https://x/v9.m3u8?tok=1"),
        "/data/downloads/v9_720P.m3u8"
    );
    assert_eq!(
        build_download_path("/data", "v9", "1080P", "https://x/v9.mp4"),
        "/data/downloads/v9_1080P.mp4"
    );
}

#[test]
fn pause_all_example() {
    let mut store = fresh_store();
    let _ = add_download(&mut store, "a", "A", "a.jpg", "1080P", "https://x/a.mp4", 1);
    let _ = add_download(&mut store, "b", "B", "b.jpg", "1080P", "https://x/b.mp4", 2);
    let _ = add_download(&mut store, "c", "C", "c.jpg", "1080P", "https://x/c.mp4", 3);
    // statuses {Downloading, Paused, Completed}
    pause_download(&mut store, "b", 10);
    store.update_download_status("c", DownloadStatus::Completed, None, 11);
    pause_all_downloads(&mut store, 20);
    let a = store.get_download_by_video_id("a").unwrap();
    let b = store.get_download_by_video_id("b").unwrap();
    let c = store.get_download_by_video_id("c").unwrap();
    assert!(matches!(a.status, DownloadStatus::Paused));
    assert!(matches!(b.status, DownloadStatus::Paused));
    assert!(matches!(c.status, DownloadStatus::Completed));
}

#[test]
fn pause_all_then_resume_all_restores_downloading() {
    let mut store = fresh_store();
    let _ = add_download(&mut store, "a", "A", "a.jpg", "1080P", "https://x/a.mp4", 1);
    let _ = add_download(&mut store, "b", "B", "b.jpg", "1080P", "https://x/b.mp4", 2);
    store.update_download_status("b", DownloadStatus::Queued, None, 3);
    pause_all_downloads(&mut store, 10);
    let reqs = resume_all_downloads(&mut store, 20);
    let a = store.get_download_by_video_id("a").unwrap();
    let b = store.get_download_by_video_id("b").unwrap();
    assert!(matches!(a.status, DownloadStatus::Downloading));
    assert!(matches!(b.status, DownloadStatus::Downloading));
    // both had save paths, so both transfers restart
    assert_eq!(reqs.len(), 2);
}

#[test]
fn restart_sweep_recovers_downloading_task() {
    let mut store = fresh_store();
    let _ = add_download(&mut store, "v1", "T", "c.jpg", "1080P", "https://x/v1.mp4", 1000);
    // the process stops with the task still Downloading; on startup the
    // demotion and the sweep run
    store.reset_running_downloads();
    let rec = store.get_download_by_video_id("v1").unwrap();
    assert!(matches!(rec.status, DownloadStatus::Queued));
    let reqs = resume_queued_downloads(&mut store, 2000);
    let rec = store.get_download_by_video_id("v1").unwrap();
    assert!(matches!(rec.status, DownloadStatus::Downloading));
    let path = rec.save_path.unwrap();
    assert!(!path.is_empty());
    assert_eq!(reqs.len(), 1);
    assert_eq!(reqs[0].save_path, path);
}

#[test]
fn sweep_computes_missing_save_path() {
    let mut store = fresh_store();
    store.add_download("q1", "T", "c.jpg", "https://x/q1.mp4", "720P", 5);
    let reqs = resume_queued_downloads(&mut store, 6);
    assert_eq!(reqs.len(), 1);
    assert_eq!(reqs[0].save_path, "/data/downloads/q1_720P.mp4");
    let rec = store.get_download_by_video_id("q1").unwrap();
    assert_eq!(rec.save_path.as_deref(), Some("/data/downloads/q1_720P.mp4"));
    assert!(matches!(rec.status, DownloadStatus::Downloading));
}

#[test]
fn delete_with_file_reports_path_to_remove() {
    let mut store = fresh_store();
    let _ = add_download(&mut store, "v1", "T", "c.jpg", "1080P", "https://x/v1.mp4", 1000);
    let path = delete_download(&mut store, "v1", true);
    assert_eq!(path.as_deref(), Some("/data/downloads/v1_1080P.mp4"));
    assert!(store.get_download_by_video_id("v1").is_none());
    assert_eq!(store.get_downloads().len(), 0);
}

#[test]
fn delete_without_file_leaves_file_alone() {
    let mut store = fresh_store();
    let _ = add_download(&mut store, "v1", "T", "c.jpg", "1080P", "https://x/v1.mp4", 1000);
    let path = delete_download(&mut store, "v1", false);
    assert!(path.is_none());
    assert!(store.get_download_by_video_id("v1").is_none());
}

#[test]
fn resume_restarts_on_recorded_path() {
    let mut store = fresh_store();
    let _ = add_download(&mut store, "v1", "T", "c.jpg", "1080P", "https://x/v1.mp4", 1000);
    pause_download(&mut store, "v1", 1500);
    let req = resume_download(&mut store, "v1", 2000).unwrap();
    assert_eq!(req.video_id, "v1");
    assert_eq!(req.save_path, "/data/downloads/v1_1080P.mp4");
    let rec = store.get_download_by_video_id("v1").unwrap();
    assert!(matches!(rec.status, DownloadStatus::Downloading));
    // resuming an unknown id restarts nothing
    assert!(resume_download(&mut store, "nope", 2001).is_none());
}

#[test]
fn progress_pipeline_publishes_snapshots() {
    let mut store = fresh_store();
    let mut topic = ProgressTopic::new(100);
    let _ = add_download(&mut store, "v1", "T", "c.jpg", "1080P", "https://x/v1.mp4", 1000);
    let mut sub = topic.subscribe();
    handle_progress(&mut store, &mut topic, "v1", 50, 200);
    let snap = topic.poll(&mut sub).unwrap();
    assert_eq!(snap.downloaded_bytes, 50);
    assert_eq!(snap.total_bytes, 200);
    assert!(matches!(snap.status, SnapshotStatus::Downloading));
    assert_eq!(snap.progress_permille(), 250);
    assert!(topic.poll(&mut sub).is_none());
}

#[test]
fn completion_sets_time_and_aligns_bytes() {
    let mut store = fresh_store();
    let mut topic = ProgressTopic::new(100);
    let _ = add_download(&mut store, "v1", "T", "c.jpg", "1080P", "https://x/v1.mp4", 1000);
    handle_progress(&mut store, &mut topic, "v1", 150, 200);
    finish_download(&mut store, &mut topic, "v1", None, 3000);
    let rec = store.get_download_by_video_id("v1").unwrap();
    assert!(matches!(rec.status, DownloadStatus::Completed));
    assert_eq!(rec.completed_at, Some(3000));
    assert_eq!(rec.downloaded_bytes, 200);
    assert_eq!(rec.total_bytes, 200);
}

#[test]
fn failure_keeps_error_text() {
    let mut store = fresh_store();
    let mut topic = ProgressTopic::new(100);
    let _ = add_download(&mut store, "v1", "T", "c.jpg", "1080P", "https://x/v1.mp4", 1000);
    finish_download(&mut store, &mut topic, "v1", Some("connection reset"), 3000);
    let rec = store.get_download_by_video_id("v1").unwrap();
    assert!(matches!(rec.status, DownloadStatus::Failed));
    assert_eq!(rec.error_message.as_deref(), Some("connection reset"));
    assert_eq!(rec.completed_at, None);
    let snaps = get_all_downloads(&store);
    assert_eq!(snaps.len(), 1);
    match &snaps[0].status {
        SnapshotStatus::Failed(e) => assert_eq!(e, "connection reset"),
        other => panic!("expected a failed snapshot, got {:?}", other),
    }
}

#[test]
fn listings_come_newest_first() {
    let mut store = fresh_store();
    let _ = add_download(&mut store, "old", "O", "o.jpg", "1080P", "https://x/o.mp4", 10);
    let _ = add_download(&mut store, "new", "N", "n.jpg", "1080P", "https://x/n.mp4", 30);
    let _ = add_download(&mut store, "mid", "M", "m.jpg", "1080P", "https://x/m.mp4", 20);
    let all = get_all_downloads(&store);
    assert_eq!(all.len(), 3);
    assert_eq!(all[0].video_id, "new");
    assert_eq!(all[1].video_id, "mid");
    assert_eq!(all[2].video_id, "old");
    let records = store.get_downloads();
    assert_eq!(records[0].created_at, 30);
    assert_eq!(records[1].created_at, 20);
    assert_eq!(records[2].created_at, 10);
    let filtered = get_downloads_by_status(&store, "downloading");
    assert_eq!(filtered.len(), 3);
    assert_eq!(filtered[0].video_id, "new");
    assert_eq!(filtered[2].video_id, "old");
}

#[test]
fn listing_keeps_store_order_for_equal_times() {
    let mut store = fresh_store();
    let _ = add_download(&mut store, "first", "F", "f.jpg", "1080P", "https://x/f.mp4", 10);
    let _ = add_download(&mut store, "second", "S", "s.jpg", "1080P", "https://x/s.mp4", 10);
    let all = get_all_downloads(&store);
    assert_eq!(all.len(), 2);
    assert_eq!(all[0].video_id, "first");
    assert_eq!(all[1].video_id, "second");
}

#[test]
fn status_filter_uses_ui_keys() {
    let mut store = fresh_store();
    let _ = add_download(&mut store, "a", "A", "a.jpg", "1080P", "https://x/a.mp4", 1);
    let _ = add_download(&mut store, "b", "B", "b.jpg", "1080P", "https://x/b.mp4", 2);
    pause_download(&mut store, "b", 10);
    let downloading = get_downloads_by_status(&store, "downloading");
    assert_eq!(downloading.len(), 1);
    assert_eq!(downloading[0].video_id, "a");
    let paused = get_downloads_by_status(&store, "paused");
    assert_eq!(paused.len(), 1);
    assert_eq!(paused[0].video_id, "b");
    assert_eq!(get_downloads_by_status(&store, "completed").len(), 0);
}

#[test]
fn local_path_lookup() {
    let mut store = fresh_store();
    let _ = add_download(&mut store, "v1", "T", "c.jpg", "1080P", "https://x/v1.mp4", 1000);
    assert_eq!(
        get_local_video_path(&store, "v1").as_deref(),
        Some("/data/downloads/v1_1080P.mp4")
    );
    assert!(get_local_video_path(&store, "zzz").is_none());
}

#[test]
fn restartable_existing_task_restarts() {
    let mut store = fresh_store();
    let _ = add_download(&mut store, "v1", "T", "c.jpg", "1080P", "https://x/v1.mp4", 1000);
    finish_download(
        &mut store,
        &mut ProgressTopic::new(4),
        "v1",
        Some("boom"),
        2000,
    );
    // a failed task with a save path is restarted by a second add
    let (task, req) = add_download(&mut store, "v1", "T", "c.jpg", "1080P", "https://x/v1.mp4", 3000);
    // the returned snapshot still shows the record as it was
    assert!(matches!(task.status, SnapshotStatus::Failed(_)));
    assert!(req.is_some());
    let rec = store.get_download_by_video_id("v1").unwrap();
    assert!(matches!(rec.status, DownloadStatus::Downloading));
}
