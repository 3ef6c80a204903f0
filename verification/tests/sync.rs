use monaka_vfs::sync::{
    file_key, is_missing_object, object_info, object_key, part_ranges, path_from_key, trim_etag, uses_multipart, LoadError,
    MetadataCache, S3Error, SyncMode, SyncOperation, SyncQueue, SyncStats, MULTIPART_THRESHOLD,
    PART_SIZE,
};

fn describe(op: Option<SyncOperation>) -> Option<(bool, String)> {
    match op {
        Some(SyncOperation::Upload { path }) => Some((true, path)),
        Some(SyncOperation::Delete { path }) => Some((false, path)),
        None => None,
    }
}

#[test]
fn queue_keeps_one_operation_per_path() {
    let mut q = SyncQueue::new();
    q.enqueue_upload("/a".to_string());
    q.enqueue_upload("/b".to_string());
    q.enqueue_delete("/a".to_string());
    q.enqueue_upload("/b".to_string());
    assert_eq!(q.pending_count(), 2);
    assert_eq!(describe(q.pop_front()), Some((false, "/a".to_string())));
    assert_eq!(describe(q.pop_front()), Some((true, "/b".to_string())));
    assert_eq!(describe(q.pop_front()), None);
    assert_eq!(q.pending_count(), 0);
}

#[test]
fn sync_mode_from_setting() {
    assert_eq!(SyncMode::from_setting(Some("realtime")), SyncMode::RealTime);
    assert_eq!(SyncMode::from_setting(Some("real-time")), SyncMode::RealTime);
    assert_eq!(SyncMode::from_setting(Some("immediate")), SyncMode::RealTime);
    assert_eq!(SyncMode::from_setting(Some("batch")), SyncMode::Batch);
    assert_eq!(SyncMode::from_setting(None), SyncMode::Batch);
    assert_eq!(SyncMode::default(), SyncMode::Batch);
    let s = SyncStats::default();
    assert_eq!((s.downloaded, s.deleted), (0, 0));
}

#[test]
fn object_keys() {
    assert_eq!(object_key("vfs/", "/dir/file.txt"), "vfs/dir/file.txt");
    assert_eq!(object_key("vfs/", "//x"), "vfs/x");
    assert_eq!(file_key("vfs/", "/a/b"), "vfs/files/a/b");
    assert_eq!(path_from_key("vfs/files", "vfs/files/a/b"), "/a/b");
    assert_eq!(path_from_key("vfs/files", "other/a"), "other/a");
    assert_eq!(path_from_key("a-long-prefix", "short"), "short");
}

#[test]
fn etag_quotes_are_trimmed() {
    assert_eq!(trim_etag("\"abc123\""), "abc123");
    assert_eq!(trim_etag("abc"), "abc");
    assert_eq!(trim_etag("\"\""), "");
}

#[test]
fn multipart_plan_covers_the_file() {
    assert!(!uses_multipart(MULTIPART_THRESHOLD - 1));
    assert!(uses_multipart(MULTIPART_THRESHOLD));
    assert!(part_ranges(0).is_empty());
    let len = PART_SIZE * 2 + 5;
    let parts = part_ranges(len);
    assert_eq!(
        parts,
        vec![(1, 0, PART_SIZE), (2, PART_SIZE, 2 * PART_SIZE), (3, 2 * PART_SIZE, len)]
    );
    assert_eq!(part_ranges(PART_SIZE), vec![(1, 0, PART_SIZE)]);
}

#[test]
fn metadata_cache_records_and_forgets() {
    let mut c = MetadataCache::new();
    assert!(c.get("/f").is_none());
    c.update_after_upload("/f", "e1".to_string(), 10, 5, 99);
    let m = c.get("/f").unwrap();
    assert_eq!((m.etag.as_str(), m.last_modified, m.local_modified, m.size), ("e1", 99, 5, 10));
    c.update_after_download("/f", "e2".to_string(), 7, 20);
    let m = c.get("/f").unwrap();
    assert_eq!((m.etag.as_str(), m.last_modified, m.local_modified, m.size), ("e2", 7, 7, 20));
    c.update_after_download("/g", "e3".to_string(), 1, 1);
    let mut paths = c.paths();
    paths.sort();
    assert_eq!(paths, vec!["/f".to_string(), "/g".to_string()]);
    c.remove("/f");
    assert!(c.get("/f").is_none());
    assert_eq!(c.paths(), vec!["/g".to_string()]);
}

#[test]
fn error_messages() {
    let e = S3Error::Read { key: "k".to_string(), message: "gone".to_string() };
    assert_eq!(e.message(), "S3 read error for k: gone");
    let l = LoadError::S3 { source: e };
    assert_eq!(l.message(), "S3 error: S3 read error for k: gone");
    let f = LoadError::Fs { message: "bad".to_string() };
    assert_eq!(f.message(), "Filesystem error: bad");
}

#[test]
fn listing_entries_become_files() {
    let o = object_info("vfs/files", Some("vfs/files/a/b.txt"), Some("\"e1\""), Some(12), Some(99))
        .unwrap();
    assert_eq!(o.path, "/a/b.txt");
    assert_eq!(o.etag, "e1");
    assert_eq!((o.size, o.last_modified), (12, 99));
    let o = object_info("vfs/files", Some("other"), Some("e"), Some(1), None).unwrap();
    assert_eq!((o.path.as_str(), o.last_modified), ("other", 0));
    assert!(object_info("p", None, Some("e"), Some(1), None).is_none());
    assert!(object_info("p", Some("k"), None, Some(1), None).is_none());
    assert!(object_info("p", Some("k"), Some("e"), None, None).is_none());
}

#[test]
fn missing_objects_are_recognised_by_their_error_text() {
    assert!(is_missing_object("service error: NoSuchKey: gone"));
    assert!(is_missing_object("status 404"));
    assert!(is_missing_object("404"));
    assert!(!is_missing_object("status 403 AccessDenied"));
    assert!(!is_missing_object(""));
    assert!(!is_missing_object("NoSuchKe"));
}

#[test]
fn queue_keeps_one_operation_per_path_and_counts_it() {
    let mut q = SyncQueue::new();
    q.enqueue_upload("/a".to_string());
    q.enqueue_delete("/b".to_string());
    assert_eq!(q.pending_count(), 2);
    // Replacing the pending operation on /a leaves the count unchanged.
    q.enqueue_delete("/a".to_string());
    assert_eq!(q.pending_count(), 2);
    q.enqueue_upload("/c".to_string());
    assert_eq!(q.pending_count(), 3);
    assert!(!q.has_pending_upload("/a"));
    let mut seen: Vec<String> = Vec::new();
    while let Some(op) = q.pop_front() {
        let p = match op {
            SyncOperation::Upload { path } => path,
            SyncOperation::Delete { path } => path,
        };
        assert!(!seen.contains(&p));
        seen.push(p);
    }
    assert_eq!(seen, vec!["/b".to_string(), "/a".to_string(), "/c".to_string()]);
}
