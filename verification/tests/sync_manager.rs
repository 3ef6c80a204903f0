use monaka_vfs::fs::Fs;
use monaka_vfs::sync::{MetadataCache, S3Error, S3ObjectInfo, SyncMode, SyncQueue};
use monaka_vfs::sync_manager::{
    delete_local_file, inbound_plan, is_remote_newer, read_file_content, write_file_content,
    SyncConfig,
};

fn obj(path: &str, etag: &str, last_modified: u64) -> S3ObjectInfo {
    S3ObjectInfo { path: path.to_string(), etag: etag.to_string(), last_modified, size: 1 }
}

#[test]
fn default_config_and_pacing() {
    let c = SyncConfig::default();
    assert_eq!(c.mode, SyncMode::Batch);
    assert_eq!((c.poll_interval_ms, c.flush_interval_ms, c.outbound_batch_size), (30000, 5000, 10));
    assert!(c.should_flush(10, 0));
    assert!(!c.should_flush(9, 4999));
    assert!(c.should_flush(1, 5000));
    assert!(!c.should_flush(0, 100000));
    assert!(c.should_poll(30000));
    assert!(!c.should_poll(29999));
}

#[test]
fn remote_newer_rules() {
    let mut cache = MetadataCache::new();
    assert!(is_remote_newer(&obj("/a", "e1", 5), &cache));
    cache.update_after_download("/a", "e1".to_string(), 5, 1);
    assert!(!is_remote_newer(&obj("/a", "e1", 9), &cache));
    assert!(is_remote_newer(&obj("/a", "e2", 9), &cache));
    assert!(!is_remote_newer(&obj("/a", "e2", 5), &cache));
}

#[test]
fn inbound_plan_fetches_new_and_drops_missing() {
    let mut cache = MetadataCache::new();
    cache.update_after_download("/same", "e".to_string(), 3, 1);
    cache.update_after_download("/changed", "old".to_string(), 3, 1);
    cache.update_after_download("/gone", "g".to_string(), 3, 1);
    let mut queue = SyncQueue::new();
    queue.enqueue_upload("/pending".to_string());
    let objects = vec![
        obj("/same", "e", 7),
        obj("/changed", "new", 7),
        obj("/fresh", "f", 1),
        obj("/pending", "p", 1),
    ];
    let plan = inbound_plan(&objects, &cache, &queue);
    assert_eq!(plan.downloads, vec![1, 2]);
    assert_eq!(plan.deletions, vec!["/gone".to_string()]);
}

#[test]
fn delete_local_file_forgets_the_record() {
    let mut fs = Fs::new();
    let fd = fs.open_path("/f").unwrap();
    fs.close(fd).unwrap();
    let mut cache = MetadataCache::new();
    cache.update_after_download("/f", "e".to_string(), 1, 0);
    assert!(delete_local_file(&mut fs, &mut cache, "/f").is_ok());
    assert!(cache.get("/f").is_none());
    assert!(fs.stat("/f").is_err());
    cache.update_after_download("/f", "e".to_string(), 1, 0);
    match delete_local_file(&mut fs, &mut cache, "/f") {
        Err(S3Error::Delete { key, message }) => {
            assert_eq!(key, "/f");
            assert_eq!(message, "Failed to unlink: NotFound");
        }
        _ => panic!("expected a delete error"),
    }
    assert!(cache.get("/f").is_some());
}

#[test]
fn read_file_content_reads_everything() {
    let mut fs = Fs::new();
    let fd = fs.open_path("/f").unwrap();
    fs.write(fd, b"contents").unwrap();
    assert_eq!(read_file_content(&mut fs, "/f").unwrap(), b"contents".to_vec());
    match read_file_content(&mut fs, "/missing") {
        Err(S3Error::Read { key, message }) => {
            assert_eq!(key, "/missing");
            assert_eq!(message, "Failed to open: NotFound");
        }
        _ => panic!("expected a read error"),
    }
}

#[test]
fn write_file_content_creates_directories_and_replaces_contents() {
    let mut fs = Fs::new();
    assert!(write_file_content(&mut fs, "/a/b/c.txt", b"hello world").is_ok());
    assert!(fs.stat("/a/b").unwrap().is_dir);
    assert_eq!(read_file_content(&mut fs, "/a/b/c.txt").unwrap(), b"hello world".to_vec());
    // A shorter download replaces the whole file.
    assert!(write_file_content(&mut fs, "/a/b/c.txt", b"hi").is_ok());
    assert_eq!(read_file_content(&mut fs, "/a/b/c.txt").unwrap(), b"hi".to_vec());
    // A file at the top level needs no directory.
    assert!(write_file_content(&mut fs, "/top", b"").is_ok());
    assert_eq!(fs.stat("/top").unwrap().size, 0);
}

#[test]
fn write_file_content_names_the_failing_step() {
    let mut fs = Fs::new();
    assert!(write_file_content(&mut fs, "/f", b"x").is_ok());
    match write_file_content(&mut fs, "/f/inner", b"y") {
        Err(S3Error::Write { key, message }) => {
            assert_eq!(key, "/f/inner");
            assert_eq!(message, "Failed to open: NotADirectory");
        }
        other => panic!("expected a write error, got {:?}", other),
    }
    fs.mkdir("/d").unwrap();
    match write_file_content(&mut fs, "/d", b"y") {
        Err(S3Error::Write { message, .. }) => assert_eq!(message, "Failed to open: IsADirectory"),
        other => panic!("expected a write error, got {:?}", other),
    }
}
