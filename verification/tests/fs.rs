use monaka_vfs::fs::Fs;
use monaka_vfs::snapshot::{
    FileContentSnapshot, FileDataSnapshot, FsSnapshot, InodeSnapshot, MetadataSnapshot,
};
use serde_json::Value;
use monaka_vfs::time::MonotonicCounter;
use monaka_vfs::types::{FsError, BLOCK_SIZE, O_CREAT, O_RDONLY, O_RDWR, O_TRUNC, O_WRONLY, O_APPEND};

#[test]
fn success_large_file_multiple_blocks() {
    let mut fs = Fs::new();
    let fd = fs.open_path("/large.bin").unwrap();

    let large_data: Vec<u8> = (0..BLOCK_SIZE * 2 + 100).map(|i| (i % 256) as u8).collect();

    let written = fs.write(fd, &large_data).unwrap();
    assert_eq!(written, large_data.len());

    fs.seek(fd, 0, 0).unwrap();
    let mut read_buf = vec![0u8; large_data.len()];
    let read = fs.read(fd, &mut read_buf).unwrap();
    assert_eq!(read, large_data.len());
    assert_eq!(read_buf, large_data);

    fs.close(fd).unwrap();
}

#[test]
fn success_boundary_operations() {
    let mut fs = Fs::new();
    let fd = fs.open_path("/boundary.txt").unwrap();

    let data1 = vec![1u8; BLOCK_SIZE];
    fs.write(fd, &data1).unwrap();

    let data2 = vec![2u8; 100];
    fs.write(fd, &data2).unwrap();

    fs.seek(fd, (BLOCK_SIZE - 50) as i64, 0).unwrap();
    let mut buf = vec![0u8; 100];
    let n = fs.read(fd, &mut buf).unwrap();
    assert_eq!(n, 100);
    assert_eq!(&buf[..50], &vec![1u8; 50]);
    assert_eq!(&buf[50..], &vec![2u8; 50]);

    fs.close(fd).unwrap();
}

#[test]
fn success_with_gaps() {
    let mut fs = Fs::new();
    let fd = fs.open_path("/sparse.dat").unwrap();

    fs.write(fd, b"hello").unwrap();

    fs.seek(fd, BLOCK_SIZE as i64 * 10, 0).unwrap();

    fs.write(fd, b"world").unwrap();

    fs.seek(fd, 0, 0).unwrap();
    let mut buf = vec![0u8; 5];
    let n = fs.read(fd, &mut buf).unwrap();
    assert_eq!(n, 5);
    assert_eq!(&buf, b"hello");

    fs.seek(fd, 100, 0).unwrap();
    let mut sparse_buf = vec![0u8; 10];
    let n = fs.read(fd, &mut sparse_buf).unwrap();
    assert_eq!(n, 10);
    assert_eq!(sparse_buf, vec![0u8; 10]);

    fs.seek(fd, BLOCK_SIZE as i64 * 10, 0).unwrap();
    let mut buf2 = vec![0u8; 5];
    let n = fs.read(fd, &mut buf2).unwrap();
    assert_eq!(n, 5);
    assert_eq!(&buf2, b"world");

    fs.close(fd).unwrap();
}

#[test]
fn test_snapshot_roundtrip() {
    let mut fs = Fs::new();

    fs.mkdir("/test").unwrap();
    fs.mkdir_p("/test/nested/dir").unwrap();

    let fd = fs.open_path("/test/file.txt").unwrap();
    fs.write(fd, b"Hello, World!").unwrap();
    fs.close(fd).unwrap();

    let snapshot = fs.to_snapshot();

    // Serialize to JSON and back.
    let json = serde_json::to_string(&snapshot_to_json(&snapshot)).unwrap();
    let restored_snapshot = snapshot_from_json(&serde_json::from_str(&json).unwrap());

    let mut restored_fs = Fs::from_snapshot(restored_snapshot, MonotonicCounter::new());

    assert!(restored_fs.stat("/test").is_ok());
    assert!(restored_fs.stat("/test/nested/dir").is_ok());
    assert!(restored_fs.stat("/test/file.txt").is_ok());

    let fd = restored_fs.open_path_with_flags("/test/file.txt", O_RDONLY).unwrap();
    let mut buf = [0u8; 20];
    let n = restored_fs.read(fd, &mut buf).unwrap();
    assert_eq!(&buf[..n], b"Hello, World!");
}

#[test]
fn snapshot_keeps_metadata_and_counters() {
    let mut fs = Fs::new();
    fs.mkdir("/d").unwrap();
    let fd = fs.open_path("/d/f").unwrap();
    fs.write(fd, b"abc").unwrap();
    let before = fs.stat("/d/f").unwrap();
    let snap = fs.to_snapshot();
    assert_eq!(snap.inodes.len(), 3);
    let mut restored = Fs::from_snapshot(snap, MonotonicCounter::new());
    let after = restored.stat("/d/f").unwrap();
    assert_eq!(after.size, 3);
    assert_eq!(after.created, before.created);
    assert_eq!(after.modified, before.modified);
    assert!(!after.is_dir);
    // A new file gets an inode number past the restored ones.
    restored.open_path("/g").unwrap();
    assert_eq!(restored.readdir("/").unwrap().len(), 2);
}

#[test]
fn read_after_write_at_gives_the_bytes_back() {
    let mut fs = Fs::new();
    let fd = fs.open_path("/f").unwrap();
    assert_eq!(fs.write_at(fd, 7, b"xyz").unwrap(), 3);
    let mut out = [9u8; 3];
    assert_eq!(fs.read_at(fd, 7, &mut out).unwrap(), 3);
    assert_eq!(&out, b"xyz");
    let mut gap = [9u8; 7];
    assert_eq!(fs.read_at(fd, 0, &mut gap).unwrap(), 7);
    assert_eq!(gap, [0u8; 7]);
    assert_eq!(fs.fstat(fd).unwrap().size, 10);
}

#[test]
fn open_flags_are_enforced() {
    let mut fs = Fs::new();
    assert_eq!(fs.open_path_with_flags("/missing", O_RDONLY), Err(FsError::NotFound));
    let fd = fs.open_path_with_flags("/f", O_WRONLY | O_CREAT).unwrap();
    fs.write(fd, b"data").unwrap();
    let mut out = [0u8; 4];
    assert_eq!(fs.read(fd, &mut out), Err(FsError::PermissionDenied));
    let rd = fs.open_path_with_flags("/f", O_RDONLY).unwrap();
    assert_eq!(fs.write(rd, b"x"), Err(FsError::PermissionDenied));
    let tr = fs.open_path_with_flags("/f", O_RDWR | O_TRUNC).unwrap();
    assert_eq!(fs.fstat(tr).unwrap().size, 0);
    assert_eq!(fs.open_path_with_flags("", O_RDONLY), Err(FsError::InvalidArgument));
}

#[test]
fn append_writes_at_the_end() {
    let mut fs = Fs::new();
    let fd = fs.open_path_with_flags("/log", O_RDWR | O_CREAT | O_APPEND).unwrap();
    fs.write(fd, b"ab").unwrap();
    fs.seek(fd, 0, 0).unwrap();
    fs.write(fd, b"cd").unwrap();
    let mut out = [0u8; 4];
    assert_eq!(fs.read_at(fd, 0, &mut out).unwrap(), 4);
    assert_eq!(&out, b"abcd");
    let other = fs.open_path("/log").unwrap();
    assert_eq!(fs.append_write(other, b"e").unwrap(), 1);
    assert_eq!(fs.stat("/log").unwrap().size, 5);
}

#[test]
fn seek_whence_and_errors() {
    let mut fs = Fs::new();
    let fd = fs.open_path("/f").unwrap();
    fs.write(fd, b"0123456789").unwrap();
    assert_eq!(fs.seek(fd, -3, 2).unwrap(), 7);
    assert_eq!(fs.seek(fd, 2, 1).unwrap(), 9);
    assert_eq!(fs.seek(fd, -20, 1), Err(FsError::InvalidArgument));
    assert_eq!(fs.seek(fd, 0, 7), Err(FsError::InvalidArgument));
    assert_eq!(fs.seek(999, 0, 0), Err(FsError::BadFileDescriptor));
    let root = fs.open_path_with_flags("/", O_RDONLY).unwrap();
    assert_eq!(fs.seek(root, 0, 0), Err(FsError::BadFileDescriptor));
}

#[test]
fn ftruncate_cuts_and_extends() {
    let mut fs = Fs::new();
    let fd = fs.open_path("/f").unwrap();
    fs.write(fd, b"hello world").unwrap();
    fs.ftruncate(fd, 5).unwrap();
    assert_eq!(fs.fstat(fd).unwrap().size, 5);
    fs.ftruncate(fd, 8).unwrap();
    let mut out = [7u8; 8];
    assert_eq!(fs.read_at(fd, 0, &mut out).unwrap(), 8);
    assert_eq!(&out, b"hello\0\0\0");
}

#[test]
fn directory_operations() {
    let mut fs = Fs::new();
    fs.mkdir("/a").unwrap();
    assert_eq!(fs.mkdir("/a"), Err(FsError::AlreadyExists));
    assert_eq!(fs.mkdir("/x/y"), Err(FsError::NotFound));
    fs.mkdir_p("/a/b/c").unwrap();
    fs.mkdir_p("/a/b/c").unwrap();
    let fd = fs.open_path("/a/file").unwrap();
    fs.close(fd).unwrap();
    let mut names = fs.readdir("/a").unwrap();
    names.sort();
    assert_eq!(names, vec!["b".to_string(), "file".to_string()]);
    assert_eq!(fs.rmdir("/a"), Err(FsError::NotEmpty));
    assert_eq!(fs.rmdir("/a/file"), Err(FsError::NotADirectory));
    assert_eq!(fs.unlink("/a/b"), Err(FsError::IsADirectory));
    fs.unlink("/a/file").unwrap();
    assert_eq!(fs.stat("/a/file"), Err(FsError::NotFound));
    fs.rmdir("/a/b/c").unwrap();
    assert!(fs.stat("/a/b").unwrap().is_dir);
    let dfd = fs.open_path_with_flags("/a", O_RDONLY).unwrap();
    let entries = fs.readdir_fd(dfd).unwrap();
    assert_eq!(entries, vec![("b".to_string(), true)]);
}

#[test]
fn rename_moves_and_replaces() {
    let mut fs = Fs::new();
    let fd = fs.open_path("/src").unwrap();
    fs.write(fd, b"one").unwrap();
    let fd2 = fs.open_path("/dst").unwrap();
    fs.write(fd2, b"two!").unwrap();
    fs.rename("/src", "/dst").unwrap();
    assert_eq!(fs.stat("/src"), Err(FsError::NotFound));
    assert_eq!(fs.stat("/dst").unwrap().size, 3);
    fs.mkdir("/d").unwrap();
    fs.rename("/dst", "/d/moved").unwrap();
    assert_eq!(fs.stat("/d/moved").unwrap().size, 3);
    assert_eq!(fs.rename("/nope", "/x"), Err(FsError::NotFound));
    fs.mkdir("/e").unwrap();
}

#[test]
fn open_at_resolves_below_a_directory() {
    let mut fs = Fs::new();
    fs.mkdir("/dir").unwrap();
    let d = fs.open_path_with_flags("/dir", O_RDONLY).unwrap();
    let f = fs.open_at(d, "inner.txt", O_RDWR | O_CREAT).unwrap();
    fs.write(f, b"hi").unwrap();
    assert_eq!(fs.stat("/dir/inner.txt").unwrap().size, 2);
    assert_eq!(fs.open_at(d, "/abs", O_RDONLY), Err(FsError::InvalidArgument));
    assert_eq!(fs.open_at(f, "x", O_RDONLY), Err(FsError::NotADirectory));
    assert_eq!(fs.open_at(12345, "x", O_RDONLY), Err(FsError::BadFileDescriptor));
}

#[test]
fn close_twice_is_an_error() {
    let mut fs = Fs::new();
    let fd = fs.open_path("/f").unwrap();
    fs.close(fd).unwrap();
    assert_eq!(fs.close(fd), Err(FsError::BadFileDescriptor));
    let mut out = [0u8; 1];
    assert_eq!(fs.read(fd, &mut out), Err(FsError::BadFileDescriptor));
}

// The JSON form of a snapshot, written field by field: an object with
// `next_inode`, `root_inode` and `inodes`; each inode an object with `id`,
// `metadata` and `content`, the content `{"File": {"size", "data"}}` or
// `{"Dir": {name: id}}`.

fn metadata_to_json(m: &MetadataSnapshot) -> Value {
    let mut o = serde_json::Map::new();
    o.insert("size".into(), Value::from(m.size));
    o.insert("created".into(), Value::from(m.created));
    o.insert("modified".into(), Value::from(m.modified));
    o.insert("permissions".into(), Value::from(m.permissions));
    o.insert("is_dir".into(), Value::from(m.is_dir));
    Value::Object(o)
}

fn snapshot_to_json(s: &FsSnapshot) -> Value {
    let inodes: Vec<Value> = s
        .inodes
        .iter()
        .map(|n| {
            let content = match &n.content {
                FileContentSnapshot::File(f) => {
                    let mut d = serde_json::Map::new();
                    d.insert("size".into(), Value::from(f.size));
                    d.insert("data".into(), Value::from(f.data.clone()));
                    let mut c = serde_json::Map::new();
                    c.insert("File".into(), Value::Object(d));
                    c
                }
                FileContentSnapshot::Dir(entries) => {
                    let mut d = serde_json::Map::new();
                    for (name, id) in entries {
                        d.insert(name.clone(), Value::from(*id));
                    }
                    let mut c = serde_json::Map::new();
                    c.insert("Dir".into(), Value::Object(d));
                    c
                }
            };
            let mut o = serde_json::Map::new();
            o.insert("id".into(), Value::from(n.id));
            o.insert("metadata".into(), metadata_to_json(&n.metadata));
            o.insert("content".into(), Value::Object(content));
            Value::Object(o)
        })
        .collect();
    let mut o = serde_json::Map::new();
    o.insert("next_inode".into(), Value::from(s.next_inode));
    o.insert("root_inode".into(), Value::from(s.root_inode));
    o.insert("inodes".into(), Value::Array(inodes));
    Value::Object(o)
}

fn snapshot_from_json(v: &Value) -> FsSnapshot {
    let inodes = v["inodes"]
        .as_array()
        .unwrap()
        .iter()
        .map(|n| {
            let m = &n["metadata"];
            let metadata = MetadataSnapshot {
                size: m["size"].as_u64().unwrap(),
                created: m["created"].as_u64().unwrap(),
                modified: m["modified"].as_u64().unwrap(),
                permissions: m["permissions"].as_u64().unwrap() as u16,
                is_dir: m["is_dir"].as_bool().unwrap(),
            };
            let c = &n["content"];
            let content = if let Some(f) = c.get("File") {
                FileContentSnapshot::File(FileDataSnapshot {
                    size: f["size"].as_u64().unwrap() as usize,
                    data: f["data"]
                        .as_array()
                        .unwrap()
                        .iter()
                        .map(|b| b.as_u64().unwrap() as u8)
                        .collect(),
                })
            } else {
                let mut entries: Vec<(String, u64)> = c["Dir"]
                    .as_object()
                    .unwrap()
                    .iter()
                    .map(|(name, id)| (name.clone(), id.as_u64().unwrap()))
                    .collect();
                entries.sort();
                FileContentSnapshot::Dir(entries)
            };
            InodeSnapshot { id: n["id"].as_u64().unwrap(), metadata, content }
        })
        .collect();
    FsSnapshot {
        next_inode: v["next_inode"].as_u64().unwrap(),
        root_inode: v["root_inode"].as_u64().unwrap(),
        inodes,
    }
}

#[test]
fn renamed_directory_keeps_its_metadata_and_children() {
    let mut fs = Fs::new();
    fs.mkdir("/d").unwrap();
    let fd = fs.open_path("/d/f").unwrap();
    fs.write(fd, b"xyz").unwrap();
    fs.close(fd).unwrap();
    fs.mkdir("/other").unwrap();
    let before = fs.stat("/d").unwrap();
    fs.rename("/d", "/other/e").unwrap();
    assert_eq!(fs.stat("/other/e").unwrap(), before);
    assert_eq!(fs.stat("/d"), Err(FsError::NotFound));
    assert_eq!(fs.stat("/other/e/f").unwrap().size, 3);
}

#[test]
fn descriptors_count_up_from_three_and_failures_take_none() {
    let mut fs = Fs::new();
    assert_eq!(fs.open_path("/a").unwrap(), 3);
    assert_eq!(fs.open_path_with_flags("/missing", O_RDONLY), Err(FsError::NotFound));
    assert_eq!(fs.open_path("/b").unwrap(), 4);
    fs.close(3).unwrap();
    assert_eq!(fs.open_path("/a").unwrap(), 5);
}
