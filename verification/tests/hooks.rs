use monaka_vfs::hooks::{FsDescriptorWrapper, FsDirectoryEntryStreamWrapper, NoOpSyncHooks, OpenKind, SyncHooks};
use monaka_vfs::types::{O_CREAT, O_RDONLY, O_RDWR, O_TRUNC, O_WRONLY};

#[test]
fn open_kind_from_fs_flags() {
    assert_eq!(OpenKind::from_fs_flags(O_RDONLY), OpenKind::Read);
    assert_eq!(OpenKind::from_fs_flags(O_RDONLY | O_CREAT), OpenKind::Read);
    assert_eq!(OpenKind::from_fs_flags(O_WRONLY), OpenKind::Write);
    assert_eq!(OpenKind::from_fs_flags(O_RDWR | O_TRUNC), OpenKind::Write);
}

#[test]
fn noop_hooks_accept_every_call() {
    let h = NoOpSyncHooks;
    assert!(h.on_open("/a", OpenKind::Write).is_ok());
    assert!(h.on_close("/a", OpenKind::Write).is_ok());
    assert!(h.on_fsync("/a", OpenKind::Write).is_ok());
    assert!(h.on_mkdir("/d").is_ok());
    assert!(h.on_rmdir("/d").is_ok());
}

#[test]
fn open_kind_is_write() {
    assert!(OpenKind::Write.is_write());
    assert!(!OpenKind::Read.is_write());
    assert!(OpenKind::from_fs_flags(3).is_write());
}

#[test]
fn directory_stream_yields_each_entry_once() {
    let mut s = FsDirectoryEntryStreamWrapper::new(vec![
        ("a".to_string(), false),
        ("d".to_string(), true),
    ]);
    assert_eq!(s.next_entry(), Some(("a".to_string(), false)));
    assert_eq!(s.next_entry(), Some(("d".to_string(), true)));
    assert_eq!(s.next_entry(), None);
    assert_eq!(s.next_entry(), None);
    assert_eq!(s.position, 2);
}

#[test]
fn descriptor_paths_resolve_below_their_directory() {
    let root = FsDescriptorWrapper { fd: 3, path: Some("/".to_string()) };
    assert_eq!(root.resolve_path("a.txt"), "/a.txt");
    assert_eq!(root.resolve_path("//a.txt"), "/a.txt");
    let dir = FsDescriptorWrapper { fd: 4, path: Some("/d/".to_string()) };
    assert_eq!(dir.resolve_path("/x"), "/d/x");
    let file = FsDescriptorWrapper { fd: 5, path: None };
    assert_eq!(file.resolve_path("y"), "/y");
}
