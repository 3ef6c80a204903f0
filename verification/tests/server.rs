//! The request handling of the server.

use monaka_vfs::protocol::{ErrorCode, Request, Response, PROTOCOL_VERSION};
use monaka_vfs::server::{
    init_server, is_write_access, join_dir, map_fs_error, map_sync_error, ServerContext, SyncError,
};
use monaka_vfs::types::{FsError, O_CREAT, O_RDONLY, O_RDWR, O_WRONLY};

fn handle(ctx: &mut ServerContext, req: Request, session: Option<&str>, new_id: &str) -> Response {
    assert!(ctx.accepts(&req));
    ctx.handle_request(req, session.map(|s| s.to_string()), new_id.to_string())
}

fn open(ctx: &mut ServerContext, path: &str, flags: u32, session: Option<&str>) -> u32 {
    let resp = handle(
        ctx,
        Request::OpenPath { path: path.into(), flags },
        session,
        "irrelevant",
    );
    match resp {
        Response::Fd { fd } => fd,
        other => panic!("expected Fd, got {:?}", other),
    }
}

#[test]
fn map_fs_error_translates_each_variant() {
    let cases = [
        (FsError::NotFound, ErrorCode::NotFound, "Not found"),
        (FsError::NotADirectory, ErrorCode::NotADirectory, "Not a directory"),
        (FsError::IsADirectory, ErrorCode::IsADirectory, "Is a directory"),
        (FsError::InvalidArgument, ErrorCode::InvalidArgument, "Invalid argument"),
        (FsError::BadFileDescriptor, ErrorCode::BadFileDescriptor, "Bad file descriptor"),
        (FsError::PermissionDenied, ErrorCode::PermissionDenied, "Permission denied"),
        (FsError::AlreadyExists, ErrorCode::AlreadyExists, "Already exists"),
        (FsError::NotEmpty, ErrorCode::NotEmpty, "Directory not empty"),
    ];
    for (err, expected_code, expected_message) in cases {
        match map_fs_error(err) {
            Response::Error { code, message } => {
                assert_eq!(code, expected_code);
                assert_eq!(message, expected_message);
            }
            _ => panic!("expected Response::Error for {:?}", err),
        }
    }
}

#[test]
fn connect_with_matching_version_returns_session_id() {
    let mut ctx = init_server();
    let req = Request::Connect { version: PROTOCOL_VERSION };
    match handle(&mut ctx, req, None, "test-session") {
        Response::Connected { session_id, version } => {
            assert_eq!(session_id, "test-session");
            assert_eq!(version, PROTOCOL_VERSION);
        }
        other => panic!("expected Connected, got {:?}", other),
    }
}

#[test]
fn connect_negotiates_down_to_v1_client() {
    let mut ctx = init_server();
    match handle(&mut ctx, Request::Connect { version: 1 }, None, "s") {
        Response::Connected { version, .. } => assert_eq!(version, 1),
        other => panic!("expected Connected, got {:?}", other),
    }
}

#[test]
fn connect_with_wrong_version_returns_protocol_error() {
    let mut ctx = init_server();
    for version in [0, PROTOCOL_VERSION + 1] {
        match handle(&mut ctx, Request::Connect { version }, None, "ignored") {
            Response::Error { code, .. } => assert_eq!(code, ErrorCode::ProtocolError),
            other => panic!("expected Error, got {:?}", other),
        }
    }
}

#[test]
fn version_mismatch_message_names_both_versions() {
    let mut ctx = init_server();
    match handle(&mut ctx, Request::Connect { version: 42 }, None, "ignored") {
        Response::Error { message, .. } => {
            assert_eq!(message, "Protocol version mismatch: client=42, server=1")
        }
        other => panic!("expected Error, got {:?}", other),
    }
}

#[test]
fn open_then_write_then_read_round_trips_via_handler() {
    let mut ctx = init_server();
    let fd = open(&mut ctx, "/hello.txt", O_CREAT | O_RDWR, None);
    let resp = handle(&mut ctx, Request::Write { fd, data: b"hi".to_vec() }, None, "irrelevant");
    assert!(matches!(resp, Response::Written { count: 2 }));
    let _ = handle(&mut ctx, Request::Seek { fd, offset: 0, whence: 0 }, None, "irrelevant");
    match handle(&mut ctx, Request::Read { fd, length: 16 }, None, "irrelevant") {
        Response::Data { bytes } => assert_eq!(bytes, b"hi"),
        other => panic!("expected Data, got {:?}", other),
    }
}

#[test]
fn open_records_path_flags_and_session() {
    let mut ctx = init_server();
    let fd = open(&mut ctx, "/w", O_CREAT | O_WRONLY, Some("sess-1"));
    assert_eq!(ctx.fd_path(fd).unwrap(), "/w");
    assert!(is_write_access(ctx.fd_flags(fd).unwrap()));
    assert!(ctx.session_has_fd("sess-1", fd));
}

#[test]
fn open_at_records_absolute_path() {
    let mut ctx = init_server();
    let dir = open(&mut ctx, "/", O_RDONLY, None);
    let resp = handle(
        &mut ctx,
        Request::OpenAt { dir_fd: dir, path: "child.txt".into(), flags: O_CREAT | O_WRONLY },
        None,
        "x",
    );
    let fd = match resp {
        Response::Fd { fd } => fd,
        other => panic!("expected Fd, got {:?}", other),
    };
    assert_eq!(ctx.fd_path(fd).unwrap(), "/child.txt");
}

#[test]
fn close_clears_all_fd_maps() {
    let mut ctx = init_server();
    let fd = open(&mut ctx, "/c", O_CREAT | O_WRONLY, Some("sess-1"));
    ctx.mark_refreshed(fd);
    assert!(ctx.is_refreshed(fd));
    let resp = handle(&mut ctx, Request::Close { fd }, None, "x");
    assert!(matches!(resp, Response::Success));
    assert!(ctx.fd_path(fd).is_none());
    assert!(ctx.fd_flags(fd).is_none());
    assert!(!ctx.is_refreshed(fd));
    assert!(ctx.has_session("sess-1"));
    assert!(!ctx.session_has_fd("sess-1", fd));
}

#[test]
fn close_session_closes_every_descriptor_it_opened() {
    let mut ctx = init_server();
    let a = open(&mut ctx, "/a", O_CREAT | O_WRONLY, Some("s1"));
    let b = open(&mut ctx, "/b", O_CREAT | O_WRONLY, Some("s1"));
    let other = open(&mut ctx, "/o", O_CREAT | O_WRONLY, Some("s2"));

    ctx.close_session("s1");

    for fd in [a, b] {
        let resp = handle(&mut ctx, Request::Fstat { fd }, None, "x");
        assert!(matches!(resp, Response::Error { code: ErrorCode::BadFileDescriptor, .. }));
    }
    let resp = handle(&mut ctx, Request::Fstat { fd: other }, None, "x");
    assert!(matches!(resp, Response::Metadata { .. }));
    assert!(!ctx.has_session("s1"));
}

#[test]
fn fsync_on_unknown_fd_is_bad_descriptor_and_on_known_fd_is_ok() {
    let mut ctx = init_server();
    let resp = handle(&mut ctx, Request::Fsync { fd: 99 }, None, "x");
    assert!(matches!(resp, Response::Error { code: ErrorCode::BadFileDescriptor, .. }));
    let fd = open(&mut ctx, "/f", O_CREAT | O_WRONLY, None);
    let resp = handle(&mut ctx, Request::Fsync { fd }, None, "x");
    assert!(matches!(resp, Response::Success));
}

#[test]
fn read_on_unknown_fd_returns_bad_file_descriptor() {
    let mut ctx = init_server();
    match handle(&mut ctx, Request::Read { fd: 42, length: 8 }, None, "x") {
        Response::Error { code, .. } => assert_eq!(code, ErrorCode::BadFileDescriptor),
        other => panic!("expected Error, got {:?}", other),
    }
}

#[test]
fn unlink_then_stat_returns_not_found() {
    let mut ctx = init_server();
    let fd = open(&mut ctx, "/x", O_CREAT | O_WRONLY, None);
    let _ = handle(&mut ctx, Request::Close { fd }, None, "x");
    let r = handle(&mut ctx, Request::Unlink { path: "/x".into() }, None, "x");
    assert!(matches!(r, Response::Success));
    match handle(&mut ctx, Request::Stat { path: "/x".into() }, None, "x") {
        Response::Error { code, .. } => assert_eq!(code, ErrorCode::NotFound),
        other => panic!("expected Error(NotFound), got {:?}", other),
    }
}

#[test]
fn join_dir_handles_root_and_nested() {
    assert_eq!(join_dir("/", "a.txt"), "/a.txt");
    assert_eq!(join_dir("/", "/a.txt"), "/a.txt");
    assert_eq!(join_dir("/d", "a.txt"), "/d/a.txt");
    assert_eq!(join_dir("/d/", "a.txt"), "/d/a.txt");
}

#[test]
fn readdir_marks_directories() {
    let mut ctx = init_server();
    assert!(matches!(
        handle(&mut ctx, Request::MkdirP { path: "/top/sub".into() }, None, "x"),
        Response::Success
    ));
    let fd = open(&mut ctx, "/top/file", O_CREAT | O_WRONLY, None);
    let _ = handle(&mut ctx, Request::Close { fd }, None, "x");
    match handle(&mut ctx, Request::Readdir { path: "/top".into() }, None, "x") {
        Response::DirEntries { entries } => {
            let got: Vec<(String, bool)> =
                entries.into_iter().map(|e| (e.name, e.is_dir)).collect();
            assert_eq!(got, vec![("file".to_string(), false), ("sub".to_string(), true)]);
        }
        other => panic!("expected DirEntries, got {:?}", other),
    }
    match handle(&mut ctx, Request::Readdir { path: "/top/file".into() }, None, "x") {
        Response::Error { code, .. } => assert_eq!(code, ErrorCode::NotADirectory),
        other => panic!("expected Error, got {:?}", other),
    }
}

#[test]
fn readdir_fd_and_rename_and_rmdir() {
    let mut ctx = init_server();
    let _ = handle(&mut ctx, Request::Mkdir { path: "/d".into() }, None, "x");
    let fd = open(&mut ctx, "/d/f", O_CREAT | O_RDWR, None);
    let _ = handle(&mut ctx, Request::AppendWrite { fd, data: b"abc".to_vec() }, None, "x");
    let _ = handle(&mut ctx, Request::Close { fd }, None, "x");
    let r = handle(&mut ctx, Request::Rename { old_path: "/d/f".into(), new_path: "/d/g".into() }, None, "x");
    assert!(matches!(r, Response::Success));
    let dir = open(&mut ctx, "/d", O_RDONLY, None);
    match handle(&mut ctx, Request::ReaddirFd { fd: dir }, None, "x") {
        Response::DirEntries { entries } => {
            assert_eq!(entries.len(), 1);
            assert_eq!(entries[0].name, "g");
            assert!(!entries[0].is_dir);
        }
        other => panic!("expected DirEntries, got {:?}", other),
    }
    match handle(&mut ctx, Request::Rmdir { path: "/d".into() }, None, "x") {
        Response::Error { code, .. } => assert_eq!(code, ErrorCode::NotEmpty),
        other => panic!("expected Error, got {:?}", other),
    }
    match handle(&mut ctx, Request::Stat { path: "/d/g".into() }, None, "x") {
        Response::Metadata { metadata } => assert_eq!(metadata.size, 3),
        other => panic!("expected Metadata, got {:?}", other),
    }
}

#[test]
fn ftruncate_then_fstat_reports_size() {
    let mut ctx = init_server();
    let fd = open(&mut ctx, "/t", O_CREAT | O_RDWR, None);
    assert!(matches!(handle(&mut ctx, Request::Ftruncate { fd, size: 10 }, None, "x"), Response::Success));
    match handle(&mut ctx, Request::Fstat { fd }, None, "x") {
        Response::Metadata { metadata } => {
            assert_eq!(metadata.size, 10);
            assert!(!metadata.is_dir);
        }
        other => panic!("expected Metadata, got {:?}", other),
    }
}

#[test]
fn write_on_read_only_descriptor_is_denied() {
    let mut ctx = init_server();
    let fd = open(&mut ctx, "/r", O_CREAT | O_RDONLY, None);
    match handle(&mut ctx, Request::Write { fd, data: b"x".to_vec() }, None, "x") {
        Response::Error { code, .. } => assert_eq!(code, ErrorCode::PermissionDenied),
        other => panic!("expected Error, got {:?}", other),
    }
}

#[test]
fn clients_see_each_others_writes() {
    let mut ctx = init_server();
    let w = open(&mut ctx, "/shared.txt", O_RDWR | O_CREAT, Some("writer"));
    let r = open(&mut ctx, "/shared.txt", O_RDONLY, Some("reader"));
    match handle(&mut ctx, Request::Write { fd: w, data: b"from A".to_vec() }, Some("writer"), "x") {
        Response::Written { count } => assert_eq!(count, 6),
        other => panic!("expected Written, got {:?}", other),
    }
    match handle(&mut ctx, Request::Seek { fd: r, offset: 0, whence: 0 }, Some("reader"), "x") {
        Response::Position { pos } => assert_eq!(pos, 0),
        other => panic!("expected Position, got {:?}", other),
    }
    match handle(&mut ctx, Request::Read { fd: r, length: 6 }, Some("reader"), "x") {
        Response::Data { bytes } => assert_eq!(bytes, b"from A".to_vec()),
        other => panic!("expected Data, got {:?}", other),
    }
}

#[test]
fn snapshot_server_starts_from_the_snapshot() {
    let mut fs = monaka_vfs::fs::Fs::new();
    fs.mkdir("/etc").unwrap();
    let mut ctx = monaka_vfs::server::init_server_from_snapshot(fs.to_snapshot());
    match handle(&mut ctx, Request::Stat { path: "/etc".into() }, None, "x") {
        Response::Metadata { metadata } => assert!(metadata.is_dir),
        other => panic!("expected Metadata, got {:?}", other),
    }
}

#[test]
fn map_sync_error_translates_each_variant() {
    let busy = map_sync_error(
        SyncError::Busy { path: "/a".into(), holder: None },
        "resource busy: /a".to_string(),
    );
    assert!(matches!(busy, Response::Error { code: ErrorCode::Busy, .. }));
    let conflict = map_sync_error(
        SyncError::Conflict { path: "/a".into(), refreshed: true },
        "conflict on /a".to_string(),
    );
    assert!(matches!(conflict, Response::Error { code: ErrorCode::Conflict, .. }));
    let fs = map_sync_error(
        SyncError::Fs { path: "/a".into(), message: "x".into() },
        "filesystem error on /a: x".to_string(),
    );
    assert!(matches!(fs, Response::Error { code: ErrorCode::Io, .. }));
}

#[test]
fn map_sync_error_keeps_the_text_and_reads_store_failures_as_io() {
    match map_sync_error(SyncError::S3("timeout".into()), "object store: timeout".to_string()) {
        Response::Error { code, message } => {
            assert_eq!(code, ErrorCode::Io);
            assert_eq!(message, "object store: timeout");
        }
        other => panic!("expected an error reply, got {:?}", other),
    }
}

#[test]
fn held_session_id_changes_nothing_but_a_connect() {
    let mut c1 = init_server();
    let mut c2 = init_server();
    let requests = vec![
        Request::OpenPath { path: "/x".into(), flags: O_CREAT | O_RDWR },
        Request::Write { fd: 3, data: b"abc".to_vec() },
        Request::Stat { path: "/x".into() },
        Request::Fstat { fd: 3 },
        Request::Close { fd: 3 },
        Request::Readdir { path: "/".into() },
    ];
    for req in requests {
        let r1 = handle(&mut c1, req.clone(), Some("s"), "first");
        let r2 = handle(&mut c2, req, Some("s"), "second");
        assert_eq!(format!("{:?}", r1), format!("{:?}", r2));
    }
    let r1 = handle(&mut c1, Request::Connect { version: PROTOCOL_VERSION }, None, "first");
    let r2 = handle(&mut c2, Request::Connect { version: PROTOCOL_VERSION }, None, "second");
    assert_ne!(format!("{:?}", r1), format!("{:?}", r2));
}

#[test]
fn timestamps_come_from_the_counter_in_order() {
    // A fresh server stamped its root with 0; the next stamps are 1, 2, ...
    let mut ctx = init_server();
    let fd = match handle(&mut ctx, Request::OpenPath { path: "/x".into(), flags: O_CREAT | O_RDWR }, None, "n") {
        Response::Fd { fd } => fd,
        other => panic!("expected Fd, got {:?}", other),
    };
    assert!(matches!(handle(&mut ctx, Request::Write { fd, data: b"ab".to_vec() }, None, "n"), Response::Written { count: 2 }));
    // A refused request records no time.
    assert!(matches!(handle(&mut ctx, Request::Mkdir { path: "/x".into() }, None, "n"), Response::Error { .. }));
    assert!(matches!(handle(&mut ctx, Request::Mkdir { path: "/d".into() }, None, "n"), Response::Success));
    match handle(&mut ctx, Request::Stat { path: "/x".into() }, None, "n") {
        Response::Metadata { metadata } => {
            assert_eq!(metadata.created, 1);
            assert_eq!(metadata.modified, 2);
        }
        other => panic!("expected Metadata, got {:?}", other),
    }
    match handle(&mut ctx, Request::Stat { path: "/d".into() }, None, "n") {
        Response::Metadata { metadata } => assert_eq!(metadata.created, 3),
        other => panic!("expected Metadata, got {:?}", other),
    }
}
