use monaka_vfs::adapter::{DescriptorType, WasiErrorCode};
use monaka_vfs::protocol::{DirEntry, ErrorCode, FileMetadata, Response};
use monaka_vfs::rpc_client::{
    entries_reply, guest_path, open_reply, position_reply, read_reply, stat_reply, type_reply,
    unit_reply, written_reply, OpenStep,
};

fn err(code: ErrorCode) -> Response {
    Response::Error { code, message: "m".to_string() }
}

fn meta(is_dir: bool, size: u64) -> Response {
    Response::Metadata { metadata: FileMetadata { size, created: 1, modified: 2, is_dir } }
}

#[test]
fn paths_from_the_root_are_made_absolute() {
    assert_eq!(guest_path(0, "a/b".to_string()), "/a/b");
    assert_eq!(guest_path(0, "//a".to_string()), "/a");
    assert_eq!(guest_path(3, "a/b".to_string()), "a/b");
}

#[test]
fn replies_of_the_expected_kind() {
    assert_eq!(unit_reply(&Response::Success), Ok(()));
    assert_eq!(position_reply(&Response::Position { pos: 9 }), Ok(()));
    assert_eq!(type_reply(&meta(true, 0)), Ok(DescriptorType::Directory));
    assert_eq!(type_reply(&meta(false, 0)), Ok(DescriptorType::RegularFile));
    let st = stat_reply(&meta(false, 42)).unwrap();
    assert_eq!((st.size, st.link_count, st.data_access_timestamp), (42, 1, None));
    assert_eq!(written_reply(&Response::Written { count: 7 }), Ok(7));
    assert_eq!(read_reply(Response::Data { bytes: vec![1, 2] }, 2), Ok((vec![1, 2], false)));
    assert_eq!(read_reply(Response::Data { bytes: vec![1] }, 4), Ok((vec![1], true)));
    let listing = Response::DirEntries {
        entries: vec![
            DirEntry { name: "d".to_string(), is_dir: true },
            DirEntry { name: "f".to_string(), is_dir: false },
        ],
    };
    assert_eq!(
        entries_reply(&listing),
        Ok(vec![("d".to_string(), true), ("f".to_string(), false)])
    );
}

#[test]
fn error_and_unexpected_replies() {
    assert_eq!(unit_reply(&err(ErrorCode::NotFound)), Err(WasiErrorCode::NoEntry));
    assert_eq!(unit_reply(&Response::Fd { fd: 1 }), Err(WasiErrorCode::Io));
    assert_eq!(type_reply(&err(ErrorCode::BadFileDescriptor)), Err(WasiErrorCode::BadDescriptor));
    assert_eq!(written_reply(&Response::Success), Err(WasiErrorCode::Io));
    assert_eq!(read_reply(err(ErrorCode::PermissionDenied), 1), Err(WasiErrorCode::Access));
    assert_eq!(entries_reply(&err(ErrorCode::NotADirectory)), Err(WasiErrorCode::NotDirectory));
}

#[test]
fn busy_opens_retry_until_the_schedule_ends() {
    assert_eq!(open_reply(&Response::Fd { fd: 5 }, Some(20)), OpenStep::Opened(5));
    assert_eq!(open_reply(&err(ErrorCode::Busy), Some(20)), OpenStep::Retry(20));
    assert_eq!(open_reply(&err(ErrorCode::Busy), None), OpenStep::Failed(WasiErrorCode::Busy));
    assert_eq!(
        open_reply(&err(ErrorCode::Conflict), Some(20)),
        OpenStep::Failed(WasiErrorCode::NotRecoverable)
    );
    assert_eq!(open_reply(&Response::Success, None), OpenStep::Failed(WasiErrorCode::Io));
}
