//! The client side: paths, flags, error codes, retry pacing and the table
//! of guest descriptors.

use monaka_vfs::adapter::{
    busy_backoff_schedule, convert_flags, make_descriptor_stat, make_descriptor_stat_with_times,
    rpc_error_to_wasi, to_error_code, DescriptorType, RpcState, WasiErrorCode,
};
use monaka_vfs::inode::Metadata;
use monaka_vfs::path::normalize_path;
use monaka_vfs::protocol::ErrorCode as RpcErrorCode;
use monaka_vfs::types::FsError;

#[test]
fn normalize_path_adds_leading_slash() {
    assert_eq!(normalize_path("foo/bar"), "/foo/bar");
}

#[test]
fn normalize_path_keeps_single_leading_slash() {
    assert_eq!(normalize_path("/foo/bar"), "/foo/bar");
}

#[test]
fn normalize_path_collapses_repeated_leading_slashes() {
    assert_eq!(normalize_path("///foo"), "/foo");
}

#[test]
fn normalize_path_handles_empty() {
    assert_eq!(normalize_path(""), "/");
}

#[test]
fn lib_normalize_path_adds_leading_slash() {
    assert_eq!(normalize_path("foo/bar"), "/foo/bar");
}

#[test]
fn lib_normalize_path_keeps_single_leading_slash() {
    assert_eq!(normalize_path("/foo/bar"), "/foo/bar");
}

#[test]
fn lib_normalize_path_collapses_repeated_leading_slashes() {
    assert_eq!(normalize_path("///foo"), "/foo");
}

#[test]
fn lib_normalize_path_handles_empty() {
    assert_eq!(normalize_path(""), "/");
}

#[test]
fn rpc_error_maps_lock_codes() {
    assert!(matches!(rpc_error_to_wasi(RpcErrorCode::Busy), WasiErrorCode::Busy));
    assert!(matches!(rpc_error_to_wasi(RpcErrorCode::Conflict), WasiErrorCode::NotRecoverable));
    assert!(matches!(rpc_error_to_wasi(RpcErrorCode::NetworkError), WasiErrorCode::Io));
}

#[test]
fn rpc_error_maps_known_codes() {
    assert!(matches!(rpc_error_to_wasi(RpcErrorCode::NotFound), WasiErrorCode::NoEntry));
    assert!(matches!(rpc_error_to_wasi(RpcErrorCode::NotADirectory), WasiErrorCode::NotDirectory));
    assert!(matches!(rpc_error_to_wasi(RpcErrorCode::IsADirectory), WasiErrorCode::IsDirectory));
    assert!(matches!(rpc_error_to_wasi(RpcErrorCode::PermissionDenied), WasiErrorCode::Access));
    assert!(matches!(rpc_error_to_wasi(RpcErrorCode::AlreadyExists), WasiErrorCode::Exist));
    assert!(matches!(rpc_error_to_wasi(RpcErrorCode::NotEmpty), WasiErrorCode::NotEmpty));
}

#[test]
fn to_error_code_maps_all_variants() {
    assert!(matches!(to_error_code(FsError::NotFound), WasiErrorCode::NoEntry));
    assert!(matches!(to_error_code(FsError::NotADirectory), WasiErrorCode::NotDirectory));
    assert!(matches!(to_error_code(FsError::IsADirectory), WasiErrorCode::IsDirectory));
    assert!(matches!(to_error_code(FsError::InvalidArgument), WasiErrorCode::Invalid));
    assert!(matches!(to_error_code(FsError::BadFileDescriptor), WasiErrorCode::BadDescriptor));
    assert!(matches!(to_error_code(FsError::PermissionDenied), WasiErrorCode::Access));
    assert!(matches!(to_error_code(FsError::AlreadyExists), WasiErrorCode::Exist));
    assert!(matches!(to_error_code(FsError::NotEmpty), WasiErrorCode::NotEmpty));
}

#[test]
fn busy_backoff_schedule_is_bounded_by_budget() {
    let s = busy_backoff_schedule(1000);
    assert_eq!(s.iter().sum::<u64>(), 1000);
    assert_eq!(s[0], 20);
    assert!(s.iter().all(|d| *d <= 500));
    assert!(busy_backoff_schedule(0).is_empty());
}

#[test]
fn busy_backoff_schedule_doubles_then_caps() {
    assert_eq!(busy_backoff_schedule(1000), vec![20, 40, 80, 160, 320, 380]);
    assert_eq!(busy_backoff_schedule(10), vec![10]);
    assert_eq!(busy_backoff_schedule(2000), vec![20, 40, 80, 160, 320, 500, 500, 380]);
}

#[test]
fn descriptor_drop_without_streams_releases_immediately() {
    let mut state = RpcState::new();
    let h = state.allocate_descriptor(7, 0x41);
    assert_eq!(state.flags_of(h), Some(0x41));
    assert_eq!(state.descriptor_dropped(h), Some(7));
    assert!(state.get_server_fd(h).is_err());
}

#[test]
fn descriptor_drop_with_live_stream_defers_close_to_stream_drop() {
    let mut state = RpcState::new();
    let h = state.allocate_descriptor(9, 0x1);
    state.stream_opened(h);

    assert_eq!(state.descriptor_dropped(h), None);
    assert!(state.get_server_fd(h).is_ok(), "mapping kept until flush");

    // The stream goes away.
    assert_eq!(state.live_stream_count(h), 1);
    assert_eq!(state.stream_closed(h), Some(9));
    assert!(state.get_server_fd(h).is_err());
}

#[test]
fn stream_drop_before_descriptor_drop_does_not_close_early() {
    let mut state = RpcState::new();
    let h = state.allocate_descriptor(3, 0x1);
    state.stream_opened(h);
    assert_eq!(state.stream_closed(h), None);
    assert!(state.get_server_fd(h).is_ok());
    assert_eq!(state.descriptor_dropped(h), Some(3));
}

#[test]
fn root_descriptor_is_never_released() {
    let state = RpcState::new();
    assert_eq!(state.get_server_fd(0).unwrap(), 0);
}

#[test]
fn two_streams_close_after_the_last() {
    let mut state = RpcState::new();
    let h = state.allocate_descriptor(11, 0x2);
    state.stream_opened(h);
    state.stream_opened(h);
    assert_eq!(state.descriptor_dropped(h), None);
    assert_eq!(state.stream_closed(h), None);
    assert_eq!(state.stream_closed(h), Some(11));
    assert_eq!(state.release(h), None);
}

#[test]
fn make_descriptor_stat_sets_directory_type() {
    let stat = make_descriptor_stat(true, 4096);
    assert!(matches!(stat.type_, DescriptorType::Directory));
    assert_eq!(stat.size, 4096);
    assert_eq!(stat.link_count, 1);
    assert!(stat.data_access_timestamp.is_none());
    assert!(stat.data_modification_timestamp.is_none());
    assert!(stat.status_change_timestamp.is_none());
}

#[test]
fn make_descriptor_stat_sets_regular_file_type() {
    let stat = make_descriptor_stat(false, 123);
    assert!(matches!(stat.type_, DescriptorType::RegularFile));
    assert_eq!(stat.size, 123);
}

#[test]
fn make_descriptor_stat_carries_metadata_timestamps() {
    let meta = Metadata { size: 42, created: 1000, modified: 2000, is_dir: false, permissions: 0o644 };
    let stat = make_descriptor_stat_with_times(DescriptorType::RegularFile, &meta);
    assert_eq!(stat.size, 42);
    assert_eq!(stat.data_access_timestamp, Some(1000));
    assert_eq!(stat.data_modification_timestamp, Some(2000));
    assert_eq!(stat.status_change_timestamp, Some(2000));
}

#[test]
fn convert_flags_default_is_rdonly() {
    let f = convert_flags(true, false, false, false);
    assert_eq!(f & 0x03, 0x00);
    assert_eq!(f & 0x40, 0);
    assert_eq!(f & 0x200, 0);
}

#[test]
fn convert_flags_write_only() {
    let f = convert_flags(false, true, false, false);
    assert_eq!(f & 0x03, 0x01);
}

#[test]
fn convert_flags_read_write() {
    let f = convert_flags(true, true, false, false);
    assert_eq!(f & 0x03, 0x02);
}

#[test]
fn convert_flags_create_and_trunc() {
    let f = convert_flags(false, true, true, true);
    assert_eq!(f & 0x40, 0x40);
    assert_eq!(f & 0x200, 0x200);
}

#[test]
fn convert_flags_rdonly_when_only_read_requested() {
    assert_eq!(convert_flags(true, false, false, false) & 0x3, 0x0);
}

#[test]
fn convert_flags_wronly_when_only_write_requested() {
    assert_eq!(convert_flags(false, true, false, false) & 0x3, 0x1);
}

#[test]
fn convert_flags_rdwr_when_both_requested() {
    assert_eq!(convert_flags(true, true, false, false) & 0x3, 0x2);
}

#[test]
fn convert_flags_passes_create_and_truncate() {
    let f = convert_flags(true, false, true, true);
    assert_eq!(f & 0x40, 0x40);
    assert_eq!(f & 0x200, 0x200);
}

#[test]
fn normalizing_twice_changes_nothing() {
    for p in ["", "a", "/a", "//a//b/", "///"] {
        let once = normalize_path(p);
        assert!(once.starts_with('/'));
        assert!(!once[1..].starts_with('/'));
        assert_eq!(normalize_path(&once), once);
    }
}

#[test]
fn host_stats_take_access_time_from_modification() {
    let meta = monaka_vfs::inode::Metadata {
        size: 10,
        created: 1,
        modified: 2,
        permissions: 0o644,
        is_dir: false,
    };
    let st = monaka_vfs::adapter::convert_metadata_to_stat(&meta);
    assert_eq!(st.type_, monaka_vfs::adapter::DescriptorType::RegularFile);
    assert_eq!(st.data_access_timestamp, Some(2));
    assert_eq!(st.data_modification_timestamp, Some(2));
    assert_eq!(st.status_change_timestamp, Some(1));
    assert_eq!((st.size, st.link_count), (10, 1));
}
