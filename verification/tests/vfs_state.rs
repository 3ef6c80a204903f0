use monaka_vfs::adapter::WasiErrorCode;
use monaka_vfs::fs::Fs;
use monaka_vfs::vfs_state::VfsState;

#[test]
fn root_descriptor_is_registered() {
    let s = VfsState::new();
    assert_eq!(s.get_fd(0), Ok(0));
    assert_eq!(s.get_fd(1), Err(WasiErrorCode::BadDescriptor));
    assert!(s.get_path(0).is_none());
}

#[test]
fn descriptors_are_handed_out_in_order_and_released() {
    let mut s = VfsState::new();
    let a = s.allocate_descriptor(7);
    let b = s.allocate_descriptor_with_path(8, "/f".to_string());
    assert_eq!((a, b), (1, 2));
    assert_eq!(s.get_fd(a), Ok(7));
    assert_eq!(s.get_path(b).map(|p| p.as_str()), Some("/f"));
    s.release_descriptor(b);
    assert_eq!(s.get_fd(b), Err(WasiErrorCode::BadDescriptor));
    assert!(s.get_path(b).is_none());
}

#[test]
fn dirty_descriptors_are_synchronised_once() {
    let mut s = VfsState::new();
    let d = s.allocate_descriptor_with_path(5, "/data".to_string());
    assert_eq!(s.sync_if_dirty(d), None);
    s.mark_dirty(d);
    assert_eq!(s.sync_if_dirty(d), Some("/data".to_string()));
    assert_eq!(s.sync_if_dirty(d), None);
}

#[test]
fn dropping_a_descriptor_closes_its_file() {
    let mut fs = Fs::new();
    let fd = fs.open_path("/f").unwrap();
    let mut s = VfsState::new();
    let d = s.allocate_descriptor_with_path(fd, "/f".to_string());
    s.mark_dirty(d);
    assert_eq!(s.descriptor_dropped(&mut fs, 0), None);
    assert_eq!(s.get_fd(0), Ok(0));
    assert_eq!(s.descriptor_dropped(&mut fs, d), Some("/f".to_string()));
    assert!(fs.fstat(fd).is_err());
    assert_eq!(s.get_fd(d), Err(WasiErrorCode::BadDescriptor));
}
