use monaka_vfs::adapter::{DescriptorType, WasiErrorCode};
use monaka_vfs::fs::Fs;
use monaka_vfs::vfs_adapter::{FileStream, VfsAdapter};

fn adapter() -> VfsAdapter<monaka_vfs::time::MonotonicCounter> {
    VfsAdapter::new(Fs::new())
}

#[test]
fn root_is_a_directory() {
    let a = adapter();
    assert_eq!(a.get_type(0), Ok(DescriptorType::Directory));
    let st = a.stat(0).unwrap();
    assert_eq!(st.type_, DescriptorType::Directory);
    assert_eq!(st.link_count, 1);
    assert_eq!(a.get_type(9), Err(WasiErrorCode::BadDescriptor));
}

#[test]
fn create_write_read_through_descriptors() {
    let mut a = adapter();
    let d = a.open_at(0, "notes.txt", true, true, true, false).unwrap();
    assert_eq!(d, 1);
    assert_eq!(a.get_type(d), Ok(DescriptorType::RegularFile));
    assert_eq!(a.write(d, b"hello world", 0), Ok(11));
    assert_eq!(a.write(d, b"W", 6), Ok(1));
    let (bytes, short) = a.read(d, 5, 6).unwrap();
    assert_eq!(bytes, b"World".to_vec());
    assert!(!short);
    let (bytes, short) = a.read(d, 100, 0).unwrap();
    assert_eq!(bytes, b"hello World".to_vec());
    assert!(short);
    let st = a.stat_at(0, "/notes.txt").unwrap();
    assert_eq!(st.size, 11);
    assert_eq!(st.type_, DescriptorType::RegularFile);
    assert_eq!(a.stat_at(d, "x"), Err(WasiErrorCode::Unsupported));
    a.set_size(d, 5).unwrap();
    assert_eq!(a.stat(d).unwrap().size, 5);
}

#[test]
fn opening_dot_opens_the_root() {
    let mut a = adapter();
    let d = a.open_at(0, ".", false, false, false, false).unwrap();
    assert_eq!(a.get_type(d), Ok(DescriptorType::Directory));
    let e = a.open_at(0, "/", false, false, false, false).unwrap();
    assert_eq!(e, d + 1);
    assert_eq!(a.open_at(0, "missing", true, false, false, false), Err(WasiErrorCode::NoEntry));
    assert_eq!(a.open_at(42, "x", true, false, false, false), Err(WasiErrorCode::BadDescriptor));
}

#[test]
fn directories_and_listings() {
    let mut a = adapter();
    a.create_directory_at(0, "dir").unwrap();
    assert_eq!(a.create_directory_at(0, "dir"), Err(WasiErrorCode::Exist));
    let f = a.open_at(0, "file", true, true, true, false).unwrap();
    assert_eq!(a.write(f, b"x", 0), Ok(1));
    let mut s = a.read_directory(0).unwrap();
    assert_eq!(s.next_entry(), Some((".".to_string(), true)));
    assert_eq!(s.next_entry(), Some(("..".to_string(), true)));
    assert_eq!(s.next_entry(), Some(("dir".to_string(), true)));
    assert_eq!(s.next_entry(), Some(("file".to_string(), false)));
    assert_eq!(s.next_entry(), None);
    let d = a.open_at(0, "dir", true, false, false, false).unwrap();
    let inner = a.open_at(d, "inner", true, true, true, false).unwrap();
    assert_eq!(a.get_type(inner), Ok(DescriptorType::RegularFile));
    let s = a.read_directory(d).unwrap();
    assert_eq!(s.entries.len(), 3);
    assert_eq!(s.entries[2], ("inner".to_string(), false));
    assert_eq!(a.read_directory(f).err(), Some(WasiErrorCode::NotDirectory));
    assert_eq!(a.remove_directory_at(0, "dir"), Err(WasiErrorCode::NotEmpty));
    assert_eq!(a.unlink_file_at(0, "dir/inner"), Ok(()));
    assert_eq!(a.remove_directory_at(0, "dir"), Ok(()));
    assert_eq!(a.rename_at(0, "file", "renamed"), Ok(()));
    assert_eq!(a.stat_at(0, "file").err(), Some(WasiErrorCode::NoEntry));
    assert_eq!(a.rename_at(d, "a", "b"), Err(WasiErrorCode::Unsupported));
}

#[test]
fn metadata_hashes_follow_size_and_time() {
    let mut a = adapter();
    let d = a.open_at(0, "f", true, true, true, false).unwrap();
    let before = a.metadata_hash(d).unwrap();
    a.write(d, b"abc", 0).unwrap();
    let after = a.metadata_hash(d).unwrap();
    assert_eq!(after.0, 3);
    assert_ne!(before, after);
    assert_eq!(a.metadata_hash_at(0, "f"), Ok(after));
    assert_eq!(a.metadata_hash_at(d, "f"), Err(WasiErrorCode::Unsupported));
    assert_eq!(a.metadata_hash(0), Err(WasiErrorCode::BadDescriptor));
}

#[test]
fn file_streams_move_their_own_offset() {
    let mut fs = Fs::new();
    let fd = fs.open_path("/s").unwrap();
    let mut w = FileStream::new(fd, 0);
    assert!(w.write(&mut fs, b"abc"));
    assert!(w.write(&mut fs, b"def"));
    assert_eq!(w.offset, 6);
    assert_eq!(w.check_write(), 4096);
    let mut r = FileStream::new(fd, 1);
    assert_eq!(r.read(&mut fs, 3), Some(b"bcd".to_vec()));
    assert_eq!(r.offset, 4);
    assert_eq!(r.skip(1), 1);
    assert_eq!(r.read(&mut fs, 10), Some(b"f".to_vec()));
    assert_eq!(r.read(&mut fs, 10), Some(Vec::new()));
    let mut bad = FileStream::new(999, 0);
    assert_eq!(bad.read(&mut fs, 1), None);
    assert!(!bad.write(&mut fs, b"x"));
}
