use monaka_vfs::adapter::WasiErrorCode;
use monaka_vfs::rpc_streams::{
    FileInputStream, FileOutputStream, FlushRequest, ReadPlan, READ_AHEAD_SIZE,
};

fn fetch(p: ReadPlan) -> (u64, usize) {
    match p {
        ReadPlan::Fetch { offset, length } => (offset, length),
        ReadPlan::Cached(_) => panic!("expected a fetch"),
    }
}

fn cached(p: ReadPlan) -> Vec<u8> {
    match p {
        ReadPlan::Cached(v) => v,
        ReadPlan::Fetch { .. } => panic!("expected cached bytes"),
    }
}

#[test]
fn first_read_fetches_exactly_what_is_asked() {
    let mut s = FileInputStream::new(1, 10);
    assert_eq!(fetch(s.plan_read(4)), (10, 4));
    assert_eq!(s.complete_read(4, Ok(vec![1, 2, 3, 4])), Some(vec![1, 2, 3, 4]));
    assert_eq!(s.offset, 14);
    assert_eq!(s.buf_offset, 10);
}

#[test]
fn sequential_reads_fetch_ahead_and_hit_the_buffer() {
    let mut s = FileInputStream::new(1, 0);
    fetch(s.plan_read(2));
    s.complete_read(2, Ok(vec![1, 2])).unwrap();
    assert_eq!(fetch(s.plan_read(3)), (2, READ_AHEAD_SIZE));
    let ahead: Vec<u8> = (3..=12).collect();
    assert_eq!(s.complete_read(3, Ok(ahead)), Some(vec![3, 4, 5]));
    assert_eq!(cached(s.plan_read(4)), vec![6, 7, 8, 9]);
    assert_eq!(s.offset, 9);
    assert_eq!(cached(s.plan_read(3)), vec![10, 11, 12]);
    assert_eq!(fetch(s.plan_read(1)), (12, READ_AHEAD_SIZE));
}

#[test]
fn short_empty_and_failed_fetches() {
    let mut s = FileInputStream::new(1, 0);
    fetch(s.plan_read(8));
    assert_eq!(s.complete_read(8, Ok(vec![7, 7])), Some(vec![7, 7]));
    assert_eq!(s.offset, 2);
    fetch(s.plan_read(8));
    assert_eq!(s.complete_read(8, Ok(vec![])), None);
    assert_eq!(s.offset, 2);
    assert_eq!(s.complete_read(8, Err(WasiErrorCode::Io)), None);
    assert_eq!(s.skip(5), 5);
    assert_eq!(s.offset, 7);
}

#[test]
fn output_stream_collects_until_flushed() {
    let mut s = FileOutputStream::new(2, 100, false);
    assert_eq!(s.check_write(), 65536);
    assert!(s.take_flush().is_none());
    s.write(vec![1, 2]);
    s.write_zeroes(2);
    s.write(vec![3]);
    match s.take_flush() {
        Some(FlushRequest::WriteAt { offset, data }) => {
            assert_eq!(offset, 100);
            assert_eq!(data, vec![1, 2, 0, 0, 3]);
        }
        _ => panic!("expected a write at the offset"),
    }
    assert!(s.buffer.is_empty());
    s.flush_done(5, true);
    assert_eq!(s.offset, 105);
    s.flush_done(5, false);
    assert_eq!(s.offset, 105);
}

#[test]
fn append_stream_sends_appends() {
    let mut s = FileOutputStream::new(2, 0, true);
    s.write(vec![9]);
    match s.take_flush() {
        Some(FlushRequest::Append(data)) => assert_eq!(data, vec![9]),
        _ => panic!("expected an append"),
    }
    s.flush_done(1, true);
    assert_eq!(s.offset, 0);
}
