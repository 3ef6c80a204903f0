//! The byte streams of the RPC adapter: reads served from a read-ahead
//! buffer where they can be, writes collected and sent in one request.
//! The requests themselves are made by the caller, which reports back
//! what came of them.

use vstd::prelude::*;
use crate::adapter::WasiErrorCode;

verus! {

/// How much a sequential read fetches at least.
pub const READ_AHEAD_SIZE: usize = 262144;

/// How much a write stream says it accepts at once.
pub const WRITE_CHUNK: u64 = 65536;

/// What a read needs.
pub enum ReadPlan {
    /// The bytes, served from the read-ahead buffer.
    Cached(Vec<u8>),
    /// A fetch of `length` bytes at `offset` from the server.
    Fetch { offset: u64, length: usize },
}

/// A stream reading a file of the server from some offset.
pub struct FileInputStream {
    /// The guest descriptor read.
    pub handle: u32,
    /// Where the next read starts.
    pub offset: u64,
    /// The bytes last fetched, kept for the reads that follow.
    pub buf: Vec<u8>,
    /// The offset of the first byte of `buf`.
    pub buf_offset: u64,
}

/// Whether a read of `len` bytes at `at` lies within the buffer of `bytes`
/// starting at `start`.
pub open spec fn in_buffer(at: u64, len: int, start: u64, bytes: Seq<u8>) -> bool {
    at >= start && at + len <= start + bytes.len()
}

/// Whether a read at `at` continues right where the buffer ends.
pub open spec fn continues_buffer(at: u64, start: u64, bytes: Seq<u8>) -> bool {
    bytes.len() > 0 && at == start + bytes.len()
}

impl FileInputStream {
    /// A stream on `handle` starting at `offset`, with nothing buffered.
    pub fn new(handle: u32, offset: u64) -> (s: Self)
        ensures
            s.handle == handle,
            s.offset == offset,
            s.buf@ == Seq::<u8>::empty(),
            s.buf_offset == 0,
    {
        FileInputStream { handle, offset, buf: Vec::new(), buf_offset: 0 }
    }

    /// Serve a read of `len` bytes from the buffer when it holds them all,
    /// moving the offset past them; otherwise say what to fetch: just the
    /// bytes asked for, or at least a read-ahead's worth when the read
    /// continues right after the buffer.
    pub fn plan_read(&mut self, len: u64) -> (p: ReadPlan)
        requires
            old(self).offset + (len as usize) <= u64::MAX,
        ensures
            final(self).handle == old(self).handle,
            final(self).buf@ == old(self).buf@,
            final(self).buf_offset == old(self).buf_offset,
            ({
                let want = (len as usize) as int;
                let at = old(self).offset;
                if in_buffer(at, want, old(self).buf_offset, old(self).buf@) {
                    &&& p matches ReadPlan::Cached(v) && v@ == old(self).buf@.subrange(
                        at - old(self).buf_offset,
                        at - old(self).buf_offset + want,
                    )
                    &&& final(self).offset == at + want
                } else {
                    &&& p matches ReadPlan::Fetch { offset, length } && offset == at && length == (
                    if continues_buffer(at, old(self).buf_offset, old(self).buf@) && want
                        < READ_AHEAD_SIZE {
                        READ_AHEAD_SIZE as int
                    } else {
                        want
                    })
                    &&& final(self).offset == at
                }
            }),
    {
        #[verifier::truncate]
        let want: usize = len as usize;
        let at = self.offset;
        let start = self.buf_offset;
        let end: u128 = start as u128 + self.buf.len() as u128;
        if at >= start && at as u128 + want as u128 <= end {
            let local = (at - start) as usize;
            let blen = self.buf.len();
            let mut v: Vec<u8> = Vec::new();
            let mut i: usize = 0;
            while i < want
                invariant
                    i <= want,
                    blen == self.buf@.len(),
                    local + want <= blen,
                    v@ == self.buf@.subrange(local as int, local + i),
                decreases want - i,
            {
                v.push(self.buf[local + i]);
                assert(v@ =~= self.buf@.subrange(local as int, local + i + 1));
                i = i + 1;
            }
            self.offset = at + want as u64;
            return ReadPlan::Cached(v);
        }
        let sequential = self.buf.len() > 0 && at as u128 == end;
        let length = if sequential && want < READ_AHEAD_SIZE {
            READ_AHEAD_SIZE
        } else {
            want
        };
        ReadPlan::Fetch { offset: at, length }
    }

    /// Take in what a fetch for a read of `len` bytes gave. Bytes keep
    /// the buffer from the offset on, and the first `len` of them are the
    /// read; a failed or empty fetch closes the stream (`None`) and changes
    /// nothing.
    pub fn complete_read(&mut self, len: u64, fetched: Result<Vec<u8>, WasiErrorCode>) -> (r:
        Option<Vec<u8>>)
        requires
            old(self).offset + (len as usize) <= u64::MAX,
        ensures
            final(self).handle == old(self).handle,
            match fetched {
                Ok(bytes) => if bytes@.len() == 0 {
                    r is None && *final(self) == *old(self)
                } else {
                    let n = if bytes@.len() < (len as usize) {
                        bytes@.len() as int
                    } else {
                        (len as usize) as int
                    };
                    &&& r matches Some(v) && v@ == bytes@.take(n)
                    &&& final(self).buf@ == bytes@
                    &&& final(self).buf_offset == old(self).offset
                    &&& final(self).offset == old(self).offset + n
                },
                Err(_) => r is None && *final(self) == *old(self),
            },
    {
        #[verifier::truncate]
        let want: usize = len as usize;
        match fetched {
            Err(_) => None,
            Ok(bytes) => {
                if bytes.len() == 0 {
                    return None;
                }
                let n = if bytes.len() < want {
                    bytes.len()
                } else {
                    want
                };
                let mut v: Vec<u8> = Vec::new();
                let mut i: usize = 0;
                while i < n
                    invariant
                        i <= n,
                        n <= bytes@.len(),
                        v@ == bytes@.take(i as int),
                    decreases n - i,
                {
                    v.push(bytes[i]);
                    assert(v@ =~= bytes@.take(i + 1));
                    i = i + 1;
                }
                let at = self.offset;
                self.buf_offset = at;
                self.buf = bytes;
                self.offset = at + n as u64;
                Some(v)
            },
        }
    }

    /// Skip `len` bytes.
    pub fn skip(&mut self, len: u64) -> (n: u64)
        requires
            old(self).offset + len <= u64::MAX,
        ensures
            n == len,
            final(self).offset == old(self).offset + len,
            final(self).buf@ == old(self).buf@,
            final(self).buf_offset == old(self).buf_offset,
            final(self).handle == old(self).handle,
    {
        self.offset = self.offset + len;
        len
    }
}

/// What sending the collected bytes of a write stream asks of the server.
pub enum FlushRequest {
    /// Append the bytes to the file.
    Append(Vec<u8>),
    /// Write the bytes at `offset`.
    WriteAt { offset: u64, data: Vec<u8> },
}

/// A stream writing a file of the server: the bytes written are collected
/// and sent together when the stream is flushed.
pub struct FileOutputStream {
    /// The guest descriptor written.
    pub handle: u32,
    /// Where the collected bytes go, unless appending.
    pub offset: u64,
    /// Whether the bytes go to the end of the file.
    pub append: bool,
    /// The bytes written since the last flush.
    pub buffer: Vec<u8>,
}

impl FileOutputStream {
    /// A stream on `handle` writing at `offset`, or appending.
    pub fn new(handle: u32, offset: u64, append: bool) -> (s: Self)
        ensures
            s.handle == handle,
            s.offset == offset,
            s.append == append,
            s.buffer@ == Seq::<u8>::empty(),
    {
        FileOutputStream { handle, offset, append, buffer: Vec::new() }
    }

    /// How many bytes the stream accepts at once.
    pub fn check_write(&self) -> (n: u64)
        ensures
            n == WRITE_CHUNK,
    {
        WRITE_CHUNK
    }

    /// Collect `contents`; nothing is sent and the offset stays.
    pub fn write(&mut self, contents: Vec<u8>)
        ensures
            final(self).buffer@ == old(self).buffer@ + contents@,
            final(self).offset == old(self).offset,
            final(self).append == old(self).append,
            final(self).handle == old(self).handle,
    {
        let mut contents = contents;
        self.buffer.append(&mut contents);
    }

    /// Collect `len` zero bytes.
    pub fn write_zeroes(&mut self, len: u64)
        ensures
            final(self).buffer@ == old(self).buffer@ + Seq::new(
                (len as usize) as nat,
                |i: int| 0u8,
            ),
            final(self).offset == old(self).offset,
            final(self).append == old(self).append,
            final(self).handle == old(self).handle,
    {
        #[verifier::truncate]
        let n: usize = len as usize;
        let zeroes = vec![0u8; n];
        assert(zeroes@ =~= Seq::new(n as nat, |i: int| 0u8));
        self.write(zeroes);
    }

    /// Take the collected bytes for sending: nothing when none were
    /// collected, otherwise an append or a write at the offset.
    pub fn take_flush(&mut self) -> (r: Option<FlushRequest>)
        ensures
            final(self).buffer@ == Seq::<u8>::empty(),
            final(self).offset == old(self).offset,
            final(self).append == old(self).append,
            final(self).handle == old(self).handle,
            old(self).buffer@.len() == 0 ==> r is None,
            old(self).buffer@.len() > 0 && old(self).append ==> (r matches Some(
                FlushRequest::Append(data),
            ) && data@ == old(self).buffer@),
            old(self).buffer@.len() > 0 && !old(self).append ==> (r matches Some(
                FlushRequest::WriteAt { offset, data },
            ) && offset == old(self).offset && data@ == old(self).buffer@),
    {
        let mut data: Vec<u8> = Vec::new();
        std::mem::swap(&mut data, &mut self.buffer);
        if data.len() == 0 {
            return None;
        }
        if self.append {
            Some(FlushRequest::Append(data))
        } else {
            Some(FlushRequest::WriteAt { offset: self.offset, data })
        }
    }

    /// After sending `len` collected bytes: a write at the offset that
    /// succeeded moves the offset past them.
    pub fn flush_done(&mut self, len: usize, succeeded: bool)
        requires
            old(self).offset + len <= u64::MAX,
        ensures
            final(self).offset == (if succeeded && !old(self).append {
                old(self).offset + len
            } else {
                old(self).offset as int
            }),
            final(self).buffer@ == old(self).buffer@,
            final(self).append == old(self).append,
            final(self).handle == old(self).handle,
    {
        if succeeded && !self.append {
            self.offset = self.offset + len as u64;
        }
    }
}

} // verus!
