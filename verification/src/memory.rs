//! Sources, sinks and progress observers held in memory, each giving the
//! model its trait describes.

use vstd::prelude::*;

use crate::io::{BackendCapabilities, BlockSink, BlockSource, ProgressObserver, ReadCall, SinkCall};

verus! {

/// A source whose bytes are held in memory, with random access.
pub struct MemorySource {
    data: Vec<u8>,
    block_size: usize,
    log: Ghost<Seq<ReadCall>>,
}

impl MemorySource {
    /// A source holding `data`, reporting `block_size`, with no read made yet.
    pub fn new(data: Vec<u8>, block_size: usize) -> (r: MemorySource)
        ensures
            r.keeps_model(),
            r.content() == data@,
            r.reads() == Seq::<ReadCall>::empty(),
            r.spec_block_size() == block_size,
            r.spec_capabilities() == (BackendCapabilities { random_access: true, requires_elevation: false }),
            r.len_result() == Ok::<u64, std::io::Error>(data@.len() as u64),
    {
        MemorySource { data, block_size, log: Ghost(Seq::empty()) }
    }
}

impl BlockSource for MemorySource {
    closed spec fn keeps_model(&self) -> bool {
        true
    }

    closed spec fn content(&self) -> Seq<u8> {
        self.data@
    }

    closed spec fn len_result(&self) -> Result<u64, std::io::Error> {
        Ok(self.data@.len() as u64)
    }

    closed spec fn reads(&self) -> Seq<ReadCall> {
        self.log@
    }

    closed spec fn spec_block_size(&self) -> usize {
        self.block_size
    }

    closed spec fn spec_capabilities(&self) -> BackendCapabilities {
        BackendCapabilities { random_access: true, requires_elevation: false }
    }

    fn len(&self) -> (result: std::io::Result<u64>) {
        Ok(self.data.len() as u64)
    }

    fn block_size(&self) -> (result: usize) {
        self.block_size
    }

    fn capabilities(&self) -> (result: BackendCapabilities) {
        BackendCapabilities { random_access: true, requires_elevation: false }
    }

    /// Copies the bytes from `offset` on, as many as fit in `buf`; none at
    /// or past the end.
    fn read_at(&mut self, offset: u64, buf: &mut [u8]) -> (result: std::io::Result<usize>) {
        let len = self.data.len();
        let mut start: usize = len;
        let mut n: usize = 0;
        if offset < len as u64 {
            start = offset as usize;
            let rest = len - start;
            n = if rest < buf.len() { rest } else { buf.len() };
        }
        let mut i: usize = 0;
        let buf_len = buf.len();
        while i < n
            invariant
                len == self.data@.len(),
                start + n <= self.data@.len(),
                n <= buf@.len(),
                buf@.len() == old(buf)@.len(),
                i <= n,
                forall|j: int| 0 <= j < i ==> buf@[j] == self.data@[start + j],
            decreases n - i,
        {
            buf[i] = self.data[start + i];
            i = i + 1;
        }
        if n > 0 {
            assert(buf@.take(n as int) =~= self.data@.subrange(offset as int, offset + n));
        }
        let result: std::io::Result<usize> = Ok(n);
        self.log = Ghost(self.log@.push(ReadCall { offset, len: buf_len, result }));
        result
    }
}

/// A sink held in memory, with random access, that grows as it is written.
pub struct MemorySink {
    data: Vec<u8>,
    fixed_len: u64,
    block_size: usize,
    log: Ghost<Seq<SinkCall>>,
}

impl MemorySink {
    /// An empty sink that reports `fixed_len` as its length and
    /// `block_size`, with no call made yet.
    pub fn new(fixed_len: u64, block_size: usize) -> (r: MemorySink)
        ensures
            r.keeps_model(),
            r.calls() == Seq::<SinkCall>::empty(),
            r.written() == Seq::<u8>::empty(),
            r.spec_block_size() == block_size,
            r.spec_capabilities() == (BackendCapabilities { random_access: true, requires_elevation: false }),
            r.len_result() == Ok::<u64, std::io::Error>(fixed_len),
    {
        MemorySink { data: Vec::new(), fixed_len, block_size, log: Ghost(Seq::empty()) }
    }

    /// The bytes the sink holds: those written, at their offsets, with
    /// zeros where nothing was written below the highest.
    pub closed spec fn written(&self) -> Seq<u8> {
        self.data@
    }

    pub fn bytes(&self) -> (r: &[u8])
        ensures
            r@ == self.written(),
    {
        self.data.as_slice()
    }
}

impl BlockSink for MemorySink {
    closed spec fn keeps_model(&self) -> bool {
        true
    }

    closed spec fn len_result(&self) -> Result<u64, std::io::Error> {
        Ok(self.fixed_len)
    }

    closed spec fn calls(&self) -> Seq<SinkCall> {
        self.log@
    }

    closed spec fn spec_block_size(&self) -> usize {
        self.block_size
    }

    closed spec fn spec_capabilities(&self) -> BackendCapabilities {
        BackendCapabilities { random_access: true, requires_elevation: false }
    }

    fn len(&self) -> (result: std::io::Result<u64>) {
        Ok(self.fixed_len)
    }

    fn block_size(&self) -> (result: usize) {
        self.block_size
    }

    fn capabilities(&self) -> (result: BackendCapabilities) {
        BackendCapabilities { random_access: true, requires_elevation: false }
    }

    /// Places all of `buf` at `offset`, growing the held bytes with zeros
    /// up to it; a write that would end past the largest `usize` takes
    /// nothing.
    fn write_at(&mut self, offset: u64, buf: &[u8]) -> (result: std::io::Result<usize>) {
        let count = buf.len();
        let mut taken: usize = 0;
        if offset <= (usize::MAX - count) as u64 {
            let start = offset as usize;
            let end = start + count;
            while self.data.len() < end
                invariant
                    end == start + count,
                    self.log == old(self).log,
                decreases end - self.data@.len(),
            {
                self.data.push(0);
            }
            let mut i: usize = 0;
            while i < count
                invariant
                    count == buf@.len(),
                    end == start + count,
                    end <= self.data@.len(),
                    self.log == old(self).log,
                    i <= count,
                decreases count - i,
            {
                self.data.set(start + i, buf[i]);
                i = i + 1;
            }
            taken = count;
        }
        let result: std::io::Result<usize> = Ok(taken);
        self.log = Ghost(self.log@.push(SinkCall::Write { offset, data: buf@, result }));
        result
    }

    fn flush(&mut self) -> (result: std::io::Result<()>) {
        let result: std::io::Result<()> = Ok(());
        self.log = Ghost(self.log@.push(SinkCall::Flush { outcome: result }));
        result
    }
}

/// A progress observer that keeps every report.
pub struct ProgressLog {
    entries: Vec<(u64, u64)>,
}

impl ProgressLog {
    pub fn new() -> (r: ProgressLog)
        ensures
            r.keeps_model(),
            r.reports() == Seq::<(u64, u64)>::empty(),
    {
        ProgressLog { entries: Vec::new() }
    }

    /// The reports received, in order.
    pub fn entries(&self) -> (r: &Vec<(u64, u64)>)
        ensures
            r@ == self.reports(),
    {
        &self.entries
    }
}

impl ProgressObserver for ProgressLog {
    closed spec fn keeps_model(&self) -> bool {
        true
    }

    closed spec fn reports(&self) -> Seq<(u64, u64)> {
        self.entries@
    }

    fn report(&mut self, copied: u64, total: u64) {
        self.entries.push((copied, total));
    }
}

} // verus!
