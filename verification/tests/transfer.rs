use block_duplicator::io::{BackendCapabilities, BlockSink, BlockSource, ProgressObserver};
use block_duplicator::memory::{MemorySink, MemorySource, ProgressLog};
use block_duplicator::transfer::{copy_all, copy_all_with_progress, TransferError};

struct Recorder {
    seen: Vec<(u64, u64)>,
}

impl ProgressObserver for Recorder {
    fn report(&mut self, copied: u64, total: u64) {
        self.seen.push((copied, total));
    }
}

struct MemSource {
    data: Vec<u8>,
    block_size: usize,
    caps: BackendCapabilities,
    max_read: usize,
    reads: Vec<(u64, usize)>,
    reported_len: Option<u64>,
}

impl MemSource {
    fn new(data: Vec<u8>) -> Self {
        MemSource {
            data,
            block_size: 1,
            caps: BackendCapabilities { random_access: true, requires_elevation: false },
            max_read: usize::MAX,
            reads: Vec::new(),
            reported_len: None,
        }
    }
}

impl BlockSource for MemSource {
    fn len(&self) -> std::io::Result<u64> {
        Ok(self.reported_len.unwrap_or(self.data.len() as u64))
    }
    fn block_size(&self) -> usize {
        self.block_size
    }
    fn capabilities(&self) -> BackendCapabilities {
        self.caps
    }
    fn read_at(&mut self, offset: u64, buf: &mut [u8]) -> std::io::Result<usize> {
        self.reads.push((offset, buf.len()));
        let start = (offset as usize).min(self.data.len());
        let n = buf.len().min(self.data.len() - start).min(self.max_read);
        buf[..n].copy_from_slice(&self.data[start..start + n]);
        Ok(n)
    }
}

struct MemSink {
    data: Vec<u8>,
    fixed_len: u64,
    block_size: usize,
    caps: BackendCapabilities,
    max_write: usize,
    flushed: bool,
    writes: Vec<(u64, usize)>,
    over_report: usize,
}

impl MemSink {
    fn new() -> Self {
        MemSink {
            data: Vec::new(),
            fixed_len: 0,
            block_size: 1,
            caps: BackendCapabilities { random_access: true, requires_elevation: false },
            max_write: usize::MAX,
            flushed: false,
            writes: Vec::new(),
            over_report: 0,
        }
    }
}

impl BlockSink for MemSink {
    fn len(&self) -> std::io::Result<u64> {
        Ok(self.fixed_len)
    }
    fn block_size(&self) -> usize {
        self.block_size
    }
    fn capabilities(&self) -> BackendCapabilities {
        self.caps
    }
    fn write_at(&mut self, offset: u64, buf: &[u8]) -> std::io::Result<usize> {
        self.writes.push((offset, buf.len()));
        let n = buf.len().min(self.max_write);
        let end = offset as usize + n;
        if self.data.len() < end {
            self.data.resize(end, 0);
        }
        self.data[offset as usize..end].copy_from_slice(&buf[..n]);
        Ok(n + self.over_report)
    }
    fn flush(&mut self) -> std::io::Result<()> {
        self.flushed = true;
        Ok(())
    }
}

fn pattern(len: usize) -> Vec<u8> {
    (0..len).map(|i| (i % 251) as u8).collect()
}

#[test]
fn copies_file_contents_end_to_end() {
    let input = pattern(1024 * 1024 + 123);
    let mut source = MemSource::new(input.clone());
    let mut sink = MemSink::new();
    let stats = match copy_all(&mut source, &mut sink, 65536) {
        Ok(s) => s,
        Err(_) => panic!("copy command failed"),
    };
    assert_eq!(stats.bytes_copied, input.len() as u64);
    assert_eq!(stats.source_len, input.len() as u64);
    assert_eq!(sink.data, input, "destination bytes differ from source");
    assert!(sink.flushed);
}

#[test]
fn reads_in_chunks_at_increasing_offsets() {
    let input = pattern(10);
    let mut source = MemSource::new(input.clone());
    let mut sink = MemSink::new();
    let stats = copy_all(&mut source, &mut sink, 4).ok().unwrap();
    assert_eq!(stats.bytes_copied, 10);
    assert_eq!(source.reads, vec![(0, 4), (4, 4), (8, 2)]);
    assert_eq!(sink.writes, vec![(0, 4), (4, 4), (8, 2)]);
    assert_eq!(sink.data, input);
}

#[test]
fn progress_is_reported_after_each_chunk() {
    let input = pattern(10);
    let mut source = MemSource::new(input);
    let mut sink = MemSink::new();
    let mut progress = Recorder { seen: Vec::new() };
    let r = copy_all_with_progress(&mut source, &mut sink, 4, &mut progress);
    assert!(r.is_ok());
    assert_eq!(progress.seen, vec![(4, 10), (8, 10), (10, 10)]);
}

#[test]
fn short_reads_and_writes_still_copy_everything() {
    let input = pattern(1000);
    let mut source = MemSource::new(input.clone());
    source.max_read = 7;
    let mut sink = MemSink::new();
    sink.max_write = 3;
    let stats = copy_all(&mut source, &mut sink, 64).ok().unwrap();
    assert_eq!(stats.bytes_copied, 1000);
    assert_eq!(sink.data, input);
    // every write continues where the previous one ended
    let mut expected = 0u64;
    for (off, len) in &sink.writes {
        assert_eq!(*off, expected);
        expected += (*len).min(3) as u64;
    }
    assert_eq!(expected, 1000);
}

#[test]
fn chunk_size_is_raised_to_the_larger_block_size() {
    let input = pattern(20);
    let mut source = MemSource::new(input.clone());
    source.block_size = 8;
    let mut sink = MemSink::new();
    sink.block_size = 16;
    copy_all(&mut source, &mut sink, 1).ok().unwrap();
    assert_eq!(source.reads, vec![(0, 16), (16, 4)]);
}

#[test]
fn empty_source_copies_nothing_and_flushes() {
    let mut source = MemSource::new(Vec::new());
    let mut sink = MemSink::new();
    let stats = copy_all(&mut source, &mut sink, 0).ok().unwrap();
    assert_eq!(stats.bytes_copied, 0);
    assert_eq!(stats.source_len, 0);
    assert!(source.reads.is_empty());
    assert!(sink.flushed);
}

#[test]
fn non_random_access_is_unsupported() {
    let mut source = MemSource::new(pattern(5));
    source.caps.random_access = false;
    let mut sink = MemSink::new();
    assert!(matches!(copy_all(&mut source, &mut sink, 4), Err(TransferError::Unsupported)));
    let mut source = MemSource::new(pattern(5));
    let mut sink = MemSink::new();
    sink.caps.random_access = false;
    assert!(matches!(copy_all(&mut source, &mut sink, 4), Err(TransferError::Unsupported)));
    assert!(sink.writes.is_empty());
}

#[test]
fn too_small_fixed_destination_is_refused() {
    let mut source = MemSource::new(pattern(100));
    let mut sink = MemSink::new();
    sink.fixed_len = 99;
    match copy_all(&mut source, &mut sink, 4) {
        Err(TransferError::DestinationTooSmall { sink_len, source_len }) => {
            assert_eq!(sink_len, 99);
            assert_eq!(source_len, 100);
        }
        _ => panic!("expected DestinationTooSmall"),
    }
    assert!(source.reads.is_empty());
    let mut source = MemSource::new(pattern(100));
    let mut sink = MemSink::new();
    sink.fixed_len = 100;
    assert!(copy_all(&mut source, &mut sink, 4).is_ok());
}

#[test]
fn source_ending_early_is_an_error() {
    let mut source = MemSource::new(pattern(10));
    source.reported_len = Some(15);
    let mut sink = MemSink::new();
    match copy_all(&mut source, &mut sink, 4) {
        Err(TransferError::SourceEndedEarly { copied, source_len }) => {
            assert_eq!(copied, 10);
            assert_eq!(source_len, 15);
        }
        _ => panic!("expected SourceEndedEarly"),
    }
    assert!(!sink.flushed);
}

#[test]
fn sink_accepting_nothing_is_an_error() {
    let mut source = MemSource::new(pattern(10));
    let mut sink = MemSink::new();
    sink.max_write = 0;
    assert!(matches!(copy_all(&mut source, &mut sink, 4), Err(TransferError::WriteZero)));
}

#[test]
fn write_count_above_the_buffer_completes_the_chunk() {
    let input = pattern(10);
    let mut source = MemSource::new(input.clone());
    let mut sink = MemSink::new();
    sink.over_report = 3;
    let stats = copy_all(&mut source, &mut sink, 4).ok().unwrap();
    assert_eq!(stats.bytes_copied, 10);
    assert_eq!(sink.writes, vec![(0, 4), (4, 4), (8, 2)]);
    assert_eq!(sink.data, input);
}

#[test]
fn memory_backends_copy_with_block_sized_chunks() {
    let input: Vec<u8> = (0..10u8).collect();
    let mut source = MemorySource::new(input.clone(), 4);
    let mut sink = MemorySink::new(0, 1);
    let mut progress = ProgressLog::new();
    let stats = copy_all_with_progress(&mut source, &mut sink, 0, &mut progress).ok().unwrap();
    assert_eq!(stats.bytes_copied, 10);
    assert_eq!(stats.source_len, 10);
    assert_eq!(progress.entries(), &vec![(4, 10), (8, 10), (10, 10)]);
    assert_eq!(sink.bytes(), &input[..]);
}

#[test]
fn memory_backends_copy_a_large_source() {
    let input = pattern(1024 * 1024 + 123);
    let mut source = MemorySource::new(input.clone(), 1);
    let mut sink = MemorySink::new(0, 1);
    let stats = copy_all(&mut source, &mut sink, 65536).ok().unwrap();
    assert_eq!(stats.bytes_copied, input.len() as u64);
    assert_eq!(sink.bytes(), &input[..]);
}

#[test]
fn memory_source_reads_past_its_end_return_nothing() {
    let mut source = MemorySource::new(vec![1, 2, 3], 1);
    let mut buf = [0u8; 4];
    assert_eq!(source.read_at(1, &mut buf).ok(), Some(2));
    assert_eq!(&buf[..2], &[2, 3]);
    assert_eq!(source.read_at(3, &mut buf).ok(), Some(0));
    assert_eq!(source.read_at(100, &mut buf).ok(), Some(0));
    assert_eq!(source.len().ok(), Some(3));
}

#[test]
fn memory_sink_places_writes_at_their_offsets() {
    let mut sink = MemorySink::new(7, 2);
    assert_eq!(sink.write_at(2, &[5, 6]).ok(), Some(2));
    assert_eq!(sink.bytes(), &[0, 0, 5, 6]);
    assert_eq!(sink.write_at(0, &[1]).ok(), Some(1));
    assert_eq!(sink.bytes(), &[1, 0, 5, 6]);
    assert_eq!(sink.len().ok(), Some(7));
    assert!(sink.flush().is_ok());
}

#[test]
fn too_small_memory_sink_gets_no_write_and_no_report() {
    let mut source = MemorySource::new(pattern(100), 1);
    let mut sink = MemorySink::new(99, 1);
    let mut progress = ProgressLog::new();
    assert!(matches!(
        copy_all_with_progress(&mut source, &mut sink, 4, &mut progress),
        Err(TransferError::DestinationTooSmall { sink_len: 99, source_len: 100 })
    ));
    assert!(progress.entries().is_empty());
    assert!(sink.bytes().is_empty());
}

#[test]
fn empty_source_reports_no_progress() {
    let mut source = MemorySource::new(Vec::new(), 1);
    let mut sink = MemorySink::new(0, 1);
    let mut progress = ProgressLog::new();
    let stats = copy_all_with_progress(&mut source, &mut sink, 4, &mut progress).ok().unwrap();
    assert_eq!(stats.bytes_copied, 0);
    assert!(progress.entries().is_empty());
}

#[test]
fn transfer_errors_have_their_messages() {
    assert_eq!(
        TransferError::Unsupported.message(),
        "non-random-access backends are not implemented yet"
    );
    assert_eq!(
        TransferError::DestinationTooSmall { sink_len: 99, source_len: 100 }.message(),
        "destination is smaller than source (99 < 100 bytes)"
    );
    assert_eq!(
        TransferError::SourceEndedEarly { copied: 10, source_len: 15 }.message(),
        "source ended prematurely: got 10 of 15 bytes"
    );
    assert_eq!(TransferError::WriteZero.message(), "sink returned zero bytes written");
    let e = std::io::Error::new(std::io::ErrorKind::Other, "disk gone");
    assert_eq!(TransferError::Io(e).message(), "disk gone");
}
