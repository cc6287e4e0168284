//! The offset-based copy loop.

use vstd::prelude::*;
use vstd::slice::slice_subrange;
use vstd::string::to_string_from_display_ensures;

use crate::text::{decimal_digits, push_decimal, push_text};
use crate::io::{BackendCapabilities, BlockSink, BlockSource, ProgressObserver, ReadCall, SinkCall};

verus! {

/// What a finished copy reports.
pub struct TransferStats {
    pub bytes_copied: u64,
    pub source_len: u64,
}

/// Why a copy stopped.
pub enum TransferError {
    /// The source or the sink does not support random access.
    Unsupported,
    /// The sink has a fixed, non-zero length below the source's length.
    DestinationTooSmall { sink_len: u64, source_len: u64 },
    /// The source returned no bytes before its reported length was reached.
    SourceEndedEarly { copied: u64, source_len: u64 },
    /// The sink accepted no byte of a non-empty write.
    WriteZero,
    /// A backend reported an I/O error.
    Io(std::io::Error),
}

impl TransferError {
    /// The text shown for the error; for a backend's error, what its
    /// `Display` gives.
    pub fn message(&self) -> (r: String)
        ensures
            match self {
                TransferError::Unsupported => r@ == "non-random-access backends are not implemented yet"@,
                TransferError::DestinationTooSmall { sink_len, source_len } => r@ == "destination is smaller than source ("@
                    + decimal_digits(*sink_len as nat) + " < "@ + decimal_digits(*source_len as nat)
                    + " bytes)"@,
                TransferError::SourceEndedEarly { copied, source_len } => r@ == "source ended prematurely: got "@
                    + decimal_digits(*copied as nat) + " of "@ + decimal_digits(*source_len as nat)
                    + " bytes"@,
                TransferError::WriteZero => r@ == "sink returned zero bytes written"@,
                TransferError::Io(e) => to_string_from_display_ensures::<std::io::Error>(e, r),
            },
    {
        let mut r = String::new();
        match self {
            TransferError::Unsupported => {
                push_text(&mut r, "non-random-access backends are not implemented yet");
            },
            TransferError::DestinationTooSmall { sink_len, source_len } => {
                push_text(&mut r, "destination is smaller than source (");
                push_decimal(&mut r, *sink_len);
                push_text(&mut r, " < ");
                push_decimal(&mut r, *source_len);
                push_text(&mut r, " bytes)");
            },
            TransferError::SourceEndedEarly { copied, source_len } => {
                push_text(&mut r, "source ended prematurely: got ");
                push_decimal(&mut r, *copied);
                push_text(&mut r, " of ");
                push_decimal(&mut r, *source_len);
                push_text(&mut r, " bytes");
            },
            TransferError::WriteZero => {
                push_text(&mut r, "sink returned zero bytes written");
            },
            TransferError::Io(e) => {
                return e.to_string();
            },
        }
        r
    }
}

pub open spec fn spec_max(a: int, b: int) -> int {
    if a >= b { a } else { b }
}

/// The requested chunk size raised to the larger block size of the two
/// ends, and to one byte.
pub open spec fn spec_chunk_size(chunk_size: usize, source_block: usize, sink_block: usize) -> int {
    spec_max(chunk_size as int, spec_max(spec_max(source_block as int, sink_block as int), 1))
}

/// Both ends must support random access.
pub fn check_random_access(source_caps: BackendCapabilities, sink_caps: BackendCapabilities) -> (r: Result<(), TransferError>)
    ensures
        r is Ok <==> source_caps.random_access && sink_caps.random_access,
        r matches Err(e) ==> e is Unsupported,
{
    if !source_caps.random_access || !sink_caps.random_access {
        Err(TransferError::Unsupported)
    } else {
        Ok(())
    }
}

/// The chunk size actually used: the requested one, raised to the larger
/// block size of the two ends, and never below one byte.
pub fn effective_chunk_size(chunk_size: usize, source_block: usize, sink_block: usize) -> (r: usize)
    ensures
        r == spec_chunk_size(chunk_size, source_block, sink_block),
        r >= 1,
{
    let mut preferred = if source_block >= sink_block { source_block } else { sink_block };
    if preferred < 1 {
        preferred = 1;
    }
    if chunk_size >= preferred { chunk_size } else { preferred }
}

/// A sink of fixed length (non-zero) must hold the whole source; a sink
/// that reports 0 grows as it is written and is not checked.
pub fn check_destination_capacity(sink_len: u64, source_len: u64) -> (r: Result<(), TransferError>)
    ensures
        r is Ok <==> !(sink_len > 0 && sink_len < source_len),
        r matches Err(e) ==> e == (TransferError::DestinationTooSmall { sink_len, source_len }),
{
    if sink_len > 0 && sink_len < source_len {
        Err(TransferError::DestinationTooSmall { sink_len, source_len })
    } else {
        Ok(())
    }
}


/// The next thing the copy loop has to do.
pub enum CopyStep {
    /// Read up to `len` bytes of the source at `offset`.
    Read { offset: u64, len: usize },
    /// Hand bytes `start..end` of the current chunk to the sink at `offset`.
    Write { offset: u64, start: usize, end: usize },
    /// Every byte of the source has been handed to the sink.
    Finish,
}

/// The decisions of the copy loop: where to read, what to write where, and
/// when the copy is complete. It records, as ghost state, every byte the
/// source returned (`received`) and every byte the sink accepted
/// (`delivered`), both indexed by their offset.
pub struct CopyState {
    source_len: u64,
    chunk_size: usize,
    copied: u64,
    chunk_len: usize,
    chunk_written: usize,
    received: Ghost<Seq<u8>>,
    delivered: Ghost<Seq<u8>>,
}

impl CopyState {
    pub closed spec fn source_len(&self) -> u64 {
        self.source_len
    }

    pub closed spec fn chunk_size(&self) -> usize {
        self.chunk_size
    }

    /// Bytes of whole chunks that the sink has accepted.
    pub closed spec fn copied(&self) -> u64 {
        self.copied
    }

    /// Bytes read into the chunk in flight (0 when none is).
    pub closed spec fn chunk_len(&self) -> usize {
        self.chunk_len
    }

    /// Bytes of the chunk in flight that the sink has accepted.
    pub closed spec fn chunk_written(&self) -> usize {
        self.chunk_written
    }

    /// Every byte the source returned, at its offset.
    pub closed spec fn received(&self) -> Seq<u8> {
        self.received@
    }

    /// Every byte the sink accepted, at its offset.
    pub closed spec fn delivered(&self) -> Seq<u8> {
        self.delivered@
    }

    pub open spec fn wf(&self) -> bool {
        &&& self.chunk_size() > 0
        &&& self.copied() + self.chunk_len() <= self.source_len()
        &&& self.chunk_written() <= self.chunk_len() <= self.chunk_size()
        &&& self.chunk_len() > 0 ==> self.chunk_written() < self.chunk_len()
        &&& self.received().len() == self.copied() + self.chunk_len()
        &&& self.delivered().len() == self.copied() + self.chunk_written()
        &&& self.delivered() == self.received().take(self.delivered().len() as int)
    }

    /// The bytes of the chunk in flight that the sink has not yet accepted.
    pub open spec fn pending(&self) -> Seq<u8> {
        self.received().subrange(
            self.copied() + self.chunk_written(),
            self.copied() + self.chunk_len(),
        )
    }

    pub open spec fn spec_next_step(&self) -> CopyStep {
        if self.chunk_len() > 0 {
            CopyStep::Write {
                offset: (self.copied() + self.chunk_written()) as u64,
                start: self.chunk_written(),
                end: self.chunk_len(),
            }
        } else if self.copied() < self.source_len() {
            let remaining = self.source_len() - self.copied();
            CopyStep::Read {
                offset: self.copied(),
                len: if remaining < self.chunk_size() { remaining as usize } else { self.chunk_size() },
            }
        } else {
            CopyStep::Finish
        }
    }

    /// A copy of `source_len` bytes in chunks of `chunk_size`, nothing done yet.
    pub fn new(source_len: u64, chunk_size: usize) -> (r: CopyState)
        requires
            chunk_size > 0,
        ensures
            r.wf(),
            r.source_len() == source_len,
            r.chunk_size() == chunk_size,
            r.copied() == 0,
            r.chunk_len() == 0,
            r.received() == Seq::<u8>::empty(),
            r.delivered() == Seq::<u8>::empty(),
    {
        let r = CopyState {
            source_len,
            chunk_size,
            copied: 0,
            chunk_len: 0,
            chunk_written: 0,
            received: Ghost(Seq::empty()),
            delivered: Ghost(Seq::empty()),
        };
        assert(r.received@.take(0) =~= Seq::<u8>::empty());
        r
    }

    pub fn copied_bytes(&self) -> (r: u64)
        ensures
            r == self.copied(),
    {
        self.copied
    }

    pub fn total_bytes(&self) -> (r: u64)
        ensures
            r == self.source_len(),
    {
        self.source_len
    }

    /// Writes the chunk in flight until the sink has taken all of it; reads
    /// the next chunk, starting where the last one ended, when none is in
    /// flight; finishes once the source's length is reached.
    pub fn next_step(&self) -> (r: CopyStep)
        requires
            self.wf(),
        ensures
            r == self.spec_next_step(),
    {
        if self.chunk_len > 0 {
            CopyStep::Write {
                offset: self.copied + self.chunk_written as u64,
                start: self.chunk_written,
                end: self.chunk_len,
            }
        } else if self.copied < self.source_len {
            let remaining = self.source_len - self.copied;
            let len = if remaining < self.chunk_size as u64 { remaining as usize } else { self.chunk_size };
            CopyStep::Read { offset: self.copied, len }
        } else {
            CopyStep::Finish
        }
    }

    /// Takes what the source returned for the read step. No byte at all
    /// means the source ended before its reported length.
    pub fn record_read(&mut self, data: &[u8]) -> (r: Result<(), TransferError>)
        requires
            old(self).wf(),
            old(self).spec_next_step() matches CopyStep::Read { len, .. } && data@.len() <= len,
        ensures
            final(self).wf(),
            final(self).source_len() == old(self).source_len(),
            final(self).chunk_size() == old(self).chunk_size(),
            final(self).copied() == old(self).copied(),
            final(self).delivered() == old(self).delivered(),
            data@.len() == 0 ==> {
                &&& r matches Err(e) && e == (TransferError::SourceEndedEarly {
                    copied: old(self).copied(),
                    source_len: old(self).source_len(),
                })
                &&& final(self).chunk_len() == 0
                &&& final(self).received() == old(self).received()
            },
            data@.len() > 0 ==> {
                &&& r is Ok
                &&& final(self).chunk_len() == data@.len()
                &&& final(self).chunk_written() == 0
                &&& final(self).received() == old(self).received() + data@
            },
    {
        let n = data.len();
        if n == 0 {
            return Err(TransferError::SourceEndedEarly { copied: self.copied, source_len: self.source_len });
        }
        let ghost old_received = self.received@;
        self.chunk_len = n;
        self.chunk_written = 0;
        self.received = Ghost(self.received@ + data@);
        assert(self.received@.take(self.delivered@.len() as int) =~= old_received.take(
            self.delivered@.len() as int,
        ));
        Ok(())
    }

    /// Takes how many of the `sent` bytes (the pending ones) the sink
    /// accepted. Returns whether the chunk is now complete; the sink
    /// accepting nothing is an error.
    pub fn record_write(&mut self, sent: &[u8], accepted: usize) -> (r: Result<bool, TransferError>)
        requires
            old(self).wf(),
            old(self).chunk_len() > 0,
            sent@ == old(self).pending(),
            accepted <= sent@.len(),
        ensures
            final(self).wf(),
            final(self).source_len() == old(self).source_len(),
            final(self).chunk_size() == old(self).chunk_size(),
            final(self).received() == old(self).received(),
            accepted == 0 ==> {
                &&& r matches Err(e) && e is WriteZero
                &&& *final(self) == *old(self)
            },
            accepted > 0 ==> {
                let total = old(self).chunk_written() + accepted;
                &&& final(self).delivered() == old(self).delivered() + sent@.take(accepted as int)
                &&& r == Ok::<bool, TransferError>(total == old(self).chunk_len())
                &&& total == old(self).chunk_len() ==> {
                    &&& final(self).copied() == old(self).copied() + old(self).chunk_len()
                    &&& final(self).chunk_len() == 0
                }
                &&& total < old(self).chunk_len() ==> {
                    &&& final(self).copied() == old(self).copied()
                    &&& final(self).chunk_len() == old(self).chunk_len()
                    &&& final(self).chunk_written() == total
                }
            },
    {
        if accepted == 0 {
            return Err(TransferError::WriteZero);
        }
        let ghost old_received = self.received@;
        let ghost old_delivered = self.delivered@;
        self.delivered = Ghost(self.delivered@ + sent@.take(accepted as int));
        proof {
            let nd = old_delivered.len() + accepted;
            assert(self.delivered@ =~= old_received.take(nd as int));
        }
        let total = self.chunk_written + accepted;
        if total == self.chunk_len {
            self.copied = self.copied + self.chunk_len as u64;
            self.chunk_len = 0;
            self.chunk_written = 0;
            Ok(true)
        } else {
            self.chunk_written = total;
            Ok(false)
        }
    }
}


/// The sink only ever accepts, at an offset, the byte the source returned at
/// that offset.
pub proof fn lemma_delivered_bytes_match_source(s: CopyState, i: int)
    requires
        s.wf(),
        0 <= i < s.delivered().len(),
    ensures
        i < s.received().len(),
        s.delivered()[i] == s.received()[i],
{
}

/// Reads continue exactly where the bytes received so far end, ask for at
/// least one and at most `chunk_size` bytes, and never past the source's
/// length.
pub proof fn lemma_reads_are_contiguous(s: CopyState)
    requires
        s.wf(),
        s.spec_next_step() is Read,
    ensures
        s.spec_next_step()->Read_offset == s.received().len(),
        0 < s.spec_next_step()->Read_len <= s.chunk_size(),
        s.spec_next_step()->Read_offset + s.spec_next_step()->Read_len <= s.source_len(),
{
}

/// Writes continue exactly where the bytes delivered so far end, and carry
/// the received bytes that have not been delivered yet (at least one).
pub proof fn lemma_writes_are_contiguous(s: CopyState)
    requires
        s.wf(),
        s.spec_next_step() is Write,
    ensures
        s.spec_next_step()->Write_offset == s.delivered().len(),
        s.spec_next_step()->Write_end - s.spec_next_step()->Write_start == s.pending().len(),
        s.pending().len() > 0,
        s.delivered() + s.pending() == s.received(),
{
    assert(s.delivered() + s.pending() =~= s.received());
}

/// The copy finishes only once the sink has accepted every byte of the
/// source, each equal to the one the source returned at that offset.
pub proof fn lemma_finish_means_complete_copy(s: CopyState)
    requires
        s.wf(),
        s.spec_next_step() is Finish,
    ensures
        s.copied() == s.source_len(),
        s.received().len() == s.source_len(),
        s.delivered() == s.received(),
{
    assert(s.received().take(s.delivered().len() as int) =~= s.received());
}

/// How many bytes a read returned (none when it failed).
pub open spec fn read_got(c: ReadCall) -> int {
    match c.result {
        Ok(k) => k as int,
        Err(_) => 0,
    }
}

/// Where the bytes that `reads` returned end.
pub open spec fn reads_end(reads: Seq<ReadCall>) -> int {
    if reads.len() == 0 {
        0
    } else {
        reads.last().offset + read_got(reads.last())
    }
}

/// Read `i` of a copy of `n` bytes in chunks of `chunk`: at offset 0 for the
/// first, else where the bytes of the one before end; below `n`; asking for
/// a whole chunk, or the rest of the source where that is less; and, unless
/// it is the last, having returned bytes.
pub open spec fn read_in_place(reads: Seq<ReadCall>, i: int, n: int, chunk: int) -> bool {
    let offset = reads[i].offset as int;
    &&& offset == (if i == 0 { 0 } else { reads[i - 1].offset + read_got(reads[i - 1]) })
    &&& offset < n
    &&& reads[i].len == (if n - offset < chunk { n - offset } else { chunk })
    &&& i + 1 < reads.len() ==> (reads[i].result matches Ok(k) && k > 0)
}

/// The reads of a copy of `n` bytes in chunks of `chunk`: sequential from
/// offset 0, never at or past `n`, never asking for a byte twice.
pub open spec fn reads_in_order(reads: Seq<ReadCall>, n: int, chunk: int) -> bool {
    forall|i: int| 0 <= i < reads.len() ==> #[trigger] read_in_place(reads, i, n, chunk)
}

/// How many of the bytes handed to a write the sink took: the count it
/// reported, never more than the bytes handed over.
pub open spec fn write_taken(c: SinkCall) -> int {
    match c {
        SinkCall::Write { data, result: Ok(k), .. } => if k < data.len() {
            k as int
        } else {
            data.len() as int
        },
        _ => 0,
    }
}

/// Where the bytes that a write left in the sink end.
pub open spec fn call_end(c: SinkCall) -> int {
    match c {
        SinkCall::Write { offset, .. } => offset + write_taken(c),
        _ => 0,
    }
}

/// Where the bytes that `calls` left in the sink end.
pub open spec fn writes_end(calls: Seq<SinkCall>) -> int {
    if calls.len() == 0 {
        0
    } else {
        call_end(calls.last())
    }
}

/// Sink call `i` of a copy of `src`: a write at offset 0 for the first, else
/// where the bytes the sink took so far end, handing over the source's own
/// bytes from that offset (at least one), and, unless it is the last, taken
/// at least in part; or a flush, only as the last call and once the sink has
/// taken every byte of the source.
pub open spec fn call_in_place(calls: Seq<SinkCall>, i: int, src: Seq<u8>) -> bool {
    let end_before = if i == 0 { 0 } else { call_end(calls[i - 1]) };
    match calls[i] {
        SinkCall::Write { offset, data, result } => {
            &&& offset == end_before
            &&& 0 < data.len() && offset + data.len() <= src.len()
            &&& data == src.subrange(offset as int, offset + data.len())
            &&& i + 1 < calls.len() ==> (result matches Ok(k) && k > 0)
        },
        SinkCall::Flush { .. } => i + 1 == calls.len() && end_before == src.len(),
    }
}

/// The sink calls of a copy of `src`: each byte of the source handed over
/// at its own offset, in order, none twice once taken, and a flush only at
/// the end.
pub open spec fn writes_in_order(calls: Seq<SinkCall>, src: Seq<u8>) -> bool {
    forall|i: int| 0 <= i < calls.len() ==> #[trigger] call_in_place(calls, i, src)
}

/// A read that ends the copy: it failed, or returned no byte.
pub open spec fn read_fails(c: ReadCall) -> bool {
    c.result is Err || c.result == Ok::<usize, std::io::Error>(0)
}

/// A sink call that ends the copy: a write that failed or took no byte, or
/// a flush that failed.
pub open spec fn call_fails(c: SinkCall) -> bool {
    match c {
        SinkCall::Write { result, .. } => result is Err || result == Ok::<usize, std::io::Error>(0),
        SinkCall::Flush { outcome } => outcome is Err,
    }
}

/// The copy once both ends are accepted: the calls are in order, the first
/// call that fails is the last one made, and it decides the result, which
/// is success when none fails.
///
/// - A read that returned nothing: `SourceEndedEarly` at its offset; one
///   that failed: its error. The sink had taken every byte before it.
/// - A write that took nothing: `WriteZero`; one that failed: its error.
///   It carried the rest of the last chunk read.
/// - A flush that failed: its error.
/// - No failing call: every byte read and taken, the flush last, and the
///   stats carry the source's length.
pub open spec fn copy_run(
    r: Result<TransferStats, TransferError>,
    src: Seq<u8>,
    chunk: int,
    reads: Seq<ReadCall>,
    calls: Seq<SinkCall>,
) -> bool {
    let n = src.len() as int;
    let read_failed = reads.len() > 0 && read_fails(reads.last());
    let call_failed = calls.len() > 0 && call_fails(calls.last());
    &&& reads_in_order(reads, n, chunk)
    &&& writes_in_order(calls, src)
    &&& !(read_failed && call_failed)
    &&& read_failed ==> {
        &&& writes_end(calls) == reads.last().offset
        &&& match reads.last().result {
            Ok(_) => r == Err::<TransferStats, TransferError>(
                TransferError::SourceEndedEarly { copied: reads.last().offset, source_len: n as u64 },
            ),
            Err(e) => r == Err::<TransferStats, TransferError>(TransferError::Io(e)),
        }
    }
    &&& call_failed ==> match calls.last() {
        SinkCall::Write { offset, data, result } => {
            &&& offset + data.len() == reads_end(reads)
            &&& match result {
                Ok(_) => r == Err::<TransferStats, TransferError>(TransferError::WriteZero),
                Err(e) => r == Err::<TransferStats, TransferError>(TransferError::Io(e)),
            }
        },
        SinkCall::Flush { outcome } => match outcome {
            Ok(_) => false,
            Err(e) => r == Err::<TransferStats, TransferError>(TransferError::Io(e)),
        },
    }
    &&& !read_failed && !call_failed ==> {
        &&& r == Ok::<TransferStats, TransferError>(
            TransferStats { bytes_copied: n as u64, source_len: n as u64 },
        )
        &&& reads_end(reads) == n
        &&& calls.len() > 0 && calls.last() is Flush
    }
}

/// What a copy of `src` ends with, given what the two ends report and the
/// calls it made of them (`reads` of the source, `calls` of the sink):
/// without random access at both ends, `Unsupported`; then a failing length
/// query, its error; then a sink of fixed length below the source's,
/// `DestinationTooSmall`; in each of these cases no read or sink call at
/// all. Otherwise `copy_run`.
pub open spec fn copy_outcome(
    r: Result<TransferStats, TransferError>,
    src: Seq<u8>,
    source_caps: BackendCapabilities,
    sink_caps: BackendCapabilities,
    source_len: Result<u64, std::io::Error>,
    sink_len: Result<u64, std::io::Error>,
    chunk: int,
    reads: Seq<ReadCall>,
    calls: Seq<SinkCall>,
) -> bool {
    let n = src.len() as int;
    let no_calls = reads.len() == 0 && calls.len() == 0;
    if !(source_caps.random_access && sink_caps.random_access) {
        r == Err::<TransferStats, TransferError>(TransferError::Unsupported) && no_calls
    } else if source_len is Err {
        r == Err::<TransferStats, TransferError>(TransferError::Io(source_len->Err_0)) && no_calls
    } else if sink_len is Err {
        r == Err::<TransferStats, TransferError>(TransferError::Io(sink_len->Err_0)) && no_calls
    } else if 0 < sink_len->Ok_0 && sink_len->Ok_0 < n {
        &&& r == Err::<TransferStats, TransferError>(
            TransferError::DestinationTooSmall { sink_len: sink_len->Ok_0, source_len: n as u64 },
        )
        &&& no_calls
    } else {
        copy_run(r, src, chunk, reads, calls)
    }
}

/// The progress reports of a copy, given its result and the calls it made:
/// one after each chunk the sink took whole, carrying where that chunk ends
/// and the source's length `n` (so increasing, each the bytes the sink had
/// taken); none for a chunk cut short by a failing read or write; after a
/// successful copy of a non-empty source, the last is `(n, n)`.
pub open spec fn progress_outcome(
    r: Result<TransferStats, TransferError>,
    reports: Seq<(u64, u64)>,
    reads: Seq<ReadCall>,
    calls: Seq<SinkCall>,
    n: int,
) -> bool {
    let cut = (reads.len() > 0 && read_fails(reads.last())) || (calls.len() > 0
        && calls.last() is Write && call_fails(calls.last()));
    &&& reports.len() == (if cut { reads.len() - 1 } else { reads.len() as int })
    &&& forall|i: int|
        0 <= i < reports.len() ==> #[trigger] reports[i] == (
            (reads[i].offset + read_got(reads[i])) as u64,
            n as u64,
        )
    &&& r is Ok ==> (reports.len() == 0 <==> n == 0)
    &&& r is Ok && n > 0 ==> reports.last() == (n as u64, n as u64)
}

proof fn lemma_read_logged(reads: Seq<ReadCall>, c: ReadCall, n: int, chunk: int)
    requires
        reads_in_order(reads, n, chunk),
        forall|i: int| 0 <= i < reads.len() ==> (#[trigger] reads[i].result matches Ok(k) && k > 0),
        c.offset == reads_end(reads),
        c.offset < n,
        c.len == (if n - c.offset < chunk { n - c.offset } else { chunk }),
    ensures
        reads_in_order(reads.push(c), n, chunk),
{
    let all = reads.push(c);
    assert forall|i: int| 0 <= i < all.len() implies #[trigger] read_in_place(all, i, n, chunk) by {
        if i < reads.len() {
            assert(read_in_place(reads, i, n, chunk));
            assert(all[i] == reads[i]);
            if i > 0 {
                assert(all[i - 1] == reads[i - 1]);
            }
        } else if i > 0 {
            assert(all[i - 1] == reads[i - 1]);
            assert(reads[i - 1].result matches Ok(k) && k > 0);
        }
    };
}

proof fn lemma_call_logged(calls: Seq<SinkCall>, c: SinkCall, src: Seq<u8>)
    requires
        writes_in_order(calls, src),
        forall|i: int| 0 <= i < calls.len() ==> (#[trigger] calls[i] matches SinkCall::Write {
            result: Ok(k),
            ..
        } && k > 0),
        match c {
            SinkCall::Write { offset, data, .. } => {
                &&& offset == writes_end(calls)
                &&& 0 < data.len() && offset + data.len() <= src.len()
                &&& data == src.subrange(offset as int, offset + data.len())
            },
            SinkCall::Flush { .. } => writes_end(calls) == src.len(),
        },
    ensures
        writes_in_order(calls.push(c), src),
{
    let all = calls.push(c);
    assert forall|i: int| 0 <= i < all.len() implies #[trigger] call_in_place(all, i, src) by {
        if i < calls.len() {
            assert(call_in_place(calls, i, src));
            assert(all[i] == calls[i]);
            if i > 0 {
                assert(all[i - 1] == calls[i - 1]);
            }
            assert(calls[i] matches SinkCall::Write { result: Ok(k), .. } && k > 0);
        } else if i > 0 {
            assert(all[i - 1] == calls[i - 1]);
        }
    };
}

proof fn lemma_log_grew<T>(before: Seq<T>, added: Seq<T>)
    ensures
        before.is_prefix_of(before + added),
        (before + added).skip(before.len() as int) == added,
{
    assert((before + added).subrange(0, before.len() as int) =~= before);
    assert((before + added).skip(before.len() as int) =~= added);
}

/// Whether sink call `c` is a write whose taken bytes cover offset `p`.
pub open spec fn takes_offset(c: SinkCall, p: int) -> bool {
    c matches SinkCall::Write { offset, .. } && offset <= p < call_end(c)
}

proof fn lemma_write_offsets_grow(calls: Seq<SinkCall>, src: Seq<u8>, i: int, j: int)
    requires
        writes_in_order(calls, src),
        0 <= i < j < calls.len(),
        calls[j] is Write,
    ensures
        call_end(calls[i]) <= calls[j]->Write_offset,
    decreases j - i,
{
    assert(call_in_place(calls, j, src));
    if j - 1 > i {
        assert(call_in_place(calls, j - 1, src));
        lemma_write_offsets_grow(calls, src, i, j - 1);
    }
}

proof fn lemma_some_write_takes(calls: Seq<SinkCall>, src: Seq<u8>, p: int, k: int)
    requires
        writes_in_order(calls, src),
        calls.last() is Flush,
        0 <= k < calls.len(),
        calls[k] is Write,
        calls[k]->Write_offset <= p < src.len(),
    ensures
        exists|i: int| k <= i < calls.len() && #[trigger] takes_offset(calls[i], p),
    decreases calls.len() - k,
{
    assert(call_in_place(calls, k, src));
    if p < call_end(calls[k]) {
        assert(takes_offset(calls[k], p));
    } else {
        assert(k + 1 < calls.len());
        assert(call_in_place(calls, k + 1, src));
        lemma_some_write_takes(calls, src, p, k + 1);
    }
}

/// A complete copy's writes leave each byte of the source in the sink at its
/// own offset exactly once: for every offset below the source's length,
/// exactly one write took the byte there, and the byte it handed over there
/// is the source's.
pub proof fn lemma_complete_copy_places_each_byte_once(calls: Seq<SinkCall>, src: Seq<u8>, p: int)
    requires
        writes_in_order(calls, src),
        calls.len() > 0,
        calls.last() is Flush,
        0 <= p < src.len(),
    ensures
        exists|i: int| 0 <= i < calls.len() && #[trigger] takes_offset(calls[i], p),
        forall|i: int, j: int|
            0 <= i < calls.len() && 0 <= j < calls.len() && #[trigger] takes_offset(calls[i], p)
                && #[trigger] takes_offset(calls[j], p) ==> i == j,
        forall|i: int|
            0 <= i < calls.len() && #[trigger] takes_offset(calls[i], p) ==> calls[i]->Write_data[p
                - calls[i]->Write_offset] == src[p],
{
    let last = calls.len() - 1;
    assert(call_in_place(calls, last, src));
    assert(last > 0);
    assert(call_in_place(calls, 0, src));
    lemma_some_write_takes(calls, src, p, 0);
    assert forall|i: int, j: int|
        0 <= i < calls.len() && 0 <= j < calls.len() && #[trigger] takes_offset(calls[i], p)
            && #[trigger] takes_offset(calls[j], p) implies i == j by {
        if i < j {
            lemma_write_offsets_grow(calls, src, i, j);
        } else if j < i {
            lemma_write_offsets_grow(calls, src, j, i);
        }
    };
    assert forall|i: int|
        0 <= i < calls.len() && #[trigger] takes_offset(calls[i], p) implies calls[i]->Write_data[p
            - calls[i]->Write_offset] == src[p] by {
        assert(call_in_place(calls, i, src));
    };
}

proof fn lemma_read_offsets_count(reads: Seq<ReadCall>, n: int, chunk: int, i: int)
    requires
        reads_in_order(reads, n, chunk),
        0 <= i < reads.len(),
    ensures
        reads[i].offset >= i,
    decreases i,
{
    assert(read_in_place(reads, i, n, chunk));
    if i > 0 {
        assert(read_in_place(reads, i - 1, n, chunk));
        lemma_read_offsets_count(reads, n, chunk, i - 1);
    }
}

proof fn lemma_write_offsets_count(calls: Seq<SinkCall>, src: Seq<u8>, i: int)
    requires
        writes_in_order(calls, src),
        0 <= i < calls.len(),
        calls[i] is Write,
    ensures
        calls[i]->Write_offset >= i,
    decreases i,
{
    assert(call_in_place(calls, i, src));
    if i > 0 {
        assert(call_in_place(calls, i - 1, src));
        lemma_write_offsets_count(calls, src, i - 1);
    }
}

/// A copy of `n` bytes makes at most `n` reads, and at most `n` writes and
/// one flush, however short the reads and writes come back: each call but
/// the last moves the copy forward by at least one byte.
pub proof fn lemma_copy_calls_bounded(reads: Seq<ReadCall>, calls: Seq<SinkCall>, src: Seq<u8>, chunk: int)
    requires
        reads_in_order(reads, src.len() as int, chunk),
        writes_in_order(calls, src),
    ensures
        reads.len() <= src.len(),
        calls.len() <= src.len() + 1,
        calls.len() > 0 && calls.last() is Write ==> calls.len() <= src.len(),
{
    if reads.len() > 0 {
        let last = reads.len() - 1;
        lemma_read_offsets_count(reads, src.len() as int, chunk, last);
        assert(read_in_place(reads, last, src.len() as int, chunk));
    }
    if calls.len() > 0 {
        let last = calls.len() - 1;
        assert(call_in_place(calls, last, src));
        if calls[last] is Write {
            lemma_write_offsets_count(calls, src, last);
        } else if last > 0 {
            assert(call_in_place(calls, last - 1, src));
            lemma_write_offsets_count(calls, src, last - 1);
        }
    }
}

/// Copies every byte of `source` to `sink` at the same offsets, in chunks of
/// `chunk_size` (raised to the larger block size of the two ends), reports
/// `(copied, total)` to `progress` after each complete chunk, and flushes
/// the sink at the end. Over the models of the ends, `copy_outcome` states
/// the result and every call made of them, and `progress_outcome` the
/// reports.
pub fn copy_all_with_progress<S, D, P>(
    source: &mut S,
    sink: &mut D,
    chunk_size: usize,
    progress: &mut P,
) -> (r: Result<TransferStats, TransferError>) where
    S: BlockSource + ?Sized,
    D: BlockSink + ?Sized,
    P: ProgressObserver + ?Sized,

    ensures
        final(source).keeps_model() == old(source).keeps_model(),
        final(sink).keeps_model() == old(sink).keeps_model(),
        final(progress).keeps_model() == old(progress).keeps_model(),
        old(source).keeps_model() && old(sink).keeps_model() ==> {
            &&& final(source).content() == old(source).content()
            &&& old(source).reads().is_prefix_of(final(source).reads())
            &&& old(sink).calls().is_prefix_of(final(sink).calls())
            &&& copy_outcome(
                r,
                old(source).content(),
                old(source).spec_capabilities(),
                old(sink).spec_capabilities(),
                old(source).len_result(),
                old(sink).len_result(),
                spec_chunk_size(chunk_size, old(source).spec_block_size(), old(sink).spec_block_size()),
                final(source).reads().skip(old(source).reads().len() as int),
                final(sink).calls().skip(old(sink).calls().len() as int),
            )
        },
        old(source).keeps_model() && old(sink).keeps_model() && old(progress).keeps_model() ==> {
            &&& old(progress).reports().is_prefix_of(final(progress).reports())
            &&& progress_outcome(
                r,
                final(progress).reports().skip(old(progress).reports().len() as int),
                final(source).reads().skip(old(source).reads().len() as int),
                final(sink).calls().skip(old(sink).calls().len() as int),
                old(source).content().len() as int,
            )
        },
{
    let ghost src = source.content();
    let ghost reads0 = source.reads();
    let ghost calls0 = sink.calls();
    let ghost reports0 = progress.reports();
    let ghost modelled = source.keeps_model() && sink.keeps_model();
    let ghost observed = modelled && progress.keeps_model();
    let ghost mut reads: Seq<ReadCall> = Seq::empty();
    let ghost mut calls: Seq<SinkCall> = Seq::empty();
    let ghost mut reps: Seq<(u64, u64)> = Seq::empty();
    proof {
        lemma_log_grew(reads0, reads);
        lemma_log_grew(calls0, calls);
        lemma_log_grew(reports0, reps);
        assert(reads0 + reads =~= reads0);
        assert(calls0 + calls =~= calls0);
        assert(reports0 + reps =~= reports0);
    }
    let source_caps = source.capabilities();
    let sink_caps = sink.capabilities();
    match check_random_access(source_caps, sink_caps) {
        Ok(()) => {},
        Err(e) => return Err(e),
    }
    let chunk = effective_chunk_size(chunk_size, source.block_size(), sink.block_size());
    let source_len = match source.len() {
        Ok(v) => v,
        Err(e) => return Err(TransferError::Io(e)),
    };
    let sink_len = match sink.len() {
        Ok(v) => v,
        Err(e) => return Err(TransferError::Io(e)),
    };
    match check_destination_capacity(sink_len, source_len) {
        Ok(()) => {},
        Err(e) => return Err(e),
    }

    let mut state = CopyState::new(source_len, chunk);
    let mut buf: Vec<u8> = vec![0u8; chunk];
    loop
        invariant
            source.keeps_model() == old(source).keeps_model(),
            sink.keeps_model() == old(sink).keeps_model(),
            progress.keeps_model() == old(progress).keeps_model(),
            modelled == (old(source).keeps_model() && old(sink).keeps_model()),
            observed == (modelled && old(progress).keeps_model()),
            src == old(source).content(),
            reads0 == old(source).reads(),
            calls0 == old(sink).calls(),
            reports0 == old(progress).reports(),
            modelled ==> {
                &&& source_caps == old(source).spec_capabilities()
                &&& sink_caps == old(sink).spec_capabilities()
                &&& old(source).len_result() == Ok::<u64, std::io::Error>(source_len)
                &&& old(sink).len_result() == Ok::<u64, std::io::Error>(sink_len)
                &&& chunk == spec_chunk_size(
                    chunk_size,
                    old(source).spec_block_size(),
                    old(sink).spec_block_size(),
                )
                &&& source_len == src.len()
            },
            source_caps.random_access && sink_caps.random_access,
            !(0 < sink_len && sink_len < source_len),
            state.wf(),
            state.source_len() == source_len,
            state.chunk_size() == chunk,
            buf@.len() <= chunk,
            state.chunk_len() <= buf@.len(),
            buf@.len() == chunk || state.copied() + buf@.len() >= source_len,
            buf@.take(state.chunk_len() as int) == state.received().skip(state.copied() as int),
            reads_in_order(reads, source_len as int, chunk as int),
            forall|i: int| 0 <= i < reads.len() ==> (#[trigger] reads[i].result matches Ok(k) && k > 0),
            reads_end(reads) == state.received().len(),
            forall|i: int| 0 <= i < calls.len() ==> (#[trigger] calls[i] matches SinkCall::Write {
                result: Ok(k),
                ..
            } && k > 0),
            writes_end(calls) == state.delivered().len(),
            reps.len() == (if state.chunk_len() > 0 { reads.len() - 1 } else { reads.len() as int }),
            forall|i: int|
                0 <= i < reps.len() ==> #[trigger] reps[i] == (
                    (reads[i].offset + read_got(reads[i])) as u64,
                    source_len,
                ),
            modelled ==> {
                &&& source.content() == src
                &&& source.reads() == reads0 + reads
                &&& sink.calls() == calls0 + calls
                &&& state.received() == src.take(state.received().len() as int)
                &&& writes_in_order(calls, src)
            },
            observed ==> progress.reports() == reports0 + reps,
        ensures
            state.wf(),
            state.copied() == source_len,
            state.chunk_len() == 0,
            state.delivered() == state.received(),
            state.received().len() == source_len,
        decreases
            2 * (source_len - state.copied()) - (if state.chunk_len() > 0 { 1int } else { 0int }),
            state.chunk_len() - state.chunk_written(),
    {
        match state.next_step() {
            CopyStep::Finish => {
                proof {
                    lemma_finish_means_complete_copy(state);
                }
                break;
            },
            CopyStep::Read { offset, len } => {
                if len < buf.len() {
                    buf.truncate(len);
                }
                let result = source.read_at(offset, buf.as_mut_slice());
                let ghost call = ReadCall { offset, len: buf@.len() as usize, result };
                let ghost before_reads = reads;
                proof {
                    lemma_read_logged(reads, call, source_len as int, chunk as int);
                    reads = reads.push(call);
                    assert forall|i: int| 0 <= i < reps.len() implies #[trigger] reps[i] == (
                        (reads[i].offset + read_got(reads[i])) as u64,
                        source_len,
                    ) by {
                        assert(reads[i] == before_reads[i]);
                    };
                    if modelled {
                        assert(source.reads() =~= reads0 + reads);
                    }
                    lemma_log_grew(reads0, reads);
                    lemma_log_grew(calls0, calls);
                    lemma_log_grew(reports0, reps);
                    if calls.len() > 0 {
                        assert(calls[calls.len() - 1] matches SinkCall::Write { result: Ok(k), .. } && k > 0);
                    }
                }
                let read = match result {
                    Ok(n) => n,
                    Err(e) => return Err(TransferError::Io(e)),
                };
                let data = slice_subrange(buf.as_slice(), 0, read);
                let ghost before = state.received();
                match state.record_read(data) {
                    Ok(()) => {},
                    Err(e) => return Err(e),
                }
                assert(buf@.take(state.chunk_len() as int) =~= state.received().skip(
                    state.copied() as int,
                )) by {
                    assert(before.len() == state.copied());
                };
                proof {
                    if modelled {
                        assert(state.received() =~= src.take(state.received().len() as int));
                    }
                }
            },
            CopyStep::Write { offset, start, end } => {
                let sent = slice_subrange(buf.as_slice(), start, end);
                assert(sent@ =~= state.pending()) by {
                    let c = state.copied() as int;
                    assert forall|i: int| 0 <= i < sent@.len() implies sent@[i] == state.pending()[i] by {
                        assert(sent@[i] == buf@.take(state.chunk_len() as int)[start + i]);
                        assert(state.received().skip(c)[start + i] == state.received()[c + start + i]);
                    };
                };
                proof {
                    if modelled {
                        assert(sent@ =~= src.subrange(offset as int, offset + sent@.len()));
                    }
                }
                let result = sink.write_at(offset, sent);
                let ghost call = SinkCall::Write { offset, data: sent@, result };
                proof {
                    if modelled {
                        lemma_call_logged(calls, call, src);
                    }
                    calls = calls.push(call);
                    if modelled {
                        assert(sink.calls() =~= calls0 + calls);
                    }
                    lemma_log_grew(reads0, reads);
                    lemma_log_grew(calls0, calls);
                    lemma_log_grew(reports0, reps);
                    assert(reads[reads.len() - 1].result matches Ok(k) && k > 0);
                }
                let reported = match result {
                    Ok(n) => n,
                    Err(e) => return Err(TransferError::Io(e)),
                };
                // A count above the bytes sent completes the pending part.
                let accepted = if reported > sent.len() { sent.len() } else { reported };
                let complete = match state.record_write(sent, accepted) {
                    Ok(c) => c,
                    Err(e) => return Err(e),
                };
                if complete {
                    assert(buf@.take(0) =~= state.received().skip(state.copied() as int));
                    let copied = state.copied_bytes();
                    let total = state.total_bytes();
                    progress.report(copied, total);
                    proof {
                        reps = reps.push((copied, total));
                        if observed {
                            assert(progress.reports() =~= reports0 + reps);
                        }
                    }
                }
            },
        }
    }
    let result = sink.flush();
    proof {
        let call = SinkCall::Flush { outcome: result };
        if modelled {
            lemma_call_logged(calls, call, src);
        }
        calls = calls.push(call);
        if modelled {
            assert(sink.calls() =~= calls0 + calls);
        }
        lemma_log_grew(reads0, reads);
        lemma_log_grew(calls0, calls);
        lemma_log_grew(reports0, reps);
        if reads.len() > 0 {
            assert(reads[reads.len() - 1].result matches Ok(k) && k > 0);
            assert(reps[reps.len() - 1] == reps.last());
        } else {
            assert(source_len == 0);
        }
    }
    match result {
        Ok(()) => {},
        Err(e) => return Err(TransferError::Io(e)),
    }
    Ok(TransferStats { bytes_copied: state.copied_bytes(), source_len })
}

/// Reports nothing.
struct NoProgress;

impl ProgressObserver for NoProgress {
    closed spec fn keeps_model(&self) -> bool {
        false
    }

    fn report(&mut self, copied: u64, total: u64) {
    }
}

/// `copy_all_with_progress` without progress reports: the same result and
/// the same calls made of both ends.
pub fn copy_all<S, D>(source: &mut S, sink: &mut D, chunk_size: usize) -> (r: Result<TransferStats, TransferError>) where
    S: BlockSource + ?Sized,
    D: BlockSink + ?Sized,

    ensures
        final(source).keeps_model() == old(source).keeps_model(),
        final(sink).keeps_model() == old(sink).keeps_model(),
        old(source).keeps_model() && old(sink).keeps_model() ==> {
            &&& final(source).content() == old(source).content()
            &&& old(source).reads().is_prefix_of(final(source).reads())
            &&& old(sink).calls().is_prefix_of(final(sink).calls())
            &&& copy_outcome(
                r,
                old(source).content(),
                old(source).spec_capabilities(),
                old(sink).spec_capabilities(),
                old(source).len_result(),
                old(sink).len_result(),
                spec_chunk_size(chunk_size, old(source).spec_block_size(), old(sink).spec_block_size()),
                final(source).reads().skip(old(source).reads().len() as int),
                final(sink).calls().skip(old(sink).calls().len() as int),
            )
        },
{
    let mut quiet = NoProgress;
    copy_all_with_progress(source, sink, chunk_size, &mut quiet)
}

} // verus!
