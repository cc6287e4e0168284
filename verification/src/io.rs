//! The uniform source/sink interface that every backend implements.

use vstd::prelude::*;

verus! {

/// `std::io::Error`, which backends report and the copy carries through
/// without looking inside.
#[verifier::external_type_specification]
#[verifier::external_body]
pub struct ExIoError(std::io::Error);

/// What a backend supports.
#[derive(Debug, Clone, Copy, Default)]
pub struct BackendCapabilities {
    pub random_access: bool,
    pub requires_elevation: bool,
}

/// One `read_at` call as a source saw it: where, how many bytes were asked
/// for, and what it returned.
pub struct ReadCall {
    pub offset: u64,
    pub len: usize,
    pub result: Result<usize, std::io::Error>,
}

/// One call that acts on a sink.
pub enum SinkCall {
    /// `write_at` with the bytes handed over, and what it returned.
    Write { offset: u64, data: Seq<u8>, result: Result<usize, std::io::Error> },
    /// `flush`, and what it returned.
    Flush { outcome: Result<(), std::io::Error> },
}

/// Something bytes can be read from at given offsets.
///
/// A source may give a model of itself (`keeps_model`): the bytes it holds
/// (`content`), what its length query returns, the block size and the
/// capabilities it reports, and the log of every `read_at` call made of it
/// (`reads`). What the methods promise of the model binds only a source
/// that gives one, such as `MemorySource`, whose code Verus checks against
/// it. A backend written outside verified code (files, raw devices,
/// network streams, the elevated worker) cannot write spec functions, so
/// every model function has a default for it to keep; with `keeps_model`
/// false the defaults make no claim on it, and of it only what stands
/// outside the `keeps_model` clauses is promised.
pub trait BlockSource {
    /// Whether this source gives the model below.
    closed spec fn keeps_model(&self) -> bool {
        false
    }

    /// The bytes this source holds, in order.
    closed spec fn content(&self) -> Seq<u8> {
        Seq::empty()
    }

    /// What `len` returns.
    closed spec fn len_result(&self) -> Result<u64, std::io::Error> {
        Ok(0)
    }

    /// Every `read_at` call made of this source so far, in order.
    closed spec fn reads(&self) -> Seq<ReadCall> {
        Seq::empty()
    }

    closed spec fn spec_block_size(&self) -> usize {
        1
    }

    closed spec fn spec_capabilities(&self) -> BackendCapabilities {
        BackendCapabilities { random_access: false, requires_elevation: false }
    }

    /// The number of bytes the source holds.
    fn len(&self) -> (result: std::io::Result<u64>)
        ensures
            self.keeps_model() ==> result == self.len_result(),
            self.keeps_model() ==> (result matches Ok(n) ==> n == self.content().len()),
    ;

    fn block_size(&self) -> (result: usize)
        ensures
            self.keeps_model() ==> result == self.spec_block_size(),
    ;

    fn capabilities(&self) -> (result: BackendCapabilities)
        ensures
            self.keeps_model() ==> result == self.spec_capabilities(),
    ;

    /// Reads at most `buf.len()` bytes starting at `offset` into the start
    /// of `buf` and reports how many (a count above the buffer's length is
    /// never reported, as for `std::io::Read::read`): the source's bytes at
    /// that offset, or none at its end. The call is logged whatever its
    /// outcome.
    fn read_at(&mut self, offset: u64, buf: &mut [u8]) -> (result: std::io::Result<usize>)
        ensures
            final(buf)@.len() == old(buf)@.len(),
            result matches Ok(n) ==> n <= old(buf)@.len(),
            final(self).keeps_model() == old(self).keeps_model(),
            old(self).keeps_model() ==> {
                &&& final(self).content() == old(self).content()
                &&& final(self).reads() == old(self).reads().push(
                    ReadCall { offset, len: old(buf)@.len() as usize, result },
                )
                &&& result matches Ok(n) ==> n > 0 ==> {
                    &&& offset + n <= old(self).content().len()
                    &&& final(buf)@.take(n as int) == old(self).content().subrange(
                        offset as int,
                        offset + n,
                    )
                }
            },
    ;
}

/// Something bytes can be written to at given offsets.
///
/// As for sources, a sink may give a model of itself (`keeps_model`): what
/// its length query returns, the block size and capabilities it reports,
/// and the log of every `write_at` and `flush` call made of it (`calls`).
/// `MemorySink` gives one; backends written outside verified code cannot,
/// and keep the defaults, under which nothing is claimed of the model.
pub trait BlockSink {
    /// Whether this sink gives the model below.
    closed spec fn keeps_model(&self) -> bool {
        false
    }

    /// What `len` returns.
    closed spec fn len_result(&self) -> Result<u64, std::io::Error> {
        Ok(0)
    }

    /// Every `write_at` and `flush` call made of this sink so far, in order.
    closed spec fn calls(&self) -> Seq<SinkCall> {
        Seq::empty()
    }

    closed spec fn spec_block_size(&self) -> usize {
        1
    }

    closed spec fn spec_capabilities(&self) -> BackendCapabilities {
        BackendCapabilities { random_access: false, requires_elevation: false }
    }

    /// The sink's fixed length, or 0 for one that grows as it is written.
    fn len(&self) -> (result: std::io::Result<u64>)
        ensures
            self.keeps_model() ==> result == self.len_result(),
    ;

    fn block_size(&self) -> (result: usize)
        ensures
            self.keeps_model() ==> result == self.spec_block_size(),
    ;

    fn capabilities(&self) -> (result: BackendCapabilities)
        ensures
            self.keeps_model() ==> result == self.spec_capabilities(),
    ;

    /// Writes bytes of `buf` at `offset` and reports how many. The call is
    /// logged whatever its outcome.
    fn write_at(&mut self, offset: u64, buf: &[u8]) -> (result: std::io::Result<usize>)
        ensures
            final(self).keeps_model() == old(self).keeps_model(),
            old(self).keeps_model() ==> final(self).calls() == old(self).calls().push(
                SinkCall::Write { offset, data: buf@, result },
            ),
    ;

    /// Makes what was written durable. The call is logged with its outcome.
    fn flush(&mut self) -> (result: std::io::Result<()>)
        ensures
            final(self).keeps_model() == old(self).keeps_model(),
            old(self).keeps_model() ==> final(self).calls() == old(self).calls().push(
                SinkCall::Flush { outcome: result },
            ),
    ;
}

/// Receives the copy's progress reports: bytes copied so far, and the total.
///
/// An observer may give a model of itself (`keeps_model`): the log of every
/// report it received. `ProgressLog` gives one; observers written outside
/// verified code keep the defaults, under which nothing is claimed of the
/// model.
pub trait ProgressObserver {
    /// Whether this observer gives the model below.
    closed spec fn keeps_model(&self) -> bool {
        false
    }

    /// Every report received so far, in order.
    closed spec fn reports(&self) -> Seq<(u64, u64)> {
        Seq::empty()
    }

    fn report(&mut self, copied: u64, total: u64)
        ensures
            final(self).keeps_model() == old(self).keeps_model(),
            old(self).keeps_model() ==> final(self).reports() == old(self).reports().push(
                (copied, total),
            ),
    ;
}

/// A device reported a negative length.
#[derive(Debug, Clone, Copy)]
pub struct NegativeDeviceLength {
    pub length: i64,
}

/// The length a device reports (as a signed 64-bit integer), refused when
/// negative.
pub fn checked_device_length(length: i64) -> (r: Result<u64, NegativeDeviceLength>)
    ensures
        length >= 0 ==> r == Ok::<u64, NegativeDeviceLength>(length as u64),
        length < 0 ==> (r matches Err(e) && e.length == length),
{
    if length < 0 {
        Err(NegativeDeviceLength { length })
    } else {
        Ok(length as u64)
    }
}

} // verus!
