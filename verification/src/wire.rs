//! The protocol between the unelevated process and its elevated worker:
//! a token handshake, then requests (an operation byte and its fields,
//! integers little-endian, byte strings prefixed by a 32-bit length) each
//! answered by a status byte and the operation's result.

use vstd::prelude::*;
use vstd::bytes::{
    spec_u32_from_le_bytes, spec_u32_to_le_bytes, spec_u64_from_le_bytes, spec_u64_to_le_bytes,
    u32_from_le_bytes, u32_to_le_bytes, u64_from_le_bytes, u64_to_le_bytes,
    lemma_auto_spec_u32_to_from_le_bytes, lemma_auto_spec_u64_to_from_le_bytes,
};
use vstd::slice::slice_subrange;
use vstd::utf8::{decode_utf8, encode_utf8, valid_utf8};

use vstd::string::StringExecFns;

use crate::cli::{lemma_worker_command_line, spec_parse_args, BackendKind, CliArgs, CliError};
use crate::text::{all_digits, decimal_digits, lemma_decimal_roundtrip, push_decimal};

verus! {

pub const OP_INIT: u8 = 1;
pub const OP_SOURCE_LEN: u8 = 2;
pub const OP_READ_AT: u8 = 3;
pub const OP_WRITE_AT: u8 = 4;
pub const OP_FLUSH: u8 = 5;
pub const OP_SHUTDOWN: u8 = 6;

pub const KIND_FILE: u8 = 1;
pub const KIND_BLOCK: u8 = 2;
pub const KIND_VHDX: u8 = 3;

/// The status byte of a successful reply.
pub const STATUS_OK: u8 = 0;

/// The byte a worker answers a token it rejects with.
pub const TOKEN_REJECTED: u8 = 1;

/// The wire code of a backend kind the worker can open.
pub open spec fn spec_wire_code(kind: BackendKind) -> u8 {
    match kind {
        BackendKind::File => KIND_FILE,
        BackendKind::Block => KIND_BLOCK,
        BackendKind::Vhdx => KIND_VHDX,
        BackendKind::Network => 0,
    }
}

/// The wire code of a backend kind the worker can open; the network has
/// none (the worker cannot serve it).
pub fn backend_kind_to_wire(kind: BackendKind) -> (r: u8)
    requires
        !(kind is Network),
    ensures
        r == spec_wire_code(kind),
{
    match kind {
        BackendKind::File => KIND_FILE,
        BackendKind::Block => KIND_BLOCK,
        BackendKind::Vhdx => KIND_VHDX,
        BackendKind::Network => 0,
    }
}

/// Whether `bytes` are valid UTF-8. Trusted: `std::str::from_utf8`
/// succeeds exactly on the byte strings that vstd's `valid_utf8` (the
/// UTF-8 standard) accepts.
#[verifier::external_body]
fn is_valid_utf8(bytes: &[u8]) -> (r: bool)
    ensures
        r == valid_utf8(bytes@),
{
    std::str::from_utf8(bytes).is_ok()
}

/// Appends `bytes` to `out`.
pub fn append_bytes(out: &mut Vec<u8>, bytes: &[u8])
    ensures
        final(out)@ == old(out)@ + bytes@,
{
    let mut i: usize = 0;
    while i < bytes.len()
        invariant
            i <= bytes@.len(),
            out@ == old(out)@ + bytes@.take(i as int),
        decreases bytes@.len() - i,
    {
        out.push(bytes[i]);
        assert(bytes@.take(i + 1) =~= bytes@.take(i as int).push(bytes@[i as int]));
        i = i + 1;
    }
    assert(bytes@.take(bytes@.len() as int) =~= bytes@);
}

/// A byte string as the protocol sends it: its length as a 32-bit integer
/// (truncated, as the sender casts it), then the bytes.
pub open spec fn spec_framed(b: Seq<u8>) -> Seq<u8> {
    spec_u32_to_le_bytes(b.len() as u32) + b
}

/// A framed byte string read back where it stands in a stream: its length
/// field gives its length, and the bytes after the field are the string,
/// whatever comes before or after it.
pub proof fn lemma_framed_roundtrip(before: Seq<u8>, b: Seq<u8>, rest: Seq<u8>)
    requires
        b.len() <= u32::MAX,
    ensures
        le32_at(before + spec_framed(b) + rest, before.len() as int) == b.len(),
        (before + spec_framed(b) + rest).subrange(
            before.len() + 4int,
            before.len() + 4int + b.len(),
        ) == b,
{
    lemma_auto_spec_u32_to_from_le_bytes();
    let s = before + spec_framed(b) + rest;
    let p = before.len() as int;
    assert(s.subrange(p, p + 4) =~= spec_u32_to_le_bytes(b.len() as u32));
    assert(s.subrange(p + 4, p + 4 + b.len()) =~= b);
}

pub fn append_framed(out: &mut Vec<u8>, bytes: &[u8])
    ensures
        final(out)@ == old(out)@ + spec_framed(bytes@),
{
    let len = u32_to_le_bytes(bytes.len() as u32);
    append_bytes(out, len.as_slice());
    append_bytes(out, bytes);
    assert(out@ =~= old(out)@ + spec_framed(bytes@));
}

/// A request to the worker.
#[derive(Debug)]
pub enum WorkerRequest {
    /// Open the source and the sink.
    Init {
        src_kind: u8,
        dst_kind: u8,
        chunk_size: u32,
        vhdx_size_bytes: u64,
        src_path: Vec<u8>,
        dst_path: Vec<u8>,
    },
    /// The source's length.
    SourceLen,
    /// Read up to `len` bytes of the source at `offset`.
    ReadAt { offset: u64, len: u32 },
    /// Write `data` to the sink at `offset`.
    WriteAt { offset: u64, data: Vec<u8> },
    /// Flush the sink.
    Flush,
    /// End the session.
    Shutdown,
}

/// A request, with its byte strings as sequences.
pub enum RequestView {
    Init {
        src_kind: u8,
        dst_kind: u8,
        chunk_size: u32,
        vhdx_size_bytes: u64,
        src_path: Seq<u8>,
        dst_path: Seq<u8>,
    },
    SourceLen,
    ReadAt { offset: u64, len: u32 },
    WriteAt { offset: u64, data: Seq<u8> },
    Flush,
    Shutdown,
}

impl View for WorkerRequest {
    type V = RequestView;

    open spec fn view(&self) -> RequestView {
        match self {
            WorkerRequest::Init { src_kind, dst_kind, chunk_size, vhdx_size_bytes, src_path, dst_path } =>
                RequestView::Init {
                src_kind: *src_kind,
                dst_kind: *dst_kind,
                chunk_size: *chunk_size,
                vhdx_size_bytes: *vhdx_size_bytes,
                src_path: src_path@,
                dst_path: dst_path@,
            },
            WorkerRequest::SourceLen => RequestView::SourceLen,
            WorkerRequest::ReadAt { offset, len } => RequestView::ReadAt { offset: *offset, len: *len },
            WorkerRequest::WriteAt { offset, data } => RequestView::WriteAt { offset: *offset, data: data@ },
            WorkerRequest::Flush => RequestView::Flush,
            WorkerRequest::Shutdown => RequestView::Shutdown,
        }
    }
}

/// The bytes of a request.
pub open spec fn spec_encode_request(r: RequestView) -> Seq<u8> {
    match r {
        RequestView::Init { src_kind, dst_kind, chunk_size, vhdx_size_bytes, src_path, dst_path } =>
            seq![OP_INIT, src_kind, dst_kind] + spec_u32_to_le_bytes(chunk_size)
            + spec_u64_to_le_bytes(vhdx_size_bytes) + spec_framed(src_path) + spec_framed(dst_path),
        RequestView::SourceLen => seq![OP_SOURCE_LEN],
        RequestView::ReadAt { offset, len } => seq![OP_READ_AT] + spec_u64_to_le_bytes(offset)
            + spec_u32_to_le_bytes(len),
        RequestView::WriteAt { offset, data } => seq![OP_WRITE_AT] + spec_u64_to_le_bytes(offset)
            + spec_framed(data),
        RequestView::Flush => seq![OP_FLUSH],
        RequestView::Shutdown => seq![OP_SHUTDOWN],
    }
}

/// The bytes that send `req` to the worker.
pub fn encode_request(req: &WorkerRequest) -> (r: Vec<u8>)
    ensures
        r@ == spec_encode_request(req@),
{
    let mut out: Vec<u8> = Vec::new();
    match req {
        WorkerRequest::Init { src_kind, dst_kind, chunk_size, vhdx_size_bytes, src_path, dst_path } => {
            out.push(OP_INIT);
            out.push(*src_kind);
            out.push(*dst_kind);
            let c = u32_to_le_bytes(*chunk_size);
            append_bytes(&mut out, c.as_slice());
            let v = u64_to_le_bytes(*vhdx_size_bytes);
            append_bytes(&mut out, v.as_slice());
            append_framed(&mut out, src_path.as_slice());
            append_framed(&mut out, dst_path.as_slice());
        },
        WorkerRequest::SourceLen => {
            out.push(OP_SOURCE_LEN);
        },
        WorkerRequest::ReadAt { offset, len } => {
            out.push(OP_READ_AT);
            let o = u64_to_le_bytes(*offset);
            append_bytes(&mut out, o.as_slice());
            let l = u32_to_le_bytes(*len);
            append_bytes(&mut out, l.as_slice());
        },
        WorkerRequest::WriteAt { offset, data } => {
            out.push(OP_WRITE_AT);
            let o = u64_to_le_bytes(*offset);
            append_bytes(&mut out, o.as_slice());
            append_framed(&mut out, data.as_slice());
        },
        WorkerRequest::Flush => {
            out.push(OP_FLUSH);
        },
        WorkerRequest::Shutdown => {
            out.push(OP_SHUTDOWN);
        },
    }
    assert(out@ =~= spec_encode_request(req@));
    out
}


/// The little-endian 32-bit integer at `b[i..i + 4]`.
pub open spec fn le32_at(b: Seq<u8>, i: int) -> u32 {
    spec_u32_from_le_bytes(b.subrange(i, i + 4))
}

/// The little-endian 64-bit integer at `b[i..i + 8]`.
pub open spec fn le64_at(b: Seq<u8>, i: int) -> u64 {
    spec_u64_from_le_bytes(b.subrange(i, i + 8))
}

/// Where the fixed part of an init request ends (operation, two kinds,
/// chunk size, image size, length of the source path).
pub const INIT_HEADER_LEN: u64 = 19;

/// Where the fixed part of a read or write request ends (operation,
/// offset, length).
pub const OFFSET_HEADER_LEN: u64 = 13;

/// What the first bytes of a request stream hold.
pub enum RequestDecodeView {
    /// At least `need` bytes are needed before the request is known.
    Incomplete { need: nat },
    /// The first `used` bytes hold `request`.
    Complete { request: RequestView, used: nat },
    /// The operation byte names no operation.
    UnknownOp(u8),
    /// A path is not valid UTF-8.
    InvalidUtf8,
}

/// Reads the request at the start of `b`, field by field in the order they
/// are sent; a path is checked as soon as it has been read.
pub open spec fn spec_decode_request(b: Seq<u8>) -> RequestDecodeView {
    if b.len() < 1 {
        RequestDecodeView::Incomplete { need: 1 }
    } else {
        let op = b[0];
        if op == OP_INIT {
            if b.len() < INIT_HEADER_LEN {
                RequestDecodeView::Incomplete { need: INIT_HEADER_LEN as nat }
            } else {
                let e1 = (INIT_HEADER_LEN + le32_at(b, 15)) as nat;
                if b.len() < e1 {
                    RequestDecodeView::Incomplete { need: e1 }
                } else if !valid_utf8(b.subrange(INIT_HEADER_LEN as int, e1 as int)) {
                    RequestDecodeView::InvalidUtf8
                } else if b.len() < e1 + 4 {
                    RequestDecodeView::Incomplete { need: (e1 + 4) as nat }
                } else {
                    let e2 = (e1 + 4 + le32_at(b, e1 as int)) as nat;
                    if b.len() < e2 {
                        RequestDecodeView::Incomplete { need: e2 }
                    } else if !valid_utf8(b.subrange(e1 + 4int, e2 as int)) {
                        RequestDecodeView::InvalidUtf8
                    } else {
                        RequestDecodeView::Complete {
                            request: RequestView::Init {
                                src_kind: b[1],
                                dst_kind: b[2],
                                chunk_size: le32_at(b, 3),
                                vhdx_size_bytes: le64_at(b, 7),
                                src_path: b.subrange(INIT_HEADER_LEN as int, e1 as int),
                                dst_path: b.subrange(e1 + 4int, e2 as int),
                            },
                            used: e2,
                        }
                    }
                }
            }
        } else if op == OP_SOURCE_LEN {
            RequestDecodeView::Complete { request: RequestView::SourceLen, used: 1 }
        } else if op == OP_READ_AT {
            if b.len() < OFFSET_HEADER_LEN {
                RequestDecodeView::Incomplete { need: OFFSET_HEADER_LEN as nat }
            } else {
                RequestDecodeView::Complete {
                    request: RequestView::ReadAt { offset: le64_at(b, 1), len: le32_at(b, 9) },
                    used: OFFSET_HEADER_LEN as nat,
                }
            }
        } else if op == OP_WRITE_AT {
            if b.len() < OFFSET_HEADER_LEN {
                RequestDecodeView::Incomplete { need: OFFSET_HEADER_LEN as nat }
            } else {
                let e = (OFFSET_HEADER_LEN + le32_at(b, 9)) as nat;
                if b.len() < e {
                    RequestDecodeView::Incomplete { need: e }
                } else {
                    RequestDecodeView::Complete {
                        request: RequestView::WriteAt {
                            offset: le64_at(b, 1),
                            data: b.subrange(OFFSET_HEADER_LEN as int, e as int),
                        },
                        used: e,
                    }
                }
            }
        } else if op == OP_FLUSH {
            RequestDecodeView::Complete { request: RequestView::Flush, used: 1 }
        } else if op == OP_SHUTDOWN {
            RequestDecodeView::Complete { request: RequestView::Shutdown, used: 1 }
        } else {
            RequestDecodeView::UnknownOp(op)
        }
    }
}

/// What the first bytes of a request stream hold.
#[derive(Debug)]
pub enum RequestDecode {
    /// At least `need` bytes are needed before the request is known.
    Incomplete { need: u64 },
    /// The first `used` bytes hold `request`.
    Complete { request: WorkerRequest, used: usize },
    /// The operation byte names no operation.
    UnknownOp(u8),
    /// A path is not valid UTF-8.
    InvalidUtf8,
}

impl View for RequestDecode {
    type V = RequestDecodeView;

    open spec fn view(&self) -> RequestDecodeView {
        match self {
            RequestDecode::Incomplete { need } => RequestDecodeView::Incomplete { need: *need as nat },
            RequestDecode::Complete { request, used } => RequestDecodeView::Complete {
                request: request@,
                used: *used as nat,
            },
            RequestDecode::UnknownOp(op) => RequestDecodeView::UnknownOp(*op),
            RequestDecode::InvalidUtf8 => RequestDecodeView::InvalidUtf8,
        }
    }
}

fn le32_in(b: &[u8], i: usize) -> (r: u32)
    requires
        i + 4 <= b@.len(),
    ensures
        r == le32_at(b@, i as int),
{
    // The slice's length, a usize, bounds `i + 4`.
    let len: usize = b.len();
    assert(i + 4 <= len);
    u32_from_le_bytes(slice_subrange(b, i, i + 4))
}

fn le64_in(b: &[u8], i: usize) -> (r: u64)
    requires
        i + 8 <= b@.len(),
    ensures
        r == le64_at(b@, i as int),
{
    // The slice's length, a usize, bounds `i + 8`.
    let len: usize = b.len();
    assert(i + 8 <= len);
    u64_from_le_bytes(slice_subrange(b, i, i + 8))
}

fn bytes_in(b: &[u8], i: usize, j: usize) -> (r: Vec<u8>)
    requires
        i <= j <= b@.len(),
    ensures
        r@ == b@.subrange(i as int, j as int),
{
    vstd::slice::slice_to_vec(slice_subrange(b, i, j))
}

/// Reads the request at the start of `buf`: how many bytes are still
/// needed, or the request and how many bytes it took, or why the bytes are
/// no request.
pub fn decode_request(buf: &[u8]) -> (r: RequestDecode)
    ensures
        r@ == spec_decode_request(buf@),
{
    let n = buf.len() as u64;
    if n < 1 {
        return RequestDecode::Incomplete { need: 1 };
    }
    let op = buf[0];
    if op == OP_INIT {
        if n < INIT_HEADER_LEN {
            return RequestDecode::Incomplete { need: INIT_HEADER_LEN };
        }
        let e1 = INIT_HEADER_LEN + le32_in(buf, 15) as u64;
        if n < e1 {
            return RequestDecode::Incomplete { need: e1 };
        }
        let src_path = slice_subrange(buf, INIT_HEADER_LEN as usize, e1 as usize);
        if !is_valid_utf8(src_path) {
            return RequestDecode::InvalidUtf8;
        }
        if n < e1 + 4 {
            return RequestDecode::Incomplete { need: e1 + 4 };
        }
        let e2 = e1 + 4 + le32_in(buf, e1 as usize) as u64;
        if n < e2 {
            return RequestDecode::Incomplete { need: e2 };
        }
        let dst_path = slice_subrange(buf, (e1 + 4) as usize, e2 as usize);
        if !is_valid_utf8(dst_path) {
            return RequestDecode::InvalidUtf8;
        }
        RequestDecode::Complete {
            request: WorkerRequest::Init {
                src_kind: buf[1],
                dst_kind: buf[2],
                chunk_size: le32_in(buf, 3),
                vhdx_size_bytes: le64_in(buf, 7),
                src_path: vstd::slice::slice_to_vec(src_path),
                dst_path: vstd::slice::slice_to_vec(dst_path),
            },
            used: e2 as usize,
        }
    } else if op == OP_SOURCE_LEN {
        RequestDecode::Complete { request: WorkerRequest::SourceLen, used: 1 }
    } else if op == OP_READ_AT {
        if n < OFFSET_HEADER_LEN {
            return RequestDecode::Incomplete { need: OFFSET_HEADER_LEN };
        }
        RequestDecode::Complete {
            request: WorkerRequest::ReadAt { offset: le64_in(buf, 1), len: le32_in(buf, 9) },
            used: OFFSET_HEADER_LEN as usize,
        }
    } else if op == OP_WRITE_AT {
        if n < OFFSET_HEADER_LEN {
            return RequestDecode::Incomplete { need: OFFSET_HEADER_LEN };
        }
        let e = OFFSET_HEADER_LEN + le32_in(buf, 9) as u64;
        if n < e {
            return RequestDecode::Incomplete { need: e };
        }
        RequestDecode::Complete {
            request: WorkerRequest::WriteAt {
                offset: le64_in(buf, 1),
                data: bytes_in(buf, OFFSET_HEADER_LEN as usize, e as usize),
            },
            used: e as usize,
        }
    } else if op == OP_FLUSH {
        RequestDecode::Complete { request: WorkerRequest::Flush, used: 1 }
    } else if op == OP_SHUTDOWN {
        RequestDecode::Complete { request: WorkerRequest::Shutdown, used: 1 }
    } else {
        RequestDecode::UnknownOp(op)
    }
}


/// A request that the protocol can carry: byte strings short enough for
/// their 32-bit length, and paths in UTF-8.
pub open spec fn request_wf(r: RequestView) -> bool {
    match r {
        RequestView::Init { src_path, dst_path, .. } => {
            &&& src_path.len() <= u32::MAX
            &&& dst_path.len() <= u32::MAX
            &&& valid_utf8(src_path)
            &&& valid_utf8(dst_path)
        },
        RequestView::WriteAt { data, .. } => data.len() <= u32::MAX,
        _ => true,
    }
}

/// Reading back the bytes of a request gives the request, whatever follows
/// it in the stream, and takes exactly its bytes.
pub proof fn lemma_request_roundtrip(r: RequestView, rest: Seq<u8>)
    requires
        request_wf(r),
    ensures
        spec_decode_request(spec_encode_request(r) + rest) == (RequestDecodeView::Complete {
            request: r,
            used: spec_encode_request(r).len(),
        }),
{
    lemma_auto_spec_u32_to_from_le_bytes();
    lemma_auto_spec_u64_to_from_le_bytes();
    let enc = spec_encode_request(r);
    let b = enc + rest;
    match r {
        RequestView::Init { src_kind, dst_kind, chunk_size, vhdx_size_bytes, src_path, dst_path } => {
            let l1 = src_path.len();
            let l2 = dst_path.len();
            let e1: int = 19int + l1;
            let e2: int = e1 + 4 + l2;
            assert(enc.len() == e2);
            assert(b.subrange(3, 7) =~= spec_u32_to_le_bytes(chunk_size));
            assert(b.subrange(7, 15) =~= spec_u64_to_le_bytes(vhdx_size_bytes));
            assert(b.subrange(15, 19) =~= spec_u32_to_le_bytes(l1 as u32));
            assert(b.subrange(19, e1) =~= src_path);
            assert(b.subrange(e1, e1 + 4) =~= spec_u32_to_le_bytes(l2 as u32));
            assert(b.subrange(e1 + 4, e2) =~= dst_path);
        },
        RequestView::SourceLen => {},
        RequestView::ReadAt { offset, len } => {
            assert(b.subrange(1, 9) =~= spec_u64_to_le_bytes(offset));
            assert(b.subrange(9, 13) =~= spec_u32_to_le_bytes(len));
        },
        RequestView::WriteAt { offset, data } => {
            let e: int = 13int + data.len();
            assert(b.subrange(1, 9) =~= spec_u64_to_le_bytes(offset));
            assert(b.subrange(9, 13) =~= spec_u32_to_le_bytes(data.len() as u32));
            assert(b.subrange(13, e) =~= data);
        },
        RequestView::Flush => {},
        RequestView::Shutdown => {},
    }
}

/// What the parent reads from the worker's reply is what the worker's
/// action produced: the source's length and the bytes read unchanged, the
/// write count as its low 32 bits, and a bare success otherwise.
pub proof fn lemma_parent_reads_worker_results(r: RequestView, o: ActionOutcome, rest: Seq<u8>)
    requires
        outcome_answers(r, o),
    ensures
        spec_decode_reply(spec_expected_reply(r), spec_encode_reply(spec_reply_for(o)) + rest) matches ReplyDecodeView::Complete {
            reply,
            ..
        } && match o {
            ActionOutcome::SourceLen(v) => reply matches ReplyView::SourceLen(w) && w == v,
            ActionOutcome::Read(d) => reply matches ReplyView::Data(e) && e == d@,
            ActionOutcome::Wrote(n) => reply matches ReplyView::Written(w) && w == n as u32,
            _ => reply is Done,
        },
{
    lemma_reply_answers_request(r, o, rest);
}

/// When more bytes are needed, more than are there are needed.
pub proof fn lemma_request_incomplete_needs_more(b: Seq<u8>)
    ensures
        spec_decode_request(b) matches RequestDecodeView::Incomplete { need } ==> need > b.len(),
{
}


impl WorkerRequest {
    /// The init request as the unelevated process sends it: the chunk size
    /// cut to 32 bits, and an image size of 0 when none is given.
    pub fn init(
        src_kind: u8,
        dst_kind: u8,
        chunk_size: usize,
        vhdx_size_bytes: Option<u64>,
        src_path: &str,
        dst_path: &str,
    ) -> (r: WorkerRequest)
        ensures
            r@ == (RequestView::Init {
                src_kind,
                dst_kind,
                chunk_size: chunk_size as u32,
                vhdx_size_bytes: match vhdx_size_bytes {
                    Some(v) => v,
                    None => 0,
                },
                src_path: vstd::utf8::encode_utf8(src_path@),
                dst_path: vstd::utf8::encode_utf8(dst_path@),
            }),
    {
        WorkerRequest::Init {
            src_kind,
            dst_kind,
            chunk_size: chunk_size as u32,
            vhdx_size_bytes: match vhdx_size_bytes {
                Some(v) => v,
                None => 0,
            },
            src_path: vstd::slice::slice_to_vec(src_path.as_bytes()),
            dst_path: vstd::slice::slice_to_vec(dst_path.as_bytes()),
        }
    }
}

/// The image size an init request carries: 0 stands for none.
pub fn requested_image_size(vhdx_size_bytes: u64) -> (r: Option<u64>)
    ensures
        r == (if vhdx_size_bytes == 0 { None } else { Some(vhdx_size_bytes) }),
{
    if vhdx_size_bytes == 0 {
        None
    } else {
        Some(vhdx_size_bytes)
    }
}

/// Why the worker refused a request.
#[derive(Debug, Clone, Copy)]
pub enum WorkerError {
    InvalidSourceKind,
    InvalidSinkKind,
    VhdxSizeRequired,
}

/// The source the worker opens for a wire kind: a file or a raw device.
pub open spec fn spec_source_kind(kind: u8) -> Option<BackendKind> {
    if kind == KIND_FILE {
        Some(BackendKind::File)
    } else if kind == KIND_BLOCK {
        Some(BackendKind::Block)
    } else {
        None
    }
}

pub fn source_kind_from_wire(kind: u8) -> (r: Result<BackendKind, WorkerError>)
    ensures
        match spec_source_kind(kind) {
            Some(k) => r == Ok::<BackendKind, WorkerError>(k),
            None => r matches Err(WorkerError::InvalidSourceKind),
        },
{
    if kind == KIND_FILE {
        Ok(BackendKind::File)
    } else if kind == KIND_BLOCK {
        Ok(BackendKind::Block)
    } else {
        Err(WorkerError::InvalidSourceKind)
    }
}

/// The sink the worker opens.
#[derive(Debug, Clone, Copy)]
pub enum SinkTarget {
    File,
    Block,
    Vhdx { size_bytes: u64 },
}

/// The sink the worker opens for a wire kind: a file, a raw device, or a
/// VHDX image, which needs a size.
pub open spec fn spec_sink_target(kind: u8, image_size: Option<u64>) -> Result<SinkTarget, WorkerError> {
    if kind == KIND_FILE {
        Ok(SinkTarget::File)
    } else if kind == KIND_BLOCK {
        Ok(SinkTarget::Block)
    } else if kind == KIND_VHDX {
        match image_size {
            Some(size_bytes) => Ok(SinkTarget::Vhdx { size_bytes }),
            None => Err(WorkerError::VhdxSizeRequired),
        }
    } else {
        Err(WorkerError::InvalidSinkKind)
    }
}

pub fn sink_target_from_wire(kind: u8, image_size: Option<u64>) -> (r: Result<SinkTarget, WorkerError>)
    ensures
        r == spec_sink_target(kind, image_size),
{
    if kind == KIND_FILE {
        Ok(SinkTarget::File)
    } else if kind == KIND_BLOCK {
        Ok(SinkTarget::Block)
    } else if kind == KIND_VHDX {
        match image_size {
            Some(size_bytes) => Ok(SinkTarget::Vhdx { size_bytes }),
            None => Err(WorkerError::VhdxSizeRequired),
        }
    } else {
        Err(WorkerError::InvalidSinkKind)
    }
}

/// The worker opens the kind the unelevated process named: a file or raw
/// device source; a file, raw device or (with its size) VHDX sink.
pub proof fn lemma_wire_kind_roundtrip(kind: BackendKind, image_size: u64)
    ensures
        kind is File || kind is Block ==> spec_source_kind(spec_wire_code(kind)) == Some(kind),
        kind is File ==> spec_sink_target(spec_wire_code(kind), None) == Ok::<SinkTarget, WorkerError>(SinkTarget::File),
        kind is Block ==> spec_sink_target(spec_wire_code(kind), None) == Ok::<SinkTarget, WorkerError>(SinkTarget::Block),
        kind is Vhdx ==> spec_sink_target(spec_wire_code(kind), Some(image_size)) == Ok::<SinkTarget, WorkerError>(
            SinkTarget::Vhdx { size_bytes: image_size },
        ),
{
}

/// What the worker sends back for a token: `STATUS_OK` for the expected
/// one, `TOKEN_REJECTED` for any other.
pub fn token_reply(incoming: u64, expected: u64) -> (r: u8)
    ensures
        r == (if incoming == expected { STATUS_OK } else { TOKEN_REJECTED }),
{
    if incoming != expected {
        TOKEN_REJECTED
    } else {
        STATUS_OK
    }
}

/// Whether the worker accepted the token.
pub fn token_accepted(ack: u8) -> (r: bool)
    ensures
        r == (ack == STATUS_OK),
{
    ack == STATUS_OK
}

/// The eight bytes of a token, or of any 64-bit value, little-endian.
pub fn encode_u64(v: u64) -> (r: Vec<u8>)
    ensures
        r@ == spec_u64_to_le_bytes(v),
        r@.len() == 8,
{
    u64_to_le_bytes(v)
}

/// The 64-bit value in eight little-endian bytes.
pub fn decode_u64(bytes: &[u8]) -> (r: u64)
    requires
        bytes@.len() == 8,
    ensures
        r == spec_u64_from_le_bytes(bytes@),
{
    u64_from_le_bytes(bytes)
}

/// A 64-bit value survives its eight bytes.
pub proof fn lemma_u64_roundtrip(v: u64)
    ensures
        spec_u64_to_le_bytes(v).len() == 8,
        spec_u64_from_le_bytes(spec_u64_to_le_bytes(v)) == v,
{
    lemma_auto_spec_u64_to_from_le_bytes();
}


/// The worker's answer to a request.
#[derive(Debug)]
pub enum WorkerReply {
    /// Success with nothing more (init, flush, shutdown).
    Done,
    /// Success with the source's length.
    SourceLen(u64),
    /// Success with the bytes read.
    Data(Vec<u8>),
    /// Success with how many bytes were written.
    Written(u32),
    /// Failure with a message.
    Failed(Vec<u8>),
}

pub enum ReplyView {
    Done,
    SourceLen(u64),
    Data(Seq<u8>),
    Written(u32),
    Failed(Seq<u8>),
}

impl View for WorkerReply {
    type V = ReplyView;

    open spec fn view(&self) -> ReplyView {
        match self {
            WorkerReply::Done => ReplyView::Done,
            WorkerReply::SourceLen(v) => ReplyView::SourceLen(*v),
            WorkerReply::Data(d) => ReplyView::Data(d@),
            WorkerReply::Written(n) => ReplyView::Written(*n),
            WorkerReply::Failed(m) => ReplyView::Failed(m@),
        }
    }
}

/// The status byte of a failed reply.
pub const STATUS_FAILED: u8 = 1;

/// The bytes of a reply: a status byte, then the result.
pub open spec fn spec_encode_reply(r: ReplyView) -> Seq<u8> {
    match r {
        ReplyView::Done => seq![STATUS_OK],
        ReplyView::SourceLen(v) => seq![STATUS_OK] + spec_u64_to_le_bytes(v),
        ReplyView::Data(d) => seq![STATUS_OK] + spec_framed(d),
        ReplyView::Written(n) => seq![STATUS_OK] + spec_u32_to_le_bytes(n),
        ReplyView::Failed(m) => seq![STATUS_FAILED] + spec_framed(m),
    }
}

/// The bytes that send `reply` back.
pub fn encode_reply(reply: &WorkerReply) -> (r: Vec<u8>)
    ensures
        r@ == spec_encode_reply(reply@),
{
    let mut out: Vec<u8> = Vec::new();
    match reply {
        WorkerReply::Done => {
            out.push(STATUS_OK);
        },
        WorkerReply::SourceLen(v) => {
            out.push(STATUS_OK);
            let b = u64_to_le_bytes(*v);
            append_bytes(&mut out, b.as_slice());
        },
        WorkerReply::Data(d) => {
            out.push(STATUS_OK);
            append_framed(&mut out, d.as_slice());
        },
        WorkerReply::Written(n) => {
            out.push(STATUS_OK);
            let b = u32_to_le_bytes(*n);
            append_bytes(&mut out, b.as_slice());
        },
        WorkerReply::Failed(m) => {
            out.push(STATUS_FAILED);
            append_framed(&mut out, m.as_slice());
        },
    }
    assert(out@ =~= spec_encode_reply(reply@));
    out
}

/// The result a request expects, with the most bytes it can take.
#[derive(Debug, Clone, Copy)]
pub enum ReplyShape {
    Done,
    SourceLen,
    Data { max_len: u32 },
    Written,
}

/// What the first bytes of a reply stream hold.
pub enum ReplyDecodeView {
    Incomplete { need: nat },
    Complete { reply: ReplyView, used: nat },
    /// A byte count above what was asked for.
    TooLong { len: u32, max_len: u32 },
    /// A failure message that is not valid UTF-8.
    InvalidUtf8,
}

/// Reads the reply of the given shape at the start of `b`: a non-zero
/// status is a failure carrying a message.
pub open spec fn spec_decode_reply(shape: ReplyShape, b: Seq<u8>) -> ReplyDecodeView {
    if b.len() < 1 {
        ReplyDecodeView::Incomplete { need: 1 }
    } else if b[0] != STATUS_OK {
        if b.len() < 5 {
            ReplyDecodeView::Incomplete { need: 5 }
        } else {
            let e = (5 + le32_at(b, 1)) as nat;
            if b.len() < e {
                ReplyDecodeView::Incomplete { need: e }
            } else if !valid_utf8(b.subrange(5, e as int)) {
                ReplyDecodeView::InvalidUtf8
            } else {
                ReplyDecodeView::Complete { reply: ReplyView::Failed(b.subrange(5, e as int)), used: e }
            }
        }
    } else {
        match shape {
            ReplyShape::Done => ReplyDecodeView::Complete { reply: ReplyView::Done, used: 1 },
            ReplyShape::SourceLen => if b.len() < 9 {
                ReplyDecodeView::Incomplete { need: 9 }
            } else {
                ReplyDecodeView::Complete { reply: ReplyView::SourceLen(le64_at(b, 1)), used: 9 }
            },
            ReplyShape::Data { max_len } => if b.len() < 5 {
                ReplyDecodeView::Incomplete { need: 5 }
            } else if le32_at(b, 1) > max_len {
                ReplyDecodeView::TooLong { len: le32_at(b, 1), max_len }
            } else {
                let e = (5 + le32_at(b, 1)) as nat;
                if b.len() < e {
                    ReplyDecodeView::Incomplete { need: e }
                } else {
                    ReplyDecodeView::Complete { reply: ReplyView::Data(b.subrange(5, e as int)), used: e }
                }
            },
            ReplyShape::Written => if b.len() < 5 {
                ReplyDecodeView::Incomplete { need: 5 }
            } else {
                ReplyDecodeView::Complete { reply: ReplyView::Written(le32_at(b, 1)), used: 5 }
            },
        }
    }
}

/// What the first bytes of a reply stream hold.
#[derive(Debug)]
pub enum ReplyDecode {
    Incomplete { need: u64 },
    Complete { reply: WorkerReply, used: usize },
    TooLong { len: u32, max_len: u32 },
    InvalidUtf8,
}

impl View for ReplyDecode {
    type V = ReplyDecodeView;

    open spec fn view(&self) -> ReplyDecodeView {
        match self {
            ReplyDecode::Incomplete { need } => ReplyDecodeView::Incomplete { need: *need as nat },
            ReplyDecode::Complete { reply, used } => ReplyDecodeView::Complete {
                reply: reply@,
                used: *used as nat,
            },
            ReplyDecode::TooLong { len, max_len } => ReplyDecodeView::TooLong { len: *len, max_len: *max_len },
            ReplyDecode::InvalidUtf8 => ReplyDecodeView::InvalidUtf8,
        }
    }
}

/// Reads the reply of the given shape at the start of `buf`.
pub fn decode_reply(shape: ReplyShape, buf: &[u8]) -> (r: ReplyDecode)
    ensures
        r@ == spec_decode_reply(shape, buf@),
{
    let n = buf.len() as u64;
    if n < 1 {
        return ReplyDecode::Incomplete { need: 1 };
    }
    if buf[0] != STATUS_OK {
        if n < 5 {
            return ReplyDecode::Incomplete { need: 5 };
        }
        let e = 5 + le32_in(buf, 1) as u64;
        if n < e {
            return ReplyDecode::Incomplete { need: e };
        }
        let msg = slice_subrange(buf, 5, e as usize);
        if !is_valid_utf8(msg) {
            return ReplyDecode::InvalidUtf8;
        }
        return ReplyDecode::Complete {
            reply: WorkerReply::Failed(vstd::slice::slice_to_vec(msg)),
            used: e as usize,
        };
    }
    match shape {
        ReplyShape::Done => ReplyDecode::Complete { reply: WorkerReply::Done, used: 1 },
        ReplyShape::SourceLen => {
            if n < 9 {
                return ReplyDecode::Incomplete { need: 9 };
            }
            ReplyDecode::Complete { reply: WorkerReply::SourceLen(le64_in(buf, 1)), used: 9 }
        },
        ReplyShape::Data { max_len } => {
            if n < 5 {
                return ReplyDecode::Incomplete { need: 5 };
            }
            let len = le32_in(buf, 1);
            if len > max_len {
                return ReplyDecode::TooLong { len, max_len };
            }
            let e = 5 + len as u64;
            if n < e {
                return ReplyDecode::Incomplete { need: e };
            }
            ReplyDecode::Complete { reply: WorkerReply::Data(bytes_in(buf, 5, e as usize)), used: e as usize }
        },
        ReplyShape::Written => {
            if n < 5 {
                return ReplyDecode::Incomplete { need: 5 };
            }
            let len = le32_in(buf, 1);
            ReplyDecode::Complete { reply: WorkerReply::Written(len), used: 5 }
        },
    }
}

/// Whether a reply fits the shape its request expects.
pub open spec fn reply_fits(shape: ReplyShape, r: ReplyView) -> bool {
    match r {
        ReplyView::Failed(m) => m.len() <= u32::MAX && valid_utf8(m),
        ReplyView::Done => shape is Done,
        ReplyView::SourceLen(_) => shape is SourceLen,
        ReplyView::Data(d) => shape matches ReplyShape::Data { max_len } && d.len() <= max_len,
        ReplyView::Written(_) => shape is Written,
    }
}

/// Reading back the bytes of a reply gives the reply, whatever follows it
/// in the stream, and takes exactly its bytes.
pub proof fn lemma_reply_roundtrip(shape: ReplyShape, r: ReplyView, rest: Seq<u8>)
    requires
        reply_fits(shape, r),
    ensures
        spec_decode_reply(shape, spec_encode_reply(r) + rest) == (ReplyDecodeView::Complete {
            reply: r,
            used: spec_encode_reply(r).len(),
        }),
{
    lemma_auto_spec_u32_to_from_le_bytes();
    lemma_auto_spec_u64_to_from_le_bytes();
    let enc = spec_encode_reply(r);
    let b = enc + rest;
    match r {
        ReplyView::Done => {},
        ReplyView::SourceLen(v) => {
            assert(b.subrange(1, 9) =~= spec_u64_to_le_bytes(v));
        },
        ReplyView::Data(d) => {
            let e: int = 5int + d.len();
            assert(b.subrange(1, 5) =~= spec_u32_to_le_bytes(d.len() as u32));
            assert(b.subrange(5, e) =~= d);
        },
        ReplyView::Written(n) => {
            assert(b.subrange(1, 5) =~= spec_u32_to_le_bytes(n));
        },
        ReplyView::Failed(m) => {
            let e: int = 5int + m.len();
            assert(b.subrange(1, 5) =~= spec_u32_to_le_bytes(m.len() as u32));
            assert(b.subrange(5, e) =~= m);
        },
    }
}

/// The reply shape each request expects: a byte count no larger than
/// asked for a read, a count for a write, the length for a length query,
/// and a bare success otherwise.
pub open spec fn spec_expected_reply(r: RequestView) -> ReplyShape {
    match r {
        RequestView::SourceLen => ReplyShape::SourceLen,
        RequestView::ReadAt { len, .. } => ReplyShape::Data { max_len: len },
        RequestView::WriteAt { .. } => ReplyShape::Written,
        _ => ReplyShape::Done,
    }
}

pub fn expected_reply(request: &WorkerRequest) -> (r: ReplyShape)
    ensures
        r == spec_expected_reply(request@),
{
    match request {
        WorkerRequest::SourceLen => ReplyShape::SourceLen,
        WorkerRequest::ReadAt { len, .. } => ReplyShape::Data { max_len: *len },
        WorkerRequest::WriteAt { .. } => ReplyShape::Written,
        _ => ReplyShape::Done,
    }
}

/// What the worker's action for a request produced.
pub enum ActionOutcome {
    /// The backends are open.
    Opened,
    /// The source's length.
    SourceLen(u64),
    /// The bytes the source returned.
    Read(Vec<u8>),
    /// How many bytes the sink reported written.
    Wrote(usize),
    /// The sink is flushed.
    Flushed,
    /// The session ends.
    Stopped,
}

/// The worker's reply once an action has succeeded: the count of a write
/// travels as its low 32 bits.
pub open spec fn spec_reply_for(o: ActionOutcome) -> ReplyView {
    match o {
        ActionOutcome::SourceLen(v) => ReplyView::SourceLen(v),
        ActionOutcome::Read(d) => ReplyView::Data(d@),
        ActionOutcome::Wrote(n) => ReplyView::Written(n as u32),
        _ => ReplyView::Done,
    }
}

pub fn reply_for(outcome: ActionOutcome) -> (r: WorkerReply)
    ensures
        r@ == spec_reply_for(outcome),
{
    match outcome {
        ActionOutcome::SourceLen(v) => WorkerReply::SourceLen(v),
        ActionOutcome::Read(d) => WorkerReply::Data(d),
        ActionOutcome::Wrote(n) => WorkerReply::Written(n as u32),
        _ => WorkerReply::Done,
    }
}

/// Whether an outcome is one the action for `r` can produce: the outcome of
/// the request's own kind, and for a read no more bytes than were asked.
pub open spec fn outcome_answers(r: RequestView, o: ActionOutcome) -> bool {
    match r {
        RequestView::Init { .. } => o is Opened,
        RequestView::SourceLen => o is SourceLen,
        RequestView::ReadAt { len, .. } => o matches ActionOutcome::Read(d) && d@.len() <= len,
        RequestView::WriteAt { .. } => o is Wrote,
        RequestView::Flush => o is Flushed,
        RequestView::Shutdown => o is Stopped,
    }
}

/// The worker's reply to a request, read with the shape the request
/// expects, gives back that reply and takes exactly its bytes.
pub proof fn lemma_reply_answers_request(r: RequestView, o: ActionOutcome, rest: Seq<u8>)
    requires
        outcome_answers(r, o),
    ensures
        spec_decode_reply(spec_expected_reply(r), spec_encode_reply(spec_reply_for(o)) + rest)
            == (ReplyDecodeView::Complete {
            reply: spec_reply_for(o),
            used: spec_encode_reply(spec_reply_for(o)).len(),
        }),
{
    lemma_reply_roundtrip(spec_expected_reply(r), spec_reply_for(o), rest);
}

/// When more bytes are needed, more than are there are needed.
pub proof fn lemma_reply_incomplete_needs_more(shape: ReplyShape, b: Seq<u8>)
    ensures
        spec_decode_reply(shape, b) matches ReplyDecodeView::Incomplete { need } ==> need > b.len(),
{
}


/// The session's first request, as the unelevated process builds it from
/// its options.
pub open spec fn spec_init_request(
    src_kind: u8,
    dst_kind: u8,
    chunk_size: usize,
    vhdx_size_bytes: Option<u64>,
    src_path: Seq<char>,
    dst_path: Seq<char>,
) -> RequestView {
    RequestView::Init {
        src_kind,
        dst_kind,
        chunk_size: chunk_size as u32,
        vhdx_size_bytes: match vhdx_size_bytes {
            Some(v) => v,
            None => 0,
        },
        src_path: encode_utf8(src_path),
        dst_path: encode_utf8(dst_path),
    }
}

/// What the unelevated process asks the worker to open is what the worker
/// reads: the same kinds, chunk size (one that fits 32 bits), paths, and
/// image size (a given one is never zero).
pub proof fn lemma_init_request_roundtrip(
    src_kind: u8,
    dst_kind: u8,
    chunk_size: usize,
    vhdx_size_bytes: Option<u64>,
    src_path: Seq<char>,
    dst_path: Seq<char>,
    rest: Seq<u8>,
)
    requires
        chunk_size <= u32::MAX,
        vhdx_size_bytes matches Some(v) ==> v > 0,
        encode_utf8(src_path).len() <= u32::MAX,
        encode_utf8(dst_path).len() <= u32::MAX,
    ensures
        ({
            let req = spec_init_request(src_kind, dst_kind, chunk_size, vhdx_size_bytes, src_path, dst_path);
            spec_decode_request(spec_encode_request(req) + rest) matches RequestDecodeView::Complete {
                request: RequestView::Init { src_kind: s, dst_kind: d, chunk_size: c, vhdx_size_bytes: v, src_path: p, dst_path: q },
                ..
            } && s == src_kind && d == dst_kind && c == chunk_size
                && (if v == 0 { None } else { Some(v) }) == vhdx_size_bytes
                && decode_utf8(p) == src_path && decode_utf8(q) == dst_path
        }),
{
    vstd::utf8::encode_utf8_valid_utf8(src_path);
    vstd::utf8::encode_utf8_valid_utf8(dst_path);
    vstd::utf8::encode_utf8_decode_utf8(src_path);
    vstd::utf8::encode_utf8_decode_utf8(dst_path);
    let req = spec_init_request(src_kind, dst_kind, chunk_size, vhdx_size_bytes, src_path, dst_path);
    lemma_request_roundtrip(req, rest);
}


/// The command line the elevated worker is started with.
pub open spec fn spec_worker_arguments(port: u16, token: u64) -> Seq<char> {
    "--bd-worker --bd-port "@ + decimal_digits(port as nat) + " --bd-token "@ + decimal_digits(token as nat)
}

pub fn worker_arguments(port: u16, token: u64) -> (r: String)
    ensures
        r@ == spec_worker_arguments(port, token),
{
    let mut r = String::new();
    r.append("--bd-worker --bd-port ");
    push_decimal(&mut r, port as u64);
    r.append(" --bd-token ");
    push_decimal(&mut r, token);
    r
}

/// Whether `s` holds no space.
pub open spec fn no_space(s: Seq<char>) -> bool {
    forall|j: int| 0 <= j < s.len() ==> s[j] != ' '
}

/// Splitting at the first space: two texts that each begin with a word
/// without spaces followed by a space agree on that word and on the rest.
proof fn lemma_split_at_space(a: Seq<char>, b: Seq<char>, c: Seq<char>, d: Seq<char>)
    requires
        no_space(a),
        no_space(c),
        a + seq![' '] + b == c + seq![' '] + d,
    ensures
        a == c,
        b == d,
{
    let s = a + seq![' '] + b;
    if a.len() < c.len() {
        assert(s[a.len() as int] == ' ');
        assert(s[a.len() as int] == (c + seq![' '] + d)[a.len() as int]);
        assert(false);
    } else if c.len() < a.len() {
        assert((c + seq![' '] + d)[c.len() as int] == ' ');
        assert(s[c.len() as int] == a[c.len() as int]);
        assert(false);
    }
    assert(a =~= s.take(a.len() as int));
    assert(c =~= (c + seq![' '] + d).take(c.len() as int));
    assert(b =~= s.skip(a.len() + 1int));
    assert(d =~= (c + seq![' '] + d).skip(c.len() + 1int));
}

proof fn lemma_digits_have_no_space(v: nat)
    ensures
        no_space(decimal_digits(v)),
{
    lemma_decimal_roundtrip(v);
    let d = decimal_digits(v);
    assert forall|j: int| 0 <= j < d.len() implies d[j] != ' ' by {
        assert(all_digits(d));
    };
}

/// The worker's command line, split at its spaces, reads back as worker
/// mode with exactly the port and the full 64-bit token it was built from.
pub proof fn lemma_worker_arguments_read_back(port: u16, token: u64, args: Seq<String>)
    requires
        args.len() == 6,
        forall|i: int| 1 <= i < 6 ==> no_space(#[trigger] args[i]@),
        args[1]@ + seq![' '] + args[2]@ + seq![' '] + args[3]@ + seq![' '] + args[4]@ + seq![' ']
            + args[5]@ == spec_worker_arguments(port, token),
    ensures
        forall|r: Result<CliArgs, CliError>| #[trigger] spec_parse_args(args, r) ==> (r matches Ok(a)
            && a.worker_mode && a.worker_port == Some(port) && a.worker_token == Some(token)),
{
    reveal_strlit("--bd-worker --bd-port ");
    reveal_strlit(" --bd-token ");
    reveal_strlit("--bd-worker");
    reveal_strlit("--bd-port");
    reveal_strlit("--bd-token");
    let sp = seq![' '];
    let d1 = decimal_digits(port as nat);
    let d2 = decimal_digits(token as nat);
    lemma_digits_have_no_space(port as nat);
    lemma_digits_have_no_space(token as nat);
    let w = "--bd-worker"@;
    let p = "--bd-port"@;
    let t = "--bd-token"@;
    assert(no_space(w));
    assert(no_space(p));
    assert(no_space(t));
    let a1 = args[1]@;
    let a2 = args[2]@;
    let a3 = args[3]@;
    let a4 = args[4]@;
    let a5 = args[5]@;
    assert(no_space(a1) && no_space(a2) && no_space(a3) && no_space(a4));
    let r3 = a4 + sp + a5;
    let r2 = a3 + sp + r3;
    let r1 = a2 + sp + r2;
    let w3 = t + sp + d2;
    let w2 = d1 + sp + w3;
    let w1 = p + sp + w2;
    assert(a1 + sp + r1 =~= a1 + sp + a2 + sp + a3 + sp + a4 + sp + a5);
    assert(w + sp + w1 =~= spec_worker_arguments(port, token));
    lemma_split_at_space(a1, r1, w, w1);
    lemma_split_at_space(a2, r2, p, w2);
    lemma_split_at_space(a3, r3, d1, w3);
    lemma_split_at_space(a4, a5, t, d2);
    lemma_worker_command_line(args, port, token);
}

/// The session token: the clock's nanoseconds (their low 64 bits) mixed
/// with the process id in the upper half.
pub fn session_token(nanos_low: u64, process_id: u32) -> (r: u64)
    ensures
        r == nanos_low ^ ((process_id as u64) << 32u64),
{
    nanos_low ^ ((process_id as u64) << 32u64)
}

/// Whether `ShellExecuteW` launched the worker: it reports success with a
/// value above 32.
pub fn worker_launched(code: usize) -> (r: bool)
    ensures
        r == (code > 32),
{
    code > 32
}


/// What the worker does for a request.
#[derive(Debug, Clone, Copy)]
pub enum WorkerAction {
    /// Open the source and the sink that an init request names.
    OpenBackends,
    /// Answer with the source's length.
    ReportSourceLen,
    /// Read from the source and answer with the bytes.
    ReadSource,
    /// Write to the sink and answer with the count.
    WriteSink,
    /// Flush the sink and answer.
    FlushSink,
    /// Answer and end the session.
    Stop,
}

/// Why the worker ends the session on a request.
#[derive(Debug, Clone, Copy)]
pub enum SessionError {
    /// A source operation came before any init request.
    SourceNotInitialized,
    /// A sink operation came before any init request.
    SinkNotInitialized,
}

/// The worker's session: whether an init request has opened the backends.
#[derive(Debug, Clone, Copy)]
pub struct WorkerSession {
    pub backends_open: bool,
}

impl WorkerSession {
    /// A session in which nothing is open yet.
    pub fn new() -> (r: WorkerSession)
        ensures
            !r.backends_open,
    {
        WorkerSession { backends_open: false }
    }

    /// The action for `request`: init opens the backends (again, when
    /// already open); every source or sink operation needs them open;
    /// shutdown ends the session.
    pub fn on_request(&self, request: &WorkerRequest) -> (r: Result<WorkerAction, SessionError>)
        ensures
            match request@ {
                RequestView::Init { .. } => r matches Ok(WorkerAction::OpenBackends),
                RequestView::Shutdown => r matches Ok(WorkerAction::Stop),
                RequestView::SourceLen => if self.backends_open {
                    r matches Ok(WorkerAction::ReportSourceLen)
                } else {
                    r matches Err(SessionError::SourceNotInitialized)
                },
                RequestView::ReadAt { .. } => if self.backends_open {
                    r matches Ok(WorkerAction::ReadSource)
                } else {
                    r matches Err(SessionError::SourceNotInitialized)
                },
                RequestView::WriteAt { .. } => if self.backends_open {
                    r matches Ok(WorkerAction::WriteSink)
                } else {
                    r matches Err(SessionError::SinkNotInitialized)
                },
                RequestView::Flush => if self.backends_open {
                    r matches Ok(WorkerAction::FlushSink)
                } else {
                    r matches Err(SessionError::SinkNotInitialized)
                },
            },
    {
        match request {
            WorkerRequest::Init { .. } => Ok(WorkerAction::OpenBackends),
            WorkerRequest::Shutdown => Ok(WorkerAction::Stop),
            WorkerRequest::SourceLen => {
                if self.backends_open {
                    Ok(WorkerAction::ReportSourceLen)
                } else {
                    Err(SessionError::SourceNotInitialized)
                }
            },
            WorkerRequest::ReadAt { .. } => {
                if self.backends_open {
                    Ok(WorkerAction::ReadSource)
                } else {
                    Err(SessionError::SourceNotInitialized)
                }
            },
            WorkerRequest::WriteAt { .. } => {
                if self.backends_open {
                    Ok(WorkerAction::WriteSink)
                } else {
                    Err(SessionError::SinkNotInitialized)
                }
            },
            WorkerRequest::Flush => {
                if self.backends_open {
                    Ok(WorkerAction::FlushSink)
                } else {
                    Err(SessionError::SinkNotInitialized)
                }
            },
        }
    }

    /// The session once the backends an init request named are open.
    pub fn opened(&mut self)
        ensures
            final(self).backends_open,
    {
        self.backends_open = true;
    }
}

} // verus!
