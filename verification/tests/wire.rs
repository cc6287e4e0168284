use block_duplicator::cli::BackendKind;
use block_duplicator::wire::{
    backend_kind_to_wire, decode_reply, decode_request, decode_u64, encode_reply, encode_request, encode_u64,
    requested_image_size, session_token, sink_target_from_wire, source_kind_from_wire, token_accepted, token_reply,
    worker_arguments, worker_launched, expected_reply, reply_for, ActionOutcome, ReplyDecode, ReplyShape, RequestDecode, SessionError, SinkTarget, WorkerAction,
    WorkerError, WorkerReply, WorkerRequest, WorkerSession, KIND_BLOCK, KIND_FILE, KIND_VHDX, OP_INIT,
};

fn decode_all(bytes: &[u8]) -> WorkerRequest {
    match decode_request(bytes) {
        RequestDecode::Complete { request, used } => {
            assert_eq!(used, bytes.len());
            request
        }
        other => panic!("unexpected {:?}", other),
    }
}

#[test]
fn kinds_have_wire_codes() {
    assert_eq!(backend_kind_to_wire(BackendKind::File), 1);
    assert_eq!(backend_kind_to_wire(BackendKind::Block), 2);
    assert_eq!(backend_kind_to_wire(BackendKind::Vhdx), 3);
    assert!(matches!(source_kind_from_wire(KIND_FILE), Ok(BackendKind::File)));
    assert!(matches!(source_kind_from_wire(KIND_BLOCK), Ok(BackendKind::Block)));
    assert!(matches!(source_kind_from_wire(KIND_VHDX), Err(WorkerError::InvalidSourceKind)));
    assert!(matches!(sink_target_from_wire(KIND_FILE, None), Ok(SinkTarget::File)));
    assert!(matches!(sink_target_from_wire(KIND_BLOCK, Some(3)), Ok(SinkTarget::Block)));
    assert!(matches!(sink_target_from_wire(KIND_VHDX, Some(3)), Ok(SinkTarget::Vhdx { size_bytes: 3 })));
    assert!(matches!(sink_target_from_wire(KIND_VHDX, None), Err(WorkerError::VhdxSizeRequired)));
    assert!(matches!(sink_target_from_wire(9, None), Err(WorkerError::InvalidSinkKind)));
}

#[test]
fn init_request_layout_and_roundtrip() {
    let req = WorkerRequest::init(KIND_FILE, KIND_VHDX, 65536, Some(5), "in.img", "ö.vhdx");
    let bytes = encode_request(&req);
    let mut expected = vec![OP_INIT, 1, 3];
    expected.extend_from_slice(&65536u32.to_le_bytes());
    expected.extend_from_slice(&5u64.to_le_bytes());
    expected.extend_from_slice(&6u32.to_le_bytes());
    expected.extend_from_slice(b"in.img");
    expected.extend_from_slice(&7u32.to_le_bytes());
    expected.extend_from_slice("ö.vhdx".as_bytes());
    assert_eq!(bytes, expected);
    match decode_all(&bytes) {
        WorkerRequest::Init { src_kind, dst_kind, chunk_size, vhdx_size_bytes, src_path, dst_path } => {
            assert_eq!((src_kind, dst_kind, chunk_size, vhdx_size_bytes), (1, 3, 65536, 5));
            assert_eq!(String::from_utf8(src_path).unwrap(), "in.img");
            assert_eq!(String::from_utf8(dst_path).unwrap(), "ö.vhdx");
            assert_eq!(requested_image_size(vhdx_size_bytes), Some(5));
        }
        other => panic!("unexpected {:?}", other),
    }
    let none = WorkerRequest::init(KIND_FILE, KIND_FILE, 1, None, "a", "b");
    match decode_all(&encode_request(&none)) {
        WorkerRequest::Init { vhdx_size_bytes, .. } => assert_eq!(requested_image_size(vhdx_size_bytes), None),
        other => panic!("unexpected {:?}", other),
    }
}

#[test]
fn other_requests_roundtrip() {
    let reqs = vec![
        WorkerRequest::SourceLen,
        WorkerRequest::ReadAt { offset: 1 << 40, len: 4096 },
        WorkerRequest::WriteAt { offset: 7, data: vec![9, 8, 7] },
        WorkerRequest::Flush,
        WorkerRequest::Shutdown,
    ];
    for r in reqs {
        let bytes = encode_request(&r);
        let back = decode_all(&bytes);
        assert_eq!(format!("{:?}", back), format!("{:?}", r));
    }
    assert_eq!(encode_request(&WorkerRequest::SourceLen), vec![2]);
    assert_eq!(encode_request(&WorkerRequest::Shutdown), vec![6]);
    let mut read = vec![3];
    read.extend_from_slice(&10u64.to_le_bytes());
    read.extend_from_slice(&20u32.to_le_bytes());
    assert_eq!(encode_request(&WorkerRequest::ReadAt { offset: 10, len: 20 }), read);
}

#[test]
fn decoding_reports_what_is_still_needed() {
    let bytes = encode_request(&WorkerRequest::init(1, 2, 4, None, "src", "dst"));
    assert!(matches!(decode_request(&[]), RequestDecode::Incomplete { need: 1 }));
    assert!(matches!(decode_request(&bytes[..1]), RequestDecode::Incomplete { need: 19 }));
    assert!(matches!(decode_request(&bytes[..19]), RequestDecode::Incomplete { need: 22 }));
    assert!(matches!(decode_request(&bytes[..22]), RequestDecode::Incomplete { need: 26 }));
    assert!(matches!(decode_request(&bytes[..26]), RequestDecode::Incomplete { need: 29 }));
    let mut longer = bytes.clone();
    longer.extend_from_slice(&[5, 5]);
    match decode_request(&longer) {
        RequestDecode::Complete { used, .. } => assert_eq!(used, bytes.len()),
        other => panic!("unexpected {:?}", other),
    }
    let write = encode_request(&WorkerRequest::WriteAt { offset: 0, data: vec![1; 10] });
    assert!(matches!(decode_request(&write[..13]), RequestDecode::Incomplete { need: 23 }));
}

#[test]
fn bad_requests_are_refused() {
    assert!(matches!(decode_request(&[0]), RequestDecode::UnknownOp(0)));
    assert!(matches!(decode_request(&[7, 1, 2]), RequestDecode::UnknownOp(7)));
    let mut bad = vec![OP_INIT, 1, 1, 0, 0, 0, 0, 0, 0, 0, 0, 0, 0, 0, 0];
    bad.extend_from_slice(&1u32.to_le_bytes());
    bad.push(0xff);
    assert!(matches!(decode_request(&bad), RequestDecode::InvalidUtf8));
}

#[test]
fn replies_roundtrip() {
    let cases = vec![
        (ReplyShape::Done, WorkerReply::Done, vec![0u8]),
        (ReplyShape::SourceLen, WorkerReply::SourceLen(300), {
            let mut v = vec![0u8];
            v.extend_from_slice(&300u64.to_le_bytes());
            v
        }),
        (ReplyShape::Data { max_len: 4 }, WorkerReply::Data(vec![1, 2, 3]), vec![0, 3, 0, 0, 0, 1, 2, 3]),
        (ReplyShape::Written, WorkerReply::Written(4), vec![0, 4, 0, 0, 0]),
        (ReplyShape::Done, WorkerReply::Failed(b"no".to_vec()), vec![1, 2, 0, 0, 0, b'n', b'o']),
    ];
    for (shape, reply, bytes) in cases {
        assert_eq!(encode_reply(&reply), bytes);
        match decode_reply(shape, &bytes) {
            ReplyDecode::Complete { reply: back, used } => {
                assert_eq!(used, bytes.len());
                assert_eq!(format!("{:?}", back), format!("{:?}", reply));
            }
            other => panic!("unexpected {:?}", other),
        }
    }
}

#[test]
fn oversized_counts_are_refused() {
    assert!(matches!(
        decode_reply(ReplyShape::Data { max_len: 2 }, &[0, 3, 0, 0, 0, 1, 2, 3]),
        ReplyDecode::TooLong { len: 3, max_len: 2 }
    ));
    // A write count is taken as the worker reported it, whatever its size.
    assert!(matches!(
        decode_reply(ReplyShape::Written, &[0, 3, 0, 0, 0]),
        ReplyDecode::Complete { reply: WorkerReply::Written(3), .. }
    ));
    assert!(matches!(decode_reply(ReplyShape::Data { max_len: 9 }, &[0, 3, 0]), ReplyDecode::Incomplete { need: 5 }));
    assert!(matches!(decode_reply(ReplyShape::Done, &[1, 1, 0, 0, 0, 0xff]), ReplyDecode::InvalidUtf8));
}

#[test]
fn token_handshake() {
    assert_eq!(token_reply(42, 42), 0);
    assert_eq!(token_reply(41, 42), 1);
    assert!(token_accepted(0));
    assert!(!token_accepted(1));
    let bytes = encode_u64(0x0102030405060708);
    assert_eq!(bytes, vec![8, 7, 6, 5, 4, 3, 2, 1]);
    assert_eq!(decode_u64(&bytes), 0x0102030405060708);
    assert_eq!(session_token(0xFF, 2), 0x0000_0002_0000_00FF);
}

#[test]
fn worker_command_line() {
    assert_eq!(worker_arguments(4242, 99), "--bd-worker --bd-port 4242 --bd-token 99");
    assert!(!worker_launched(32));
    assert!(worker_launched(33));
}

#[test]
fn worker_session_needs_init_first() {
    let mut s = WorkerSession::new();
    assert!(matches!(s.on_request(&WorkerRequest::SourceLen), Err(SessionError::SourceNotInitialized)));
    assert!(matches!(
        s.on_request(&WorkerRequest::ReadAt { offset: 0, len: 1 }),
        Err(SessionError::SourceNotInitialized)
    ));
    assert!(matches!(
        s.on_request(&WorkerRequest::WriteAt { offset: 0, data: vec![] }),
        Err(SessionError::SinkNotInitialized)
    ));
    assert!(matches!(s.on_request(&WorkerRequest::Flush), Err(SessionError::SinkNotInitialized)));
    assert!(matches!(s.on_request(&WorkerRequest::Shutdown), Ok(WorkerAction::Stop)));
    let init = WorkerRequest::init(1, 1, 1, None, "a", "b");
    assert!(matches!(s.on_request(&init), Ok(WorkerAction::OpenBackends)));
    s.opened();
    assert!(matches!(s.on_request(&WorkerRequest::SourceLen), Ok(WorkerAction::ReportSourceLen)));
    assert!(matches!(s.on_request(&WorkerRequest::ReadAt { offset: 0, len: 1 }), Ok(WorkerAction::ReadSource)));
    assert!(matches!(
        s.on_request(&WorkerRequest::WriteAt { offset: 0, data: vec![1] }),
        Ok(WorkerAction::WriteSink)
    ));
    assert!(matches!(s.on_request(&WorkerRequest::Flush), Ok(WorkerAction::FlushSink)));
    assert!(matches!(s.on_request(&init), Ok(WorkerAction::OpenBackends)));
}

#[test]
fn each_request_expects_its_reply_shape() {
    assert!(matches!(expected_reply(&WorkerRequest::SourceLen), ReplyShape::SourceLen));
    assert!(matches!(
        expected_reply(&WorkerRequest::ReadAt { offset: 8, len: 16 }),
        ReplyShape::Data { max_len: 16 }
    ));
    assert!(matches!(
        expected_reply(&WorkerRequest::WriteAt { offset: 0, data: vec![1, 2] }),
        ReplyShape::Written
    ));
    assert!(matches!(expected_reply(&WorkerRequest::Flush), ReplyShape::Done));
    assert!(matches!(expected_reply(&WorkerRequest::Shutdown), ReplyShape::Done));
}

#[test]
fn worker_replies_decode_under_their_request_shape() {
    let request = WorkerRequest::ReadAt { offset: 0, len: 4 };
    let reply = reply_for(ActionOutcome::Read(vec![7, 8, 9]));
    let bytes = encode_reply(&reply);
    assert_eq!(bytes, vec![0, 3, 0, 0, 0, 7, 8, 9]);
    assert!(matches!(
        decode_reply(expected_reply(&request), &bytes),
        ReplyDecode::Complete { reply: WorkerReply::Data(ref d), used: 8 } if d == &vec![7, 8, 9]
    ));
    let written = reply_for(ActionOutcome::Wrote(0x1_0000_0005));
    assert!(matches!(written, WorkerReply::Written(5)));
    assert!(matches!(reply_for(ActionOutcome::SourceLen(42)), WorkerReply::SourceLen(42)));
    assert!(matches!(reply_for(ActionOutcome::Flushed), WorkerReply::Done));
}
