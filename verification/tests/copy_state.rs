use block_duplicator::transfer::{
    check_destination_capacity, check_random_access, effective_chunk_size, CopyState, CopyStep, TransferError,
};
use block_duplicator::BackendCapabilities;

#[test]
fn copy_state_walks_reads_and_writes_in_order() {
    let source: Vec<u8> = (0u8..10).collect();
    let mut st = CopyState::new(10, 4);
    let mut delivered: Vec<u8> = Vec::new();
    let mut buf: Vec<u8> = Vec::new();
    let mut steps = 0;
    loop {
        steps += 1;
        assert!(steps < 100);
        match st.next_step() {
            CopyStep::Read { offset, len } => {
                assert_eq!(offset as usize, delivered.len());
                let end = (offset as usize + len).min(source.len());
                let take = (end - offset as usize).min(3);
                buf = source[offset as usize..offset as usize + take].to_vec();
                assert!(st.record_read(&buf).is_ok());
            }
            CopyStep::Write { offset, start, end } => {
                assert_eq!(offset as usize, delivered.len());
                let sent = &buf[start..end];
                let accepted = sent.len().min(2);
                delivered.extend_from_slice(&sent[..accepted]);
                assert!(st.record_write(sent, accepted).is_ok());
            }
            CopyStep::Finish => break,
        }
    }
    assert_eq!(delivered, source);
    assert_eq!(st.copied_bytes(), 10);
    assert_eq!(st.total_bytes(), 10);
}

#[test]
fn copy_state_reports_chunk_completion() {
    let mut st = CopyState::new(5, 8);
    assert!(matches!(st.next_step(), CopyStep::Read { offset: 0, len: 5 }));
    let data = [1u8, 2, 3];
    st.record_read(&data).ok().unwrap();
    assert!(matches!(st.next_step(), CopyStep::Write { offset: 0, start: 0, end: 3 }));
    assert_eq!(st.record_write(&data, 1).ok(), Some(false));
    assert!(matches!(st.next_step(), CopyStep::Write { offset: 1, start: 1, end: 3 }));
    assert_eq!(st.record_write(&data[1..], 2).ok(), Some(true));
    assert_eq!(st.copied_bytes(), 3);
    assert!(matches!(st.next_step(), CopyStep::Read { offset: 3, len: 2 }));
    match st.record_read(&[]) {
        Err(TransferError::SourceEndedEarly { copied, source_len }) => assert_eq!((copied, source_len), (3, 5)),
        _ => panic!("expected SourceEndedEarly"),
    }
}

#[test]
fn copy_state_refuses_zero_writes() {
    let mut st = CopyState::new(2, 2);
    st.record_read(&[7, 8]).ok().unwrap();
    assert!(matches!(st.record_write(&[7, 8], 0), Err(TransferError::WriteZero)));
    assert!(matches!(st.next_step(), CopyStep::Write { offset: 0, start: 0, end: 2 }));
}

#[test]
fn empty_copy_finishes_at_once() {
    let st = CopyState::new(0, 1);
    assert!(matches!(st.next_step(), CopyStep::Finish));
}

#[test]
fn preflight_rules() {
    let ra = BackendCapabilities { random_access: true, requires_elevation: false };
    let seq = BackendCapabilities { random_access: false, requires_elevation: true };
    assert!(check_random_access(ra, ra).is_ok());
    assert!(matches!(check_random_access(seq, ra), Err(TransferError::Unsupported)));
    assert!(matches!(check_random_access(ra, seq), Err(TransferError::Unsupported)));
    assert_eq!(effective_chunk_size(0, 0, 0), 1);
    assert_eq!(effective_chunk_size(100, 512, 4096), 4096);
    assert_eq!(effective_chunk_size(1 << 20, 512, 4096), 1 << 20);
    assert!(check_destination_capacity(0, 100).is_ok());
    assert!(check_destination_capacity(100, 100).is_ok());
    assert!(matches!(
        check_destination_capacity(99, 100),
        Err(TransferError::DestinationTooSmall { sink_len: 99, source_len: 100 })
    ));
}
