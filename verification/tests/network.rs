use block_duplicator::network::{decode_length_prefix, parse_tcp_endpoint, EndpointError, StreamCursor};

#[test]
fn endpoint_requires_tcp_scheme() {
    assert_eq!(parse_tcp_endpoint("tcp://127.0.0.1:9000").unwrap(), "127.0.0.1:9000");
    assert_eq!(parse_tcp_endpoint("tcp://").unwrap(), "");
    assert!(matches!(parse_tcp_endpoint("TCP://127.0.0.1:9000"), Err(EndpointError::MissingTcpScheme)));
    assert!(matches!(parse_tcp_endpoint("127.0.0.1:9000"), Err(EndpointError::MissingTcpScheme)));
}

#[test]
fn cursor_only_admits_the_next_offset() {
    let mut c = StreamCursor::new();
    assert_eq!(c.position(), 0);
    assert!(c.check(0).is_ok());
    c.advance(512);
    assert_eq!(c.position(), 512);
    assert!(c.check(512).is_ok());
    let e = c.check(0).unwrap_err();
    assert_eq!((e.position, e.requested), (512, 0));
    assert!(c.check(1024).is_err());
}

#[test]
fn length_prefix_is_little_endian() {
    assert_eq!(decode_length_prefix(&[0x01, 0x02, 0, 0, 0, 0, 0, 0]), 0x0201);
    assert_eq!(decode_length_prefix(&123456789u64.to_le_bytes()), 123456789);
}
