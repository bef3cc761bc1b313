use transport::ascii::{parse_decimal, push_decimal};
use transport::messages::{DecodeError, Request, Response, MAX_MESSAGE_SIZE};

fn datagram(header: &str, payload: &[u8]) -> Vec<u8> {
    let mut out = header.as_bytes().to_vec();
    out.extend_from_slice(payload);
    out
}

fn decode_error(bytes: &[u8]) -> DecodeError {
    match Response::new(bytes) {
        Ok(_) => panic!("decoded"),
        Err(e) => e,
    }
}

#[test]
fn request_wire_form() {
    let range = 0..500;
    assert_eq!(Request::new(&range).to_bytes(), b"GET 0 500\n".to_vec());
    let range = 1500..1623;
    assert_eq!(Request::new(&range).to_bytes(), b"GET 1500 123\n".to_vec());
    let range = 99999500..100000000;
    assert_eq!(Request::new(&range).to_bytes(), b"GET 99999500 500\n".to_vec());
}

#[test]
fn response_decodes() {
    let bytes = datagram("DATA 1000 3\n", b"abc");
    let response = Response::new(&bytes).ok().unwrap();
    assert_eq!(*response.byte_range(), 1000..1003);
    assert_eq!(response.data(), b"abc");
}

#[test]
fn response_smallest_and_largest() {
    let bytes = datagram("DATA 0 1\n", b"x");
    let response = Response::new(&bytes).ok().unwrap();
    assert_eq!(*response.byte_range(), 0..1);
    assert_eq!(response.data(), b"x");

    let payload = vec![7u8; 500];
    let bytes = datagram("DATA 99999500 500\n", &payload);
    assert_eq!(bytes.len(), 518);
    assert_eq!(MAX_MESSAGE_SIZE, 519);
    let response = Response::new(&bytes).ok().unwrap();
    assert_eq!(*response.byte_range(), 99999500..100000000);
    assert_eq!(response.data(), &payload[..]);
}

#[test]
fn response_payload_may_hold_line_feeds() {
    let bytes = datagram("DATA 500 4\n", b"a\nb\n");
    let response = Response::new(&bytes).ok().unwrap();
    assert_eq!(*response.byte_range(), 500..504);
    assert_eq!(response.data(), b"a\nb\n");
}

#[test]
fn response_header_tokens_split_on_any_whitespace() {
    let bytes = datagram("  DATA\t10   2 extra\n", b"hi");
    let response = Response::new(&bytes).ok().unwrap();
    assert_eq!(*response.byte_range(), 10..12);
    assert_eq!(response.data(), b"hi");
}

#[test]
fn response_errors() {
    assert_eq!(decode_error(b"DATA 0 1 x"), DecodeError::MissingLineFeed);
    assert_eq!(decode_error(b""), DecodeError::MissingLineFeed);
    assert_eq!(decode_error(b"DATA \xff 1\nx"), DecodeError::HeaderNotAscii);
    assert_eq!(decode_error(b"DATA\nx"), DecodeError::MissingStart);
    assert_eq!(decode_error(b"\nx"), DecodeError::MissingStart);
    assert_eq!(decode_error(b"DATA abc 10\n0123456789"), DecodeError::InvalidStart);
    assert_eq!(decode_error(b"DATA -1 1\nx"), DecodeError::InvalidStart);
    assert_eq!(decode_error(b"DATA +1 1\nx"), DecodeError::InvalidStart);
    assert_eq!(decode_error(b"DATA 0\nx"), DecodeError::MissingLength);
    assert_eq!(decode_error(b"DATA 0 1x\nx"), DecodeError::InvalidLength);
    assert_eq!(decode_error(b"DATA 0 0\n"), DecodeError::LengthOutOfRange);
    let payload = vec![0u8; 501];
    assert_eq!(
        decode_error(&datagram("DATA 0 501\n", &payload)),
        DecodeError::LengthOutOfRange
    );
    assert_eq!(decode_error(b"DATA 0 3\nab"), DecodeError::PayloadSizeMismatch);
    assert_eq!(decode_error(b"DATA 0 3\nabcd"), DecodeError::PayloadSizeMismatch);
    assert_eq!(
        decode_error(b"DATA 18446744073709551615 1\nx"),
        DecodeError::RangeOverflow
    );
    assert_eq!(
        decode_error(b"DATA 18446744073709551616 1\nx"),
        DecodeError::InvalidStart
    );
}

#[test]
fn message_size_bounds() {
    assert!(!Response::is_message_size_valid(8));
    assert!(Response::is_message_size_valid(9));
    assert!(Response::is_message_size_valid(519));
    assert!(!Response::is_message_size_valid(520));
    assert!(!Response::is_header_size_valid(8));
    assert!(Response::is_header_size_valid(9));
    assert!(Response::is_header_size_valid(19));
    assert!(!Response::is_header_size_valid(20));
    assert_eq!(Response::DATA_SIZE, 500);
    assert_eq!(Response::MIN_HEADER_SIZE, 9);
    assert_eq!(Response::MAX_HEADER_SIZE, 19);
    assert_eq!(Response::MAX_SIZE, 519);
}

#[test]
fn decimal_round_trip() {
    for n in [0usize, 1, 9, 10, 99, 100, 500, 12345, 99999999, usize::MAX] {
        let mut out = Vec::new();
        push_decimal(&mut out, n);
        assert_eq!(out, n.to_string().into_bytes());
        assert_eq!(parse_decimal(&out), Some(n));
    }
    assert_eq!(parse_decimal(b"007"), Some(7));
    assert_eq!(parse_decimal(b""), None);
    assert_eq!(parse_decimal(b"12a"), None);
    assert_eq!(parse_decimal(b"18446744073709551616"), None);
}

#[test]
fn request_answers_round_trip() {
    let range = 2500..3000;
    let request = Request::new(&range).to_bytes();
    let mut reply = b"DATA".to_vec();
    reply.extend_from_slice(&request[3..]);
    reply.extend_from_slice(&vec![1u8; 500]);
    let response = Response::new(&reply).ok().unwrap();
    assert_eq!(*response.byte_range(), range);
}
