use rcon::codec::{check_header, decode_one, encode, Packet};
use rcon::error::RConError;
use rcon::reassemble::{read_response, Reassembler};
use rcon::session::{finish_command, RCon};

#[test]
fn round_trip_small_body() {
    let bytes = encode(7, 2, b"hello");
    let (packet, next) = decode_one(&bytes, 0).unwrap();
    assert_eq!(packet.request_id, 7);
    assert_eq!(packet.ty, 2);
    assert_eq!(packet.body, b"hello".to_vec());
    assert_eq!(next, bytes.len());
}

#[test]
fn round_trip_empty_body() {
    let bytes = encode(-3, 3, b"");
    let (packet, next) = decode_one(&bytes, 0).unwrap();
    assert_eq!(packet.request_id, -3);
    assert_eq!(packet.ty, 3);
    assert_eq!(packet.body, Vec::<u8>::new());
    assert_eq!(next, 14);
}

#[test]
fn round_trip_large_body() {
    let body = vec![0x41u8; 8191];
    let bytes = encode(12345, 2, &body);
    let (packet, next) = decode_one(&bytes, 0).unwrap();
    assert_eq!(packet.request_id, 12345);
    assert_eq!(packet.ty, 2);
    assert_eq!(packet.body, body);
    assert_eq!(next, 8191 + 14);
}

#[test]
fn encode_exact_wire_bytes() {
    let bytes = encode(1, 3, b"secret");
    let expected: Vec<u8> = vec![
        16, 0, 0, 0, // declared size: 4 + 4 + 6 + 2
        1, 0, 0, 0, // request id
        3, 0, 0, 0, // authenticate type
        b's', b'e', b'c', b'r', b'e', b't', // body
        0, 0, // terminator
    ];
    assert_eq!(bytes, expected);
}

#[test]
fn encode_negative_id_little_endian() {
    let bytes = encode(-1, 2, b"");
    let expected: Vec<u8> = vec![10, 0, 0, 0, 0xff, 0xff, 0xff, 0xff, 2, 0, 0, 0, 0, 0];
    assert_eq!(bytes, expected);
}

#[test]
fn monotonic_request_ids() {
    let mut session = RCon::new();
    let first = session.authorize_request(b"secret");
    let second = session.command_request(b"status");
    let third = session.command_request(b"list");
    let (p1, _) = decode_one(&first, 0).unwrap();
    let (p2, _) = decode_one(&second, 0).unwrap();
    let (p3, _) = decode_one(&third, 0).unwrap();
    assert_eq!(p1.request_id, 1);
    assert_eq!(p2.request_id, 2);
    assert_eq!(p3.request_id, 3);
    assert_eq!(session.request_id, 3);
}

#[test]
fn authorize_success_on_empty_body() {
    let mut session = RCon::new();
    let _request = session.authorize_request(b"secret");
    let response = encode(1, 2, b"");
    let (body, _) = read_response(&response, 0).unwrap();
    let granted = session.finish_authorize(body).unwrap();
    assert!(granted);
    assert!(session.is_authorized());
}

#[test]
fn authorize_failure_on_nonempty_body() {
    let mut session = RCon::new();
    let _request = session.authorize_request(b"wrong");
    let response = encode(1, 2, b"denied");
    let (body, _) = read_response(&response, 0).unwrap();
    let granted = session.finish_authorize(body).unwrap();
    assert!(!granted);
    assert!(!session.is_authorized());
}

#[test]
fn authorize_failure_on_minus_one_id() {
    let mut session = RCon::new();
    let _request = session.authorize_request(b"wrong");
    let response = encode(-1, 2, b"");
    let err = read_response(&response, 0).unwrap_err();
    assert_eq!(err, RConError::NotAuthorized);
}

#[test]
fn fragmented_response_is_concatenated() {
    let mut session = RCon::new();
    let _request = session.command_request(b"status");
    let first_body = vec![b'x'; 8192];
    let second_body = vec![b'y'; 100];
    let mut response = encode(1, 2, &first_body);
    response.extend(encode(1, 2, &second_body));
    let (body, next) = read_response(&response, 0).unwrap();
    assert_eq!(next, response.len());
    let text = finish_command(body).unwrap();
    assert_eq!(text.len(), 8292);
    let mut expected = String::new();
    expected.push_str(&"x".repeat(8192));
    expected.push_str(&"y".repeat(100));
    assert_eq!(text, expected);
}

#[test]
fn malformed_length_aborts() {
    let response: Vec<u8> = vec![5, 0, 0, 0, 1, 2, 3, 4, 5];
    let err = read_response(&response, 0).unwrap_err();
    assert_eq!(err, RConError::LengthTooSmall(5));
}

#[test]
fn negative_length_reported_signed() {
    let response: Vec<u8> = vec![0xff, 0xff, 0xff, 0xff];
    let err = read_response(&response, 0).unwrap_err();
    assert_eq!(err, RConError::LengthTooSmall(-1));
}

#[test]
fn not_authorized_mid_stream() {
    let first_body = vec![b'x'; 8192];
    let mut response = encode(1, 2, &first_body);
    response.extend(encode(-1, 2, b"late"));
    let err = read_response(&response, 0).unwrap_err();
    assert_eq!(err, RConError::NotAuthorized);
}

#[test]
fn truncated_packet_is_length_mismatch() {
    let response: Vec<u8> = vec![20, 0, 0, 0, 1, 2, 3];
    let err = decode_one(&response, 0).unwrap_err();
    assert_eq!(err, RConError::LengthMismatch(20, 3));
}

#[test]
fn truncated_header_is_length_mismatch() {
    let response: Vec<u8> = vec![1, 2];
    let err = decode_one(&response, 0).unwrap_err();
    assert_eq!(err, RConError::LengthMismatch(4, 2));
}

#[test]
fn check_header_judges_declared_sizes() {
    assert_eq!(check_header(10), Ok(10));
    assert_eq!(check_header(9), Err(RConError::LengthTooSmall(9)));
    assert_eq!(check_header(-1), Err(RConError::LengthTooSmall(-1)));
}

#[test]
fn invalid_utf8_in_authorize_keeps_flag() {
    let mut session = RCon::new();
    let _request = session.authorize_request(b"secret");
    let response = encode(1, 2, &[0x80]);
    let (body, _) = read_response(&response, 0).unwrap();
    let err = session.finish_authorize(body).unwrap_err();
    assert_eq!(err, RConError::Utf8);
    assert!(!session.is_authorized());
}

#[test]
fn invalid_utf8_is_reported() {
    let response = encode(1, 2, &[0xff, 0xfe]);
    let (body, _) = read_response(&response, 0).unwrap();
    let err = finish_command(body).unwrap_err();
    assert_eq!(err, RConError::Utf8);
}

#[test]
fn reassembler_rejects_minus_one_and_keeps_state() {
    let mut reassembler = Reassembler::new();
    let keep = reassembler.push(Packet { request_id: 4, ty: 2, body: b"abc".to_vec() });
    assert_eq!(keep, Ok(true));
    let mut fresh = Reassembler::new();
    let err = fresh.push(Packet { request_id: -1, ty: 2, body: b"abc".to_vec() });
    assert_eq!(err, Err(RConError::NotAuthorized));
    assert!(fresh.body.is_empty());
    assert!(!fresh.done);
}

#[test]
fn read_response_stops_after_final_fragment() {
    let mut response = encode(9, 2, b"ok");
    let tail_start = response.len();
    response.extend(vec![0u8; 7]);
    let (body, next) = read_response(&response, 0).unwrap();
    assert_eq!(body, b"ok".to_vec());
    assert_eq!(next, tail_start);
}

#[test]
fn end_to_end_scripted_exchange() {
    let mut session = RCon::new();

    let auth_request = session.authorize_request(b"secret");
    let (sent, _) = decode_one(&auth_request, 0).unwrap();
    assert_eq!(sent.request_id, 1);
    assert_eq!(sent.ty, 3);
    assert_eq!(sent.body, b"secret".to_vec());

    let auth_response = encode(8, 2, b"");
    let (auth_body, _) = read_response(&auth_response, 0).unwrap();
    assert!(session.finish_authorize(auth_body).unwrap());
    assert!(session.is_authorized());

    let command_request = session.command_request(b"status");
    let (sent, _) = decode_one(&command_request, 0).unwrap();
    assert_eq!(sent.request_id, 2);
    assert_eq!(sent.ty, 2);
    assert_eq!(sent.body, b"status".to_vec());

    let command_response = encode(2, 2, b"ok");
    let (command_body, _) = read_response(&command_response, 0).unwrap();
    assert_eq!(finish_command(command_body).unwrap(), "ok");
}
