use mcping::error::PingError;
use mcping::frame::pack_data;
use mcping::packets::{handshake_payload, status_json, status_request_payload};

#[test]
fn handshake_for_an_address_and_the_usual_port() {
    let mut expected = vec![0x00, 13];
    expected.extend_from_slice(b"192.9.189.202");
    expected.extend_from_slice(&[0x63, 0xDD, 0x01]);
    assert_eq!(handshake_payload("192.9.189.202", 25565), expected);
}

#[test]
fn handshake_writes_the_port_high_byte_first() {
    assert_eq!(
        handshake_payload("a", 1),
        vec![0x00, 0x01, b'a', 0x00, 0x01, 0x01]
    );
    assert_eq!(
        handshake_payload("a", 0x1234),
        vec![0x00, 0x01, b'a', 0x12, 0x34, 0x01]
    );
    assert_eq!(
        handshake_payload("", 65535),
        vec![0x00, 0x00, 0xFF, 0xFF, 0x01]
    );
}

#[test]
fn handshake_counts_the_host_in_bytes() {
    let host = "münchen.example";
    let payload = handshake_payload(host, 25565);
    assert_eq!(payload[1], 16);
    assert_eq!(&payload[2..18], host.as_bytes());
    assert_eq!(payload.len(), 2 + 16 + 3);
}

#[test]
fn handshake_of_a_long_host_has_a_two_byte_length() {
    let host = "h".repeat(200);
    let payload = handshake_payload(&host, 25565);
    assert_eq!(&payload[..3], &[0x00, 0xC8, 0x01]);
    assert_eq!(payload.len(), 1 + 2 + 200 + 3);
}

#[test]
fn status_request_is_the_packet_id() {
    assert_eq!(status_request_payload(), vec![0x00]);
    assert_eq!(pack_data(&status_request_payload()), vec![0x01, 0x00]);
}

#[test]
fn status_json_takes_the_text_behind_the_packet_id() {
    let mut payload = vec![0x00, 0x02];
    payload.extend_from_slice(b"{}");
    assert_eq!(status_json(&payload), Ok(b"{}".to_vec()));
}

#[test]
fn status_json_passes_over_any_packet_id() {
    assert_eq!(
        status_json(&[0xdd, 0xc7, 0x01, 0x03, b'a', b'b', b'c']),
        Ok(b"abc".to_vec())
    );
}

#[test]
fn status_json_ignores_what_follows_the_text() {
    assert_eq!(
        status_json(&[0x00, 0x01, b'x', b'y', b'z']),
        Ok(b"x".to_vec())
    );
}

#[test]
fn status_json_of_an_empty_text() {
    assert_eq!(status_json(&[0x00, 0x00]), Ok(Vec::new()));
}

#[test]
fn status_json_rejects_a_payload_that_ends_early() {
    assert_eq!(status_json(&[]), Err(PingError::ProtocolError));
    assert_eq!(status_json(&[0x00]), Err(PingError::ProtocolError));
    assert_eq!(status_json(&[0x00, 0x05, b'a']), Err(PingError::ProtocolError));
    assert_eq!(status_json(&[0x80]), Err(PingError::ProtocolError));
}

#[test]
fn status_json_rejects_a_negative_length() {
    assert_eq!(
        status_json(&[0x00, 0xFF, 0xFF, 0xFF, 0xFF, 0x0F, b'a']),
        Err(PingError::ProtocolError)
    );
}
