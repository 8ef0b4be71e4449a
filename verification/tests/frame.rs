use mcping::error::PingError;
use mcping::frame::{pack_data, read_frame};

#[test]
fn pack_data_of_an_empty_payload() {
    assert_eq!(pack_data(&[]), vec![0x00]);
}

#[test]
fn pack_data_prefixes_the_length() {
    assert_eq!(pack_data(&[0x00]), vec![0x01, 0x00]);
    assert_eq!(pack_data(&[7, 8, 9]), vec![0x03, 7, 8, 9]);
}

#[test]
fn pack_data_with_a_two_byte_prefix() {
    let payload = vec![0xAB; 300];
    let packet = pack_data(&payload);
    assert_eq!(packet.len(), 302);
    assert_eq!(&packet[..2], &[0xAC, 0x02]);
    assert_eq!(&packet[2..], &payload[..]);
}

#[test]
fn read_frame_gives_back_what_was_framed() {
    let payloads: [Vec<u8>; 4] = [vec![], vec![0x00], vec![1, 2, 3, 4, 5], vec![0x5A; 20000]];
    for payload in payloads {
        let packet = pack_data(&payload);
        assert_eq!(read_frame(&packet), Ok((payload, packet.len())));
    }
}

#[test]
fn read_frame_leaves_what_follows_the_frame() {
    assert_eq!(
        read_frame(&[0x02, 0x0A, 0x0B, 0x0C, 0x0D]),
        Ok((vec![0x0A, 0x0B], 3))
    );
}

#[test]
fn read_frame_rejects_a_short_read() {
    assert_eq!(read_frame(&[0x03, 0x01, 0x02]), Err(PingError::ProtocolError));
    assert_eq!(read_frame(&[0x01]), Err(PingError::ProtocolError));
}

#[test]
fn read_frame_rejects_a_malformed_prefix() {
    assert_eq!(read_frame(&[]), Err(PingError::ProtocolError));
    assert_eq!(read_frame(&[0x80]), Err(PingError::ProtocolError));
    assert_eq!(
        read_frame(&[0x80, 0x80, 0x80, 0x80, 0x80, 0x00]),
        Err(PingError::ProtocolError)
    );
}

#[test]
fn read_frame_rejects_a_negative_length() {
    assert_eq!(
        read_frame(&[0xFF, 0xFF, 0xFF, 0xFF, 0x0F, 0x00]),
        Err(PingError::ProtocolError)
    );
}
