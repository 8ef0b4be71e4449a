use mcping::error::PingError;
use mcping::varint::{pack_var_int, unpack_var_int};

#[test]
fn to_var_int_tests() {
    let cases = [
        (0, vec![0x00]),
        (1, vec![0x01]),
        (2, vec![0x02]),
        (127, vec![0x7F]),
        (128, vec![0x80, 0x01]),
        (255, vec![0xFF, 0x01]),
        (25565, vec![0xdd, 0xc7, 0x01]),
        (2147483647, vec![0xff, 0xff, 0xff, 0xff, 0x07]),
        (-1, vec![0xff, 0xff, 0xff, 0xff, 0x0f]),
    ];

    for (input, expected) in cases {
        assert_eq!(
            pack_var_int(input),
            expected,
            "With input {input}, expected {expected:?}"
        );
    }
}

#[test]
fn from_var_int_tests() {
    let cases = [
        (0, vec![0x00]),
        (1, vec![0x01]),
        (2, vec![0x02]),
        (127, vec![0x7F]),
        (128, vec![0x80, 0x01]),
        (255, vec![0xFF, 0x01]),
        (25565, vec![0xdd, 0xc7, 0x01]),
        (2147483647, vec![0xff, 0xff, 0xff, 0xff, 0x07]),
        (-1, vec![0xff, 0xff, 0xff, 0xff, 0x0f]),
    ];

    for (expected, input) in cases {
        assert_eq!(
            unpack_var_int(&input),
            Ok((expected, input.len())),
            "With input {input:?}, expected {expected}"
        );
    }
}

#[test]
fn var_int_round_trip_on_chosen_values() {
    let values = [
        0,
        1,
        127,
        128,
        16383,
        16384,
        2097151,
        2097152,
        268435455,
        268435456,
        i32::MAX,
        -1,
        -2,
        -128,
        i32::MIN,
    ];
    for value in values {
        let bytes = pack_var_int(value);
        assert_eq!(unpack_var_int(&bytes), Ok((value, bytes.len())));
    }
}

#[test]
fn var_int_lengths() {
    for value in 0..=127 {
        assert_eq!(pack_var_int(value).len(), 1);
    }
    assert_eq!(pack_var_int(128).len(), 2);
    assert_eq!(pack_var_int(16383).len(), 2);
    assert_eq!(pack_var_int(16384).len(), 3);
    assert_eq!(pack_var_int(2097151).len(), 3);
    assert_eq!(pack_var_int(2097152).len(), 4);
    assert_eq!(pack_var_int(268435455).len(), 4);
    assert_eq!(pack_var_int(268435456).len(), 5);
    assert_eq!(pack_var_int(-1).len(), 5);
    assert_eq!(pack_var_int(i32::MAX).len(), 5);
    assert_eq!(pack_var_int(i32::MIN).len(), 5);
}

#[test]
fn var_int_of_the_smallest_value() {
    assert_eq!(pack_var_int(i32::MIN), vec![0x80, 0x80, 0x80, 0x80, 0x08]);
    assert_eq!(
        unpack_var_int(&[0x80, 0x80, 0x80, 0x80, 0x08]),
        Ok((i32::MIN, 5))
    );
}

#[test]
fn unpack_stops_at_the_first_final_byte() {
    assert_eq!(unpack_var_int(&[0x05, 0xFF, 0xFF]), Ok((5, 1)));
    assert_eq!(unpack_var_int(&[0xdd, 0xc7, 0x01, 0x00]), Ok((25565, 3)));
}

#[test]
fn unpack_rejects_an_empty_source() {
    assert_eq!(unpack_var_int(&[]), Err(PingError::ProtocolError));
}

#[test]
fn unpack_rejects_a_source_that_ends_early() {
    assert_eq!(unpack_var_int(&[0x80]), Err(PingError::ProtocolError));
    assert_eq!(
        unpack_var_int(&[0xFF, 0xFF, 0xFF, 0xFF]),
        Err(PingError::ProtocolError)
    );
}

#[test]
fn unpack_rejects_more_than_five_bytes() {
    assert_eq!(
        unpack_var_int(&[0x80, 0x80, 0x80, 0x80, 0x80, 0x00]),
        Err(PingError::ProtocolError)
    );
    assert_eq!(
        unpack_var_int(&[0xFF, 0xFF, 0xFF, 0xFF, 0xFF, 0x01]),
        Err(PingError::ProtocolError)
    );
}

#[test]
fn unpack_cuts_the_fifth_group_to_32_bits() {
    assert_eq!(
        unpack_var_int(&[0xFF, 0xFF, 0xFF, 0xFF, 0x7F]),
        Ok((-1, 5))
    );
    assert_eq!(unpack_var_int(&[0x00, 0x00]), Ok((0, 1)));
    assert_eq!(
        unpack_var_int(&[0x80, 0x80, 0x80, 0x80, 0x10]),
        Ok((0, 5))
    );
}

#[test]
fn unpack_accepts_an_encoding_that_is_not_the_shortest() {
    assert_eq!(unpack_var_int(&[0x81, 0x00]), Ok((1, 2)));
}
