//! Tests for the XDR opaque primitive: length prefix, payload, and zero
//! padding to a four byte boundary.

use onc_rpc::{pad_length, Error, Opaque};

fn opq_hex(s: &str) -> Vec<u8> {
    let t: String = s.chars().filter(|c| !c.is_whitespace()).collect();
    t.as_bytes()
        .chunks(2)
        .map(|p| u8::from_str_radix(std::str::from_utf8(p).unwrap(), 16).unwrap())
        .collect()
}

#[test]
fn test_one_padded_opaque() {
    // 1. deserialise
    let raw = opq_hex("0000000f4c4150544f502d315151425044474d00");
    // opaque bytes from hex
    let payload: [u8; 15] = [76, 65, 80, 84, 79, 80, 45, 49, 81, 81, 66, 80, 68, 71, 77];
    let (data, consumed) = Opaque::from_wire(&raw, 0, 100).unwrap();
    // 4 bytes + 15 bytes (payload) + 1 padding byte
    assert_eq!(raw.len(), 20);
    assert_eq!(consumed, 20);
    assert_eq!(data.len(), 15);
    let body = data.into_payload();
    assert!(body.iter().zip(payload.iter()).all(|(a, b)| a == b));

    // 2. serialise
    let myopaque = Opaque::from_user_payload(body);
    let mut buf = Vec::new();
    myopaque.serialise_into(&mut buf);
    assert_eq!(buf.len(), 20);
    // assert input == output
    assert!(buf.iter().zip(raw.iter()).all(|(a, b)| a == b));
}

#[test]
fn test_no_padded_opaque() {
    // 1. deserialise
    let raw = opq_hex("0000000c4c4150544f5151425044474d");
    // opaque bytes from hex
    let payload: [u8; 12] = [76, 65, 80, 84, 79, 81, 81, 66, 80, 68, 71, 77];
    let (data, consumed) = Opaque::from_wire(&raw, 0, 100).unwrap();
    // 4 bytes + 12 bytes (payload)
    assert_eq!(raw.len(), 16);
    assert_eq!(consumed, 16);
    assert_eq!(data.len(), 12);
    let body = data.into_payload();
    assert!(body.iter().zip(payload.iter()).all(|(a, b)| a == b));

    // 2. serialise
    let myopaque = Opaque::from_user_payload(body);
    let mut buf = Vec::new();
    myopaque.serialise_into(&mut buf);
    assert_eq!(buf.len(), 16);
    // assert input == output
    assert!(buf.iter().zip(raw.iter()).all(|(a, b)| a == b));
}

#[test]
fn test_max_bytes() {
    let payload: [u8; 12] = [255, 65, 80, 84, 79, 81, 81, 66, 80, 68, 71, 77];
    Opaque::from_wire(&payload, 0, 100).expect_err("should hit max size");
}

#[test]
fn test_padding_must_be_zero() {
    // A one byte payload followed by a non-zero padding byte.
    let raw: [u8; 8] = [0, 0, 0, 1, 0xab, 1, 0, 0];
    let err = Opaque::from_wire(&raw, 0, 200).unwrap_err();
    assert_eq!(err, Error::InvalidPaddingData);
}

#[test]
fn test_length_prefix_overrun() {
    // A prefix declaring 16 bytes over a 2 byte remainder.
    let raw: [u8; 6] = [0, 0, 0, 16, 0xab, 0xcd];
    let err = Opaque::from_wire(&raw, 0, 200).unwrap_err();
    assert_eq!(err, Error::InvalidLength);
}

#[test]
fn test_truncated_length_prefix() {
    let raw: [u8; 3] = [0, 0, 0];
    let err = Opaque::from_wire(&raw, 0, 200).unwrap_err();
    assert_eq!(err, Error::InvalidLength);
}

#[test]
fn test_pad_length_values() {
    assert_eq!(pad_length(0), 0);
    assert_eq!(pad_length(1), 3);
    assert_eq!(pad_length(2), 2);
    assert_eq!(pad_length(3), 1);
    assert_eq!(pad_length(4), 0);
    assert_eq!(pad_length(15), 1);
}

#[test]
fn test_opaque_round_trip() {
    let data: Vec<u8> = (0u8..=255).collect();
    let mut buf = Vec::new();
    Opaque::from_user_payload(data.clone()).serialise_into(&mut buf);
    assert_eq!(buf.len(), 4 + 256);
    let (got, consumed) = Opaque::from_wire(&buf, 0, 256).unwrap();
    assert_eq!(consumed, buf.len());
    assert_eq!(got.into_payload(), data);
}
