//! Tests for the auth flavors and the `AUTH_UNIX` parameter block.

use onc_rpc::auth::{AuthFlavor, AuthUnixParams, AUTH_NONE, AUTH_SHORT, AUTH_UNIX};
use onc_rpc::Error;

fn auth_hex(s: &str) -> Vec<u8> {
    let t: String = s.chars().filter(|c| !c.is_whitespace()).collect();
    t.as_bytes()
        .chunks(2)
        .map(|p| u8::from_str_radix(std::str::from_utf8(p).unwrap(), 16).unwrap())
        .collect()
}

#[test]
fn test_auth_unix_unaligned_machinename() {
    // Credentials
    //     Flavor: AUTH_UNIX (1)
    //     Length: 36
    //     Stamp: 0x00000000
    //     Machine Name: LAPTOP-1QQBPDGM
    //         length: 15
    //         contents: LAPTOP-1QQBPDGM
    //     UID: 0
    //     GID: 0
    //     Auxiliary GIDs (0)
    let raw = auth_hex(
        "0000000100000024000000000000000f4c4150544f502d315151425044474d00000000000000000000000000",
    );
    assert_eq!(raw.len(), 44);

    let (f, consumed) = AuthFlavor::from_wire(&raw, 0).expect("failed to parse message");
    assert_eq!(consumed, 44);
    assert_eq!(f.serialised_len(), 44);
    assert_eq!(f.id(), AUTH_UNIX);
    assert_eq!(f.associated_data_len(), 27);

    let params = match f {
        AuthFlavor::AuthUnix(ref p) => p,
        _ => panic!("wrong auth"),
    };

    assert_eq!(params.uid(), 0);

    let mut buf = Vec::new();
    f.serialise_into(&mut buf);
    assert_eq!(buf.as_slice(), raw.as_slice());
}

#[test]
fn test_auth_unix() {
    // Credentials
    //     Flavor: AUTH_UNIX (1)
    //     Length: 84
    //     Stamp: 0x00000000
    //     Machine Name: <EMPTY>
    //     UID: 501
    //     GID: 20
    //     Auxiliary GIDs (16) [501, 12, 20, 61, 79, 80, 81, 98, 701, 33,
    //     100, 204, 250, 395, 398, 399]
    let raw = auth_hex(
        "00000001000000540000000000000000000001f50000001400000010000001f500\
         00000c000000140000003d0000004f000000500000005100000062000002bd00000\
         02100000064000000cc000000fa0000018b0000018e0000018f",
    );
    assert_eq!(raw.len(), 92);

    let (f, consumed) = AuthFlavor::from_wire(&raw, 0).expect("failed to parse message");
    assert_eq!(consumed, 92);
    assert_eq!(f.serialised_len(), 92);
    assert_eq!(f.id(), AUTH_UNIX);
    // - auth flavor - auth size - gids length - name length
    assert_eq!(f.associated_data_len(), 92 - 4 - 4 - 4 - 4);

    let params = match f {
        AuthFlavor::AuthUnix(ref p) => p,
        _ => panic!("wrong auth"),
    };

    assert_eq!(params.uid(), 501);

    let mut buf = Vec::new();
    f.serialise_into(&mut buf);
    assert_eq!(buf.as_slice(), raw.as_slice());
}

#[test]
fn test_auth_none() {
    let raw = auth_hex(
        "00 00 00 00\
         00 00 00 54\
         0000000000000000000001f50000001400000010000001f50000000c00000014000\
         0003d0000004f000000500000005100000062000002bd0000002100000064000000\
         cc000000fa0000018b0000018e0000018f",
    );
    assert_eq!(raw.len(), 92);

    let (f, consumed) = AuthFlavor::from_wire(&raw, 0).expect("failed to parse message");
    assert_eq!(consumed, 92);
    assert_eq!(f.serialised_len(), 92);
    assert_eq!(f.id(), AUTH_NONE);
    assert_eq!(f.associated_data_len(), 92 - 4 - 4);

    let data = match f {
        AuthFlavor::AuthNone(Some(ref p)) => p,
        _ => panic!("wrong auth"),
    };

    assert_eq!(data.len(), f.associated_data_len() as usize);
}

#[test]
fn test_auth_short() {
    let raw = auth_hex(
        "00 00 00 02\
         00 00 00 54\
         0000000000000000000001f50000001400000010000001f50000000c00000014000\
         0003d0000004f000000500000005100000062000002bd0000002100000064000000\
         cc000000fa0000018b0000018e0000018f",
    );
    assert_eq!(raw.len(), 92);

    let (f, consumed) = AuthFlavor::from_wire(&raw, 0).expect("failed to parse message");
    assert_eq!(consumed, 92);
    assert_eq!(f.serialised_len(), 92);
    assert_eq!(f.id(), AUTH_SHORT);
    assert_eq!(f.associated_data_len(), 92 - 4 - 4);

    let data = match f {
        AuthFlavor::AuthShort(ref p) => p,
        _ => panic!("wrong auth"),
    };

    assert_eq!(data.len(), f.associated_data_len() as usize);
}

#[test]
fn test_auth_unknown() {
    let raw = auth_hex(
        "00 00 00 FF\
         00 00 00 54\
         0000000000000000000001f50000001400000010000001f50000000c00000014000\
         0003d0000004f000000500000005100000062000002bd0000002100000064000000\
         cc000000fa0000018b0000018e0000018f",
    );
    assert_eq!(raw.len(), 92);

    let (f, consumed) = AuthFlavor::from_wire(&raw, 0).expect("failed to parse message");
    assert_eq!(consumed, 92);
    assert_eq!(f.serialised_len(), 92);
    assert_eq!(f.id(), 255);
    assert_eq!(f.associated_data_len(), 92 - 4 - 4);

    let (id, data) = match f {
        AuthFlavor::Unknown { id, ref data } => (id, data),
        _ => panic!("wrong auth"),
    };

    assert_eq!(id, 255);
    assert_eq!(data.len(), f.associated_data_len() as usize);
}

#[test]
fn test_serialise_deserialise() {
    let gids = vec![
        501, 12, 20, 61, 79, 80, 81, 98, 701, 33, 100, 204, 250, 395, 398, 399,
    ];
    let params = AuthUnixParams::new(0, Vec::new(), 501, 20, gids);

    let mut buf = Vec::new();
    params.serialise_into(&mut buf);

    // Known good wire value trimmed of flavor + length bytes.
    //
    // Credentials
    //     Flavor: AUTH_UNIX (1)
    //     Length: 84
    //     Stamp: 0x00000000
    //     Machine Name: <EMPTY>
    //     UID: 501
    //     GID: 20
    //     Auxiliary GIDs (16) [501, 12, 20, 61, 79, 80, 81, 98, 701, 33,
    //     100, 204, 250, 395, 398, 399]
    let want = auth_hex(
        "0000000000000000000001f50000001400000010000001f50000000c0000001400\
         00003d0000004f000000500000005100000062000002bd000000210000006400000\
         0cc000000fa0000018b0000018e0000018f",
    );

    assert_eq!(want.len(), buf.len());
    assert_eq!(want.as_slice(), buf.as_slice());

    let (s, consumed) = AuthUnixParams::from_wire(&want, 0, 84).expect("deserialise failed");

    assert_eq!(consumed, 84);
    assert_eq!(s.serialised_len(), 84);
    assert_eq!(params, s);
}

#[test]
fn test_empty() {
    // Known good wire value trimmed of flavor + length bytes.
    //
    // Credentials
    //     Flavor: AUTH_UNIX (1)
    //     Length: 24
    //     Stamp: 0x00000000
    //     Machine Name: <EMPTY>
    //     UID: 0
    //     GID: 0
    //     Auxiliary GIDs (1) [0]
    let want = auth_hex("000000000000000000000000000000000000000100000000");

    let (s, consumed) = AuthUnixParams::from_wire(&want, 0, 24).expect("deserialise failed");

    assert_eq!(consumed, 24);
    assert_eq!(s.stamp(), 0);
    assert_eq!(s.machine_name_str().unwrap(), "");
    assert_eq!(s.uid(), 0);
    assert_eq!(s.gid(), 0);
    assert_eq!(s.gids(), Some(&vec![0]));
    assert_eq!(s.serialised_len(), 24);

    let mut buf = Vec::new();
    s.serialise_into(&mut buf);

    assert_eq!(want.len(), buf.len());
    assert_eq!(want.as_slice(), buf.as_slice());
}

#[test]
fn test_deserialise_bytes() {
    // Known good wire value trimmed of flavor + length bytes.
    let want = auth_hex(
        "0000000000000000000001f50000001400000010000001f50000000c0000001400\
         00003d0000004f000000500000005100000062000002bd000000210000006400000\
         0cc000000fa0000018b0000018e0000018f",
    );

    let (got, _) = AuthUnixParams::from_wire(&want, 0, 84).expect("failed to deserialise");

    assert_eq!(got.stamp(), 0);
    assert_eq!(got.machine_name_str().unwrap(), "");
    assert_eq!(got.uid(), 501);
    assert_eq!(got.gid(), 20);
    assert_eq!(
        got.gids(),
        Some(&vec![
            501, 12, 20, 61, 79, 80, 81, 98, 701, 33, 100, 204, 250, 395, 398, 399
        ])
    );
    assert_eq!(got.serialised_len(), 84);
}

#[test]
fn test_empty_bytes() {
    let want = auth_hex("000000000000000000000000000000000000000100000000");

    let (s, _) = AuthUnixParams::from_wire(&want, 0, 24).expect("deserialise failed");

    assert_eq!(s.stamp(), 0);
    assert_eq!(s.machine_name_str().unwrap(), "");
    assert_eq!(s.uid(), 0);
    assert_eq!(s.gid(), 0);
    assert_eq!(s.gids(), Some(&vec![0]));
    assert_eq!(s.serialised_len(), 24);

    let mut buf = Vec::new();
    s.serialise_into(&mut buf);

    assert_eq!(want.len(), buf.len());
    assert_eq!(want.as_slice(), buf.as_slice());
}

#[test]
fn test_gids_capacity() {
    // An AUTH_UNIX block declaring 17 supplementary groups: stamp, empty
    // machine name, uid, gid, then a count of 17.
    let raw = auth_hex(
        "00000001 00000058 00000000 00000000 000001f5 00000014 00000011\
         00000000 00000000 00000000 00000000 00000000 00000000 00000000\
         00000000 00000000 00000000 00000000 00000000 00000000 00000000\
         00000000 00000000 00000000",
    );
    let err = AuthFlavor::from_wire(&raw, 0).unwrap_err();
    assert_eq!(err, Error::InvalidAuthData);
}

#[test]
fn test_declared_length_mismatch() {
    // A valid 24 byte AUTH_UNIX body under a flavor length declaring 28
    // bytes: the consumed length differs from the declared one.
    let raw = auth_hex(
        "00000001 0000001c 000000000000000000000000000000000000000100000000 00000000",
    );
    let err = AuthFlavor::from_wire(&raw, 0).unwrap_err();
    assert_eq!(err, Error::InvalidAuthData);
}

#[test]
fn test_machine_name_not_utf8() {
    // 0xff is not valid UTF-8; the raw bytes remain retrievable.
    let params = AuthUnixParams::new(42, vec![0xff, 0xfe], 1, 2, Vec::new());
    assert_eq!(params.machine_name_str().unwrap_err(), Error::InvalidMachineName);
    assert_eq!(params.machine_name(), &[0xff, 0xfe]);
}

#[test]
fn test_auth_none_empty_normalises() {
    // Serialising a present-but-empty AUTH_NONE payload writes the same
    // bytes as an absent one, and decoding yields the absent form.
    let mut a = Vec::new();
    AuthFlavor::AuthNone(Some(Vec::new())).serialise_into(&mut a);
    let mut b = Vec::new();
    AuthFlavor::AuthNone(None).serialise_into(&mut b);
    assert_eq!(a, b);
    let (f, _) = AuthFlavor::from_wire(&a, 0).unwrap();
    assert_eq!(f, AuthFlavor::AuthNone(None));
}
