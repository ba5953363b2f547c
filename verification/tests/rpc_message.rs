//! Tests for the RPC message envelope: fragment header handling, call and
//! reply decoding, exact re-encoding, and the protocol violations each
//! error reports.

use onc_rpc::auth::AuthFlavor;
use onc_rpc::{
    expected_message_len, unwrap_header, AcceptedReply, AcceptedStatus, AuthError, CallBody,
    Error, MessageType, RejectedReply, ReplyBody, RpcMessage,
};
use std::io::IoSlice;

fn msg_hex(s: &str) -> Vec<u8> {
    let t: String = s.chars().filter(|c| !c.is_whitespace()).collect();
    t.as_bytes()
        .chunks(2)
        .map(|p| u8::from_str_radix(std::str::from_utf8(p).unwrap(), 16).unwrap())
        .collect()
}

fn nfs_compound_call() -> Vec<u8> {
    // Remote Procedure Call, Type:Call XID:0x265ec0fd
    //     Fragment header: Last fragment, 284 bytes
    //     XID: 0x265ec0fd (643743997)
    //     Message Type: Call (0)
    //     RPC Version: 2
    //     Program: NFS (100003)
    //     Program Version: 4
    //     Procedure: COMPOUND (1)
    //     Credentials: AUTH_UNIX, length 84, uid 501, gid 20, 16 aux GIDs
    //     Verifier: AUTH_NULL
    // Network File System, Ops(1): SETCLIENTID
    msg_hex(
        "8000011c265ec0fd0000000000000002000186a300000004000000010000000100\
         0000540000000000000000000001f50000001400000010000001f50000000c00000\
         0140000003d0000004f000000500000005100000062000002bd0000002100000064\
         000000cc000000fa0000018b0000018e0000018f00000000000000000000000c736\
         574636c696420202020200000000000000001000000235ed267a200006839000000\
         4b00000000f8ffc247f4fb10020801c0a801bd00000000000000003139322e31363\
         82e312e3138393a2f686f6d652f646f6d002f55736572732f646f6d2f4465736b74\
         6f702f6d6f756e7400004e4653430000000374637000000000153139322e3136382\
         e312e3138382e3233382e32333500000000000002",
    )
}

#[test]
fn test_unwrap_header() {
    let x = nfs_compound_call();
    let want = &x[4..];
    assert_eq!(unwrap_header(&x), Ok(want));
}

#[test]
fn test_unwrap_header_validates_expected() {
    let x = msg_hex("80");
    assert_eq!(unwrap_header(&x).unwrap_err(), Error::IncompleteHeader);
}

#[test]
fn test_unwrap_header_validates_message_len() {
    let x = msg_hex("80 00 01 1c 265ec0fd0000000000000002");
    assert_eq!(
        unwrap_header(&x),
        Err(Error::IncompleteMessage {
            buffer_len: 16,
            expected: 288,
        })
    );
}

#[test]
fn test_unwrap_header_validates_fragment_bit() {
    let x = msg_hex("00 00 01 1c 265ec0fd0000000000000002");
    assert_eq!(unwrap_header(&x), Err(Error::Fragmented));
}

#[test]
fn test_rpcmessage_auth_unix() {
    let raw = nfs_compound_call();
    assert_eq!(raw.len(), 288);

    assert_eq!(expected_message_len(&raw).unwrap(), 288);

    let msg = RpcMessage::from_bytes(&raw).expect("failed to parse message");
    assert_eq!(msg.xid(), 643743997);
    assert_eq!(msg.serialised_len(), 288);

    let body = msg.call_body().expect("not a call rpc");
    assert_eq!(body.rpc_version(), 2);
    assert_eq!(body.program(), 100003);
    assert_eq!(body.program_version(), 4);
    assert_eq!(body.procedure(), 1);

    assert_eq!(body.auth_credentials().serialised_len(), 92);
    let auth = match *body.auth_credentials() {
        AuthFlavor::AuthUnix(ref v) => v,
        _ => panic!("unexpected auth type"),
    };

    assert_eq!(auth.stamp(), 0x00000000);
    assert_eq!(auth.machine_name_str().unwrap(), "");
    assert_eq!(auth.uid(), 501);
    assert_eq!(auth.gid(), 20);
    assert_eq!(
        auth.gids(),
        Some(&vec![
            501, 12, 20, 61, 79, 80, 81, 98, 701, 33, 100, 204, 250, 395, 398, 399
        ])
    );
    assert_eq!(auth.serialised_len(), 84);

    assert_eq!(*body.auth_verifier(), AuthFlavor::AuthNone(None));

    let payload = msg_hex(
        "0000000c736574636c696420202020200000000000000001000000235ed267a200\
         0068390000004b00000000f8ffc247f4fb10020801c0a801bd00000000000000003\
         139322e3136382e312e3138393a2f686f6d652f646f6d002f55736572732f646f6d\
         2f4465736b746f702f6d6f756e7400004e465343000000037463700000000015313\
         9322e3136382e312e3138382e3233382e32333500000000000002",
    );

    assert_eq!(body.payload().as_slice(), payload.as_slice());

    let serialised = msg.serialise().expect("failed to serialise");
    assert_eq!(serialised.as_slice(), raw.as_slice());
}

#[test]
fn test_rpcmessage_auth_unix_bytes() {
    let raw = nfs_compound_call();

    assert_eq!(expected_message_len(&raw).unwrap(), 288);

    let msg = RpcMessage::from_bytes(&raw).expect("failed to parse message");
    assert_eq!(msg.xid(), 643743997);
    assert_eq!(msg.serialised_len(), 288);

    let body = msg.call_body().expect("not a call rpc");
    assert_eq!(body.rpc_version(), 2);
    assert_eq!(body.program(), 100003);
    assert_eq!(body.program_version(), 4);
    assert_eq!(body.procedure(), 1);

    assert_eq!(body.auth_credentials().serialised_len(), 92);
    let auth = match body.auth_credentials() {
        AuthFlavor::AuthUnix(ref v) => v,
        v => panic!("unexpected auth type {:?}", v),
    };

    assert_eq!(auth.stamp(), 0x00000000);
    assert_eq!(auth.machine_name_str().unwrap(), "");
    assert_eq!(auth.uid(), 501);
    assert_eq!(auth.gid(), 20);
    assert_eq!(
        auth.gids(),
        Some(&vec![
            501, 12, 20, 61, 79, 80, 81, 98, 701, 33, 100, 204, 250, 395, 398, 399
        ])
    );
    assert_eq!(auth.serialised_len(), 84);

    assert_eq!(*body.auth_verifier(), AuthFlavor::AuthNone(None));

    let payload = msg_hex(
        "0000000c736574636c696420202020200000000000000001000000235ed267a200\
         0068390000004b00000000f8ffc247f4fb10020801c0a801bd00000000000000003\
         139322e3136382e312e3138393a2f686f6d652f646f6d002f55736572732f646f6d\
         2f4465736b746f702f6d6f756e7400004e465343000000037463700000000015313\
         9322e3136382e312e3138382e3233382e32333500000000000002",
    );

    assert_eq!(body.payload().as_slice(), payload.as_slice());

    let serialised = msg.serialise().expect("failed to serialise");
    assert_eq!(serialised.as_slice(), raw.as_slice());
}

#[test]
fn test_rpcmessage_auth_unix_empty() {
    // Remote Procedure Call, Type:Call XID:0x265ec106
    //     Fragment header: Last fragment, 152 bytes
    //     XID: 0x265ec106 (643744006)
    //     Message Type: Call (0)
    //     RPC Version: 2
    //     Program: NFS (100003)
    //     Program Version: 4
    //     Procedure: COMPOUND (1)
    //     Credentials: AUTH_UNIX, length 24, uid 0, gid 0, aux GIDs [0]
    //     Verifier: AUTH_NULL
    // Network File System, Ops(3): PUTFH, ACCESS, GETATTR
    let raw = msg_hex(
        "80000098265ec1060000000000000002000186a300000004000000010000000100\
         0000180000000000000000000000000000000000000001000000000000000000000\
         0000000000c6163636573732020202020200000000000000003000000160000001f\
         4300004d1a436f6c452240ea4c70a1b52d7f97418e6601a10e02009cf2d59c00000\
         000030000003f00000009000000021010011a00b0a23a",
    );

    let msg = RpcMessage::from_bytes(&raw).expect("failed to parse message");
    assert_eq!(msg.xid(), 643744006);
    assert_eq!(msg.serialised_len(), 156);

    let body = msg.call_body().expect("not a call rpc");
    assert_eq!(body.rpc_version(), 2);
    assert_eq!(body.program(), 100003);
    assert_eq!(body.program_version(), 4);
    assert_eq!(body.procedure(), 1);

    assert_eq!(body.auth_credentials().serialised_len(), 32);
    let params = match *body.auth_credentials() {
        AuthFlavor::AuthUnix(ref v) => v,
        ref v => panic!("unexpected auth type {:?}", v),
    };

    assert_eq!(params.stamp(), 0x00000000);
    assert_eq!(params.machine_name_str().unwrap(), "");
    assert_eq!(params.uid(), 0);
    assert_eq!(params.gid(), 0);
    assert_eq!(params.serialised_len(), 24);
    assert_eq!(params.gids(), Some(&vec![0]));

    assert_eq!(*body.auth_verifier(), AuthFlavor::AuthNone(None));
    assert_eq!(body.auth_verifier().serialised_len(), 8);

    assert_eq!(body.payload().len(), 88);

    let serialised = msg.serialise().expect("failed to serialise");
    assert_eq!(serialised.as_slice(), raw.as_slice());
}

#[test]
fn test_rpcmessage_reply() {
    // Remote Procedure Call, Type:Reply XID:0x265ec0fd
    //     Fragment header: Last fragment, 72 bytes
    //     XID: 0x265ec0fd (643743997)
    //     Message Type: Reply (1)
    //     Reply State: accepted (0)
    //     Verifier: AUTH_NULL
    //     Accept State: RPC executed successfully (0)
    let raw = msg_hex(
        "80000048265ec0fd00000001000000000000000000000000000000000000000000\
         00000c736574636c696420202020200000000100000023000000005ed2672e00000\
         0020200000000000000",
    );

    let msg = RpcMessage::from_bytes(&raw).expect("failed to parse message");
    assert_eq!(msg.xid(), 643743997);
    assert_eq!(msg.serialised_len(), 76);

    let body = match msg.reply_body().expect("not a call rpc") {
        ReplyBody::Accepted(b) => b,
        _ => panic!("wrong reply type"),
    };
    assert_eq!(body.serialised_len(), 60);

    match body.status() {
        AcceptedStatus::Success(data) => {
            assert_eq!(data.len(), 48);
        }
        _ => panic!("wrong reply status type"),
    };

    match body.auth_verifier() {
        AuthFlavor::AuthNone(None) => {}
        _ => panic!("wrong verifier type"),
    };

    let buf = msg.serialise().expect("failed to serialise");
    assert_eq!(buf.as_slice(), raw.as_slice());
}

#[test]
fn test_rpcmessage_reply_bytes() {
    let raw = msg_hex(
        "80000048265ec0fd00000001000000000000000000000000000000000000000000\
         00000c736574636c696420202020200000000100000023000000005ed2672e00000\
         0020200000000000000",
    );

    let msg = RpcMessage::from_bytes(&raw).expect("failed to parse message");
    assert_eq!(msg.xid(), 643743997);
    assert_eq!(msg.serialised_len(), 76);

    let body = match msg.reply_body().expect("not a call rpc") {
        ReplyBody::Accepted(b) => b,
        _ => panic!("wrong reply type"),
    };
    assert_eq!(body.serialised_len(), 60);

    match body.status() {
        AcceptedStatus::Success(data) => {
            assert_eq!(data.len(), 48);
        }
        _ => panic!("wrong reply status type"),
    };

    match body.auth_verifier() {
        AuthFlavor::AuthNone(None) => {}
        _ => panic!("wrong verifier type"),
    };

    let buf = msg.serialise().expect("failed to serialise");
    assert_eq!(buf.as_slice(), raw.as_slice());
}

#[test]
fn test_fuzz_message_too_long_for_type() {
    let raw = msg_hex(
        "800000232323232300000001000000000000000000000000000000010302\
         232323232300232300",
    );
    assert_eq!(raw.len(), 39);

    let msg = RpcMessage::from_bytes(&raw);
    match msg {
        Err(Error::IncompleteMessage {
            buffer_len: b,
            expected: e,
        }) => {
            assert_eq!(b, 39);
            assert_eq!(e, 28);
        }
        v => panic!("expected incomplete error, got {:?}", v),
    }
}

#[test]
fn test_fuzz_message_too_long_for_type_bytes() {
    let raw = msg_hex(
        "800000232323232300000001000000000000000000000000000000010302\
         232323232300232300",
    );
    assert_eq!(raw.len(), 39);

    let msg = RpcMessage::from_bytes(&raw);
    match msg {
        Err(Error::IncompleteMessage {
            buffer_len: b,
            expected: e,
        }) => {
            assert_eq!(b, 39);
            assert_eq!(e, 28);
        }
        v => panic!("expected incomplete error, got {:?}", v),
    }
}

#[test]
fn test_ioslice_payload() {
    let buf1 = [1; 8];
    let ioslice = IoSlice::new(&buf1);

    let body = CallBody::new(
        1,
        2,
        3,
        AuthFlavor::AuthNone(None),
        AuthFlavor::AuthNone(None),
        ioslice.to_vec(),
    );

    let msg = RpcMessage::new(42, MessageType::Call(body));

    assert_eq!(msg.call_body().unwrap().payload().as_slice(), &buf1);
}

#[test]
fn test_differing_payload_type() {
    let binding = vec![42];
    let auth = AuthFlavor::AuthNone(Some(binding));
    let payload = vec![42, 42, 42, 42];

    let _reply = ReplyBody::Accepted(AcceptedReply::new(auth, AcceptedStatus::Success(payload)));
}

#[test]
fn test_call_auth_none_exact_bytes() {
    // A call with rpcvers 2, both auth flavors AUTH_NONE with no payload,
    // and a four byte payload: decode succeeds, all fields match, and
    // encode reproduces the exact input bytes.
    let raw = msg_hex(
        "8000002c 075bcd15 00000000 00000002 000186a3 00000004 00000001\
         00000000 00000000 00000000 00000000 01020304",
    );
    assert_eq!(raw.len(), 48);

    let msg = RpcMessage::from_bytes(&raw).expect("failed to parse message");
    assert_eq!(msg.xid(), 123456789);
    let body = msg.call_body().expect("not a call rpc");
    assert_eq!(body.rpc_version(), 2);
    assert_eq!(body.program(), 100003);
    assert_eq!(body.program_version(), 4);
    assert_eq!(body.procedure(), 1);
    assert_eq!(*body.auth_credentials(), AuthFlavor::AuthNone(None));
    assert_eq!(*body.auth_verifier(), AuthFlavor::AuthNone(None));
    assert_eq!(body.payload().as_slice(), &[1, 2, 3, 4]);

    let built = RpcMessage::new(
        123456789,
        MessageType::Call(CallBody::new(
            100003,
            4,
            1,
            AuthFlavor::AuthNone(None),
            AuthFlavor::AuthNone(None),
            vec![1, 2, 3, 4],
        )),
    );
    assert_eq!(built, msg);
    assert_eq!(built.serialise().unwrap(), raw);
}

#[test]
fn test_invalid_message_type() {
    let raw = msg_hex("80000008 00000001 00000002");
    assert_eq!(
        RpcMessage::from_bytes(&raw).unwrap_err(),
        Error::InvalidMessageType(2)
    );
}

#[test]
fn test_invalid_reply_type() {
    let raw = msg_hex("8000000c 00000001 00000001 00000002");
    assert_eq!(
        RpcMessage::from_bytes(&raw).unwrap_err(),
        Error::InvalidReplyType(2)
    );
}

#[test]
fn test_invalid_reply_status() {
    // An accepted reply with an AUTH_NONE verifier and status code 6.
    let raw = msg_hex("80000018 00000001 00000001 00000000 00000000 00000000 00000006");
    assert_eq!(
        RpcMessage::from_bytes(&raw).unwrap_err(),
        Error::InvalidReplyStatus(6)
    );
}

#[test]
fn test_invalid_rejected_reply_type() {
    let raw = msg_hex("80000010 00000001 00000001 00000001 00000002");
    assert_eq!(
        RpcMessage::from_bytes(&raw).unwrap_err(),
        Error::InvalidRejectedReplyType(2)
    );
}

#[test]
fn test_invalid_auth_error() {
    let raw = msg_hex("80000014 00000001 00000001 00000001 00000001 00000008");
    assert_eq!(
        RpcMessage::from_bytes(&raw).unwrap_err(),
        Error::InvalidAuthError(8)
    );
}

#[test]
fn test_invalid_rpc_version() {
    // A call whose rpcvers field holds 3.
    let raw = msg_hex(
        "8000002c 075bcd15 00000000 00000003 000186a3 00000004 00000001\
         00000000 00000000 00000000 00000000 01020304",
    );
    assert_eq!(
        RpcMessage::from_bytes(&raw).unwrap_err(),
        Error::InvalidRpcVersion(3)
    );
}

#[test]
fn test_denied_replies_round_trip() {
    let variants = vec![
        RejectedReply::RpcVersionMismatch { low: 2, high: 2 },
        RejectedReply::AuthError(AuthError::Success),
        RejectedReply::AuthError(AuthError::BadCredentials),
        RejectedReply::AuthError(AuthError::RejectedCredentials),
        RejectedReply::AuthError(AuthError::BadVerifier),
        RejectedReply::AuthError(AuthError::RejectedVerifier),
        RejectedReply::AuthError(AuthError::TooWeak),
        RejectedReply::AuthError(AuthError::InvalidResponseVerifier),
        RejectedReply::AuthError(AuthError::Failed),
    ];
    for rejected in variants {
        let msg = RpcMessage::new(7, MessageType::Reply(ReplyBody::Denied(rejected)));
        let bytes = msg.serialise().expect("failed to serialise");
        let got = RpcMessage::from_bytes(&bytes).expect("failed to parse message");
        assert_eq!(got, msg);
    }
}

#[test]
fn test_accepted_statuses_round_trip() {
    let statuses = vec![
        AcceptedStatus::Success(vec![9, 9, 9, 9]),
        AcceptedStatus::ProgramUnavailable,
        AcceptedStatus::ProgramMismatch { low: 3, high: 4 },
        AcceptedStatus::ProcedureUnavailable,
        AcceptedStatus::GarbageArgs,
        AcceptedStatus::SystemError,
    ];
    for status in statuses {
        let reply = AcceptedReply::new(AuthFlavor::AuthNone(None), status);
        let msg = RpcMessage::new(8, MessageType::Reply(ReplyBody::Accepted(reply)));
        let bytes = msg.serialise().expect("failed to serialise");
        let got = RpcMessage::from_bytes(&bytes).expect("failed to parse message");
        assert_eq!(got, msg);
    }
}

#[test]
fn test_auth_flavors_round_trip() {
    let flavors = vec![
        AuthFlavor::AuthNone(None),
        AuthFlavor::AuthNone(Some(vec![1, 2, 3])),
        AuthFlavor::AuthShort(vec![5, 6]),
        AuthFlavor::Unknown {
            id: 255,
            data: vec![7, 8, 9],
        },
    ];
    for flavor in flavors {
        let body = CallBody::new(1, 2, 3, flavor, AuthFlavor::AuthNone(None), vec![0xaa]);
        let msg = RpcMessage::new(9, MessageType::Call(body));
        let bytes = msg.serialise().expect("failed to serialise");
        let got = RpcMessage::from_bytes(&bytes).expect("failed to parse message");
        assert_eq!(got, msg);
    }
}
