//! The RPC message envelope of RFC 5531: the fragment header, transaction
//! id and message-type dispatch, together with the library's two central
//! laws: decoding inverts encoding, and encoding inverts decoding.

use vstd::prelude::*;

use crate::call_body::{
    enc_call, lemma_enc_call_len, lemma_parse_call_complete, lemma_parse_call_sound, parse_call,
    CallBody, SpecCallBody,
};
use crate::errors::Error;
use crate::reply::{
    enc_reply, lemma_enc_reply_len, lemma_parse_reply_complete, lemma_parse_reply_sound,
    parse_reply, AcceptedStatus, ReplyBody, SpecReplyBody,
};
use crate::xdr::{
    be_bytes, be_val, lemma_be_bytes_of_be_val, lemma_concat_split, lemma_parse_u32_complete,
    lemma_parse_u32_sound, lemma_subrange_concat, parse_u32, push_u32_be, read_u32_at,
};

verus! {

/// The "this is the last fragment" bit of the fragment header.
pub const LAST_FRAGMENT_BIT: u32 = 0x8000_0000;

/// The wire discriminator of a call message.
pub const MESSAGE_TYPE_CALL: u32 = 0;

/// The wire discriminator of a reply message.
pub const MESSAGE_TYPE_REPLY: u32 = 1;

/// The mathematical value of a [`MessageType`].
#[verifier::ext_equal]
pub ghost enum SpecMessageType {
    /// This message is invoking an RPC.
    Call(SpecCallBody),
    /// This message is a response to an RPC request.
    Reply(SpecReplyBody),
}

impl SpecMessageType {
    /// Validity of the variant's contents.
    pub open spec fn wf(self) -> bool {
        match self {
            SpecMessageType::Call(c) => c.wf(),
            SpecMessageType::Reply(r) => r.wf(),
        }
    }

    /// Whether the variant's contents are values the decoder can produce.
    pub open spec fn canonical(self) -> bool {
        match self {
            SpecMessageType::Call(c) => c.canonical(),
            SpecMessageType::Reply(r) => r.canonical(),
        }
    }

    /// The on-wire length of this message type, discriminator included.
    pub open spec fn wire_len(self) -> int {
        4 + match self {
            SpecMessageType::Call(c) => c.wire_len(),
            SpecMessageType::Reply(r) => r.wire_len(),
        }
    }

    /// Whether the variant's payload runs to the end of the enclosing
    /// buffer.
    pub open spec fn runs_to_end(self) -> bool {
        match self {
            SpecMessageType::Call(c) => true,
            SpecMessageType::Reply(r) => r.runs_to_end(),
        }
    }
}

/// The wire form of a message type: its discriminator, then the body.
pub open spec fn enc_mt(m: SpecMessageType) -> Seq<u8> {
    match m {
        SpecMessageType::Call(c) => be_bytes(MESSAGE_TYPE_CALL) + enc_call(c),
        SpecMessageType::Reply(r) => be_bytes(MESSAGE_TYPE_REPLY) + enc_reply(r),
    }
}

/// Reads a message type at `pos`: a discriminator other than call or
/// reply is an [`Error::InvalidMessageType`].
pub open spec fn parse_mt(b: Seq<u8>, pos: int) -> Result<(SpecMessageType, int), Error> {
    match parse_u32(b, pos) {
        Err(e) => Err(e),
        Ok((disc, p)) => {
            if disc == MESSAGE_TYPE_CALL {
                match parse_call(b, p) {
                    Err(e) => Err(e),
                    Ok((c, p2)) => Ok((SpecMessageType::Call(c), p2)),
                }
            } else if disc == MESSAGE_TYPE_REPLY {
                match parse_reply(b, p) {
                    Err(e) => Err(e),
                    Ok((r, p2)) => Ok((SpecMessageType::Reply(r), p2)),
                }
            } else {
                Err(Error::InvalidMessageType(disc))
            }
        },
    }
}

/// A successfully parsed message type is valid and canonical, and encodes
/// to exactly the bytes read.
pub proof fn lemma_parse_mt_sound(b: Seq<u8>, pos: int)
    requires
        0 <= pos <= b.len(),
        parse_mt(b, pos) is Ok,
    ensures
        parse_mt(b, pos) matches Ok((m, p)) ==> {
            &&& m.wf()
            &&& m.canonical()
            &&& pos < p <= b.len()
            &&& m.wire_len() == p - pos
            &&& (m.runs_to_end() ==> p == b.len())
            &&& enc_mt(m) == b.subrange(pos, p)
        },
{
    let (disc, p1) = parse_u32(b, pos)->Ok_0;
    lemma_parse_u32_sound(b, pos);
    if disc == MESSAGE_TYPE_CALL {
        let (c, p2) = parse_call(b, p1)->Ok_0;
        lemma_parse_call_sound(b, p1);
        lemma_subrange_concat(b, pos, p1, p2);
    } else {
        let (r, p2) = parse_reply(b, p1)->Ok_0;
        lemma_parse_reply_sound(b, p1);
        lemma_subrange_concat(b, pos, p1, p2);
    }
}

/// A message-type read at the position of an encoded valid, canonical
/// message type returns that message type, provided its payload ends
/// exactly at the buffer's end.
pub proof fn lemma_parse_mt_complete(b: Seq<u8>, pos: int, m: SpecMessageType)
    requires
        0 <= pos,
        m.wf(),
        m.canonical(),
        pos + m.wire_len() <= b.len(),
        m.runs_to_end() ==> pos + m.wire_len() == b.len(),
        b.subrange(pos, pos + m.wire_len()) == enc_mt(m),
    ensures
        parse_mt(b, pos) == Ok::<(SpecMessageType, int), Error>((m, pos + m.wire_len())),
{
    match m {
        SpecMessageType::Call(c) => {
            lemma_enc_call_len(c);
            lemma_concat_split(b, pos, be_bytes(MESSAGE_TYPE_CALL), enc_call(c));
            lemma_parse_u32_complete(b, pos, MESSAGE_TYPE_CALL);
            lemma_parse_call_complete(b, pos + 4, c);
        },
        SpecMessageType::Reply(r) => {
            lemma_enc_reply_len(r);
            lemma_concat_split(b, pos, be_bytes(MESSAGE_TYPE_REPLY), enc_reply(r));
            lemma_parse_u32_complete(b, pos, MESSAGE_TYPE_REPLY);
            lemma_parse_reply_complete(b, pos + 4, r);
        },
    }
}

/// The mathematical value of an [`RpcMessage`].
#[verifier::ext_equal]
pub ghost struct SpecRpcMessage {
    pub xid: u32,
    pub message: SpecMessageType,
}

impl SpecRpcMessage {
    /// Validity of the message's contents.
    pub open spec fn wf(self) -> bool {
        self.message.wf()
    }

    /// Whether the message's contents are values the decoder can produce.
    pub open spec fn canonical(self) -> bool {
        self.message.canonical()
    }

    /// The on-wire length of the whole message, fragment header and
    /// transaction id included.
    pub open spec fn wire_len(self) -> int {
        8 + self.message.wire_len()
    }

    /// Whether the message can be framed at all: the length after the
    /// header must fit the 31 bits the fragment header provides.
    pub open spec fn representable(self) -> bool {
        self.wire_len() - 4 <= 0x7fff_ffff
    }

    /// Whether the executable encoder accepts the message: its whole wire
    /// form, header included, must leave the last-fragment bit clear.
    pub open spec fn fits(self) -> bool {
        self.wire_len() <= 0x7fff_ffff
    }
}

/// The wire form of a whole RPC message: the fragment header (the
/// last-fragment bit, and the length of everything after the header),
/// the transaction id, and the message body.
pub open spec fn enc_message(m: SpecRpcMessage) -> Seq<u8> {
    be_bytes((((m.wire_len() - 4) as u32) | LAST_FRAGMENT_BIT)) + be_bytes(m.xid) + enc_mt(
        m.message,
    )
}

/// Reads the fragment header: the expected wire length of the whole
/// message, header bytes included.
///
/// A buffer under four bytes is an [`Error::IncompleteHeader`]; a header
/// with the last-fragment bit clear is [`Error::Fragmented`].
pub open spec fn spec_expected_len(b: Seq<u8>) -> Result<u32, Error> {
    if b.len() < 4 {
        Err(Error::IncompleteHeader)
    } else {
        let header = be_val(b[0], b[1], b[2], b[3]);
        if header & LAST_FRAGMENT_BIT == 0 {
            Err(Error::Fragmented)
        } else {
            Ok((((header & 0x7fff_ffff) + 4) as u32))
        }
    }
}

/// Strips the fragment header, validating that the buffer holds exactly
/// the length the header declares.
pub open spec fn spec_unwrap_header(b: Seq<u8>) -> Result<Seq<u8>, Error> {
    match spec_expected_len(b) {
        Err(e) => Err(e),
        Ok(want) => if b.len() != want {
            Err(
                Error::IncompleteMessage {
                    buffer_len: b.len() as usize,
                    expected: want as usize,
                },
            )
        } else {
            Ok(b.subrange(4, b.len() as int))
        },
    }
}

/// Reads a whole RPC message: the fragment header with its two exact
/// length checks, the transaction id, and the message body.
///
/// The second length check, after the body is built, recomputes the
/// message's own wire length and compares it to the buffer again: a
/// nested length may be self-consistent but wrong relative to the outer
/// declaration.
pub open spec fn parse_message(b: Seq<u8>) -> Result<SpecRpcMessage, Error> {
    match spec_expected_len(b) {
        Err(e) => Err(e),
        Ok(want) => {
            if b.len() != want {
                Err(
                    Error::IncompleteMessage {
                        buffer_len: b.len() as usize,
                        expected: want as usize,
                    },
                )
            } else {
                match parse_u32(b, 4) {
                    Err(e) => Err(e),
                    Ok((xid, p)) => match parse_mt(b, p) {
                        Err(e) => Err(e),
                        Ok((message, p2)) => {
                            let m = SpecRpcMessage { xid, message };
                            if m.wire_len() == b.len() {
                                Ok(m)
                            } else {
                                Err(
                                    Error::IncompleteMessage {
                                        buffer_len: b.len() as usize,
                                        expected: m.wire_len() as usize,
                                    },
                                )
                            }
                        },
                    },
                }
            }
        },
    }
}

/// Byte fidelity: every buffer that decodes successfully decodes to a
/// valid, canonical message whose encoding is, byte for byte, the buffer
/// itself.
#[verifier::rlimit(100)]
pub proof fn lemma_byte_fidelity(b: Seq<u8>)
    requires
        parse_message(b) is Ok,
    ensures
        parse_message(b) matches Ok(m) ==> {
            &&& m.wf()
            &&& m.canonical()
            &&& m.representable()
            &&& enc_message(m) == b
        },
{
    let header = be_val(b[0], b[1], b[2], b[3]);
    let want = spec_expected_len(b)->Ok_0;
    let (xid, p) = parse_u32(b, 4)->Ok_0;
    lemma_parse_u32_sound(b, 4);
    let (message, p2) = parse_mt(b, 8)->Ok_0;
    lemma_parse_mt_sound(b, 8);
    let m = SpecRpcMessage { xid, message };
    assert(m.wire_len() == b.len());
    assert(p2 == b.len());
    let x = (m.wire_len() - 4) as u32;
    assert(header & 0x7fff_ffffu32 <= 0x7fff_ffffu32) by (bit_vector);
    assert(b.len() == (header & 0x7fff_ffff) + 4);
    assert(header & 0x7fff_ffff == x);
    assert(header & 0x8000_0000u32 != 0 ==> ((header & 0x7fff_ffffu32) | 0x8000_0000u32)
        == header) by (bit_vector);
    assert((x | LAST_FRAGMENT_BIT) == header);
    lemma_be_bytes_of_be_val(b[0], b[1], b[2], b[3]);
    assert(be_bytes(header) =~= b.subrange(0, 4));
    lemma_subrange_concat(b, 0, 4, 8);
    lemma_subrange_concat(b, 0, 8, b.len() as int);
    assert(b.subrange(0, b.len() as int) =~= b);
    assert(enc_message(m) == b);
}

/// The fragment header of an encoded representable message reads back
/// as the message's own length.
proof fn lemma_enc_message_header(m: SpecRpcMessage)
    requires
        m.wf(),
        m.representable(),
    ensures
        enc_message(m).len() == m.wire_len(),
        spec_expected_len(enc_message(m)) matches Ok(w) && w == m.wire_len(),
        parse_u32(enc_message(m), 4) == Ok::<(u32, int), Error>((m.xid, 8)),
        enc_message(m).subrange(8, enc_message(m).len() as int) == enc_mt(m.message),
{
    let b = enc_message(m);
    let x = (m.wire_len() - 4) as u32;
    let h = x | LAST_FRAGMENT_BIT;
    assert(enc_mt(m.message).len() == m.message.wire_len()) by {
        match m.message {
            SpecMessageType::Call(c) => lemma_enc_call_len(c),
            SpecMessageType::Reply(r) => lemma_enc_reply_len(r),
        }
    }
    assert(b.len() == m.wire_len());
    assert(b =~= be_bytes(h) + (be_bytes(m.xid) + enc_mt(m.message)));
    assert(b.subrange(0, b.len() as int) =~= b);
    lemma_concat_split(b, 0, be_bytes(h), be_bytes(m.xid) + enc_mt(m.message));
    lemma_concat_split(b, 4, be_bytes(m.xid), enc_mt(m.message));
    lemma_parse_u32_complete(b, 4, m.xid);
    assert(be_val(b[0], b[1], b[2], b[3]) == h) by {
        assert(b.subrange(0, 4) == be_bytes(h));
        assert(b[0] == be_bytes(h)[0] && b[1] == be_bytes(h)[1] && b[2] == be_bytes(h)[2] && b[3]
            == be_bytes(h)[3]) by {
            assert(b[0] == b.subrange(0, 4)[0]);
            assert(b[1] == b.subrange(0, 4)[1]);
            assert(b[2] == b.subrange(0, 4)[2]);
            assert(b[3] == b.subrange(0, 4)[3]);
        }
        crate::xdr::lemma_be_val_of_be_bytes(h);
    }
    assert(((x | 0x8000_0000u32) & 0x8000_0000u32) != 0) by (bit_vector);
    assert(x <= 0x7fff_ffff ==> ((x | 0x8000_0000u32) & 0x7fff_ffffu32) == x) by (bit_vector);
    assert(x == m.wire_len() - 4);
    assert(spec_expected_len(b) == Ok::<u32, Error>((((x + 4) as u32)) as u32));
}

/// Round trip: the wire form of any valid, canonical message whose
/// length the fragment header can carry decodes to the message itself.
pub proof fn lemma_round_trip(m: SpecRpcMessage)
    requires
        m.wf(),
        m.canonical(),
        m.representable(),
    ensures
        parse_message(enc_message(m)) == Ok::<SpecRpcMessage, Error>(m),
{
    let b = enc_message(m);
    lemma_enc_message_header(m);
    assert(enc_mt(m.message).len() == m.message.wire_len()) by {
        match m.message {
            SpecMessageType::Call(c) => lemma_enc_call_len(c),
            SpecMessageType::Reply(r) => lemma_enc_reply_len(r),
        }
    }
    lemma_parse_mt_complete(b, 8, m.message);
    assert(parse_mt(b, 8) == Ok::<(SpecMessageType, int), Error>((m.message, b.len() as int)));
    let got = parse_message(b)->Ok_0;
    assert(got =~= m);
}

/// Fragment enforcement: a header with the last-fragment bit clear fails
/// with [`Error::Fragmented`], whatever else the buffer holds.
pub proof fn lemma_fragmented_rejected(b: Seq<u8>)
    requires
        b.len() >= 4,
        be_val(b[0], b[1], b[2], b[3]) & LAST_FRAGMENT_BIT == 0,
    ensures
        parse_message(b) == Err::<SpecRpcMessage, Error>(Error::Fragmented),
{
}

/// The type of RPC message.
#[derive(Debug, Clone, PartialEq)]
pub enum MessageType {
    /// This message is invoking an RPC.
    Call(CallBody),
    /// This message is a response to an RPC request.
    Reply(ReplyBody),
}

impl View for MessageType {
    type V = SpecMessageType;

    open spec fn view(&self) -> SpecMessageType {
        match self {
            MessageType::Call(c) => SpecMessageType::Call(c@),
            MessageType::Reply(r) => SpecMessageType::Reply(r@),
        }
    }
}

impl MessageType {
    /// Constructs a new `MessageType` by parsing the wire format read
    /// from `buf` at `pos`.
    pub fn from_wire(buf: &[u8], pos: usize) -> (r: Result<(MessageType, usize), Error>)
        requires
            pos <= buf@.len(),
        ensures
            r is Ok <==> parse_mt(buf@, pos as int) is Ok,
            r matches Ok((m, p)) ==> parse_mt(buf@, pos as int) == Ok::<
                (SpecMessageType, int),
                Error,
            >((m@, p as int)) && pos <= p <= buf@.len(),
            r matches Err(e) ==> parse_mt(buf@, pos as int) == Err::<(SpecMessageType, int), Error>(
                e,
            ),
    {
        let (disc, p) = match read_u32_at(buf, pos) {
            Ok(t) => t,
            Err(e) => {
                return Err(e);
            },
        };
        if disc == MESSAGE_TYPE_CALL {
            let (c, p2) = match CallBody::from_wire(buf, p) {
                Ok(t) => t,
                Err(e) => {
                    return Err(e);
                },
            };
            Ok((MessageType::Call(c), p2))
        } else if disc == MESSAGE_TYPE_REPLY {
            let (r, p2) = match ReplyBody::from_wire(buf, p) {
                Ok(t) => t,
                Err(e) => {
                    return Err(e);
                },
            };
            Ok((MessageType::Reply(r), p2))
        } else {
            Err(Error::InvalidMessageType(disc))
        }
    }

    /// Serialises this `MessageType` into `buf`, appending
    /// [`MessageType::serialised_len()`] bytes.
    pub fn serialise_into(&self, buf: &mut Vec<u8>)
        requires
            self@.wf(),
        ensures
            final(buf)@ == old(buf)@ + enc_mt(self@),
    {
        match self {
            MessageType::Call(b) => {
                push_u32_be(buf, MESSAGE_TYPE_CALL);
                b.serialise_into(buf);
            },
            MessageType::Reply(b) => {
                push_u32_be(buf, MESSAGE_TYPE_REPLY);
                b.serialise_into(buf);
            },
        }
    }

    /// Returns the on-wire length of this message type once serialised,
    /// including the discriminator.
    pub fn serialised_len(&self) -> (r: u32)
        requires
            self@.wf(),
            self@.wire_len() <= u32::MAX,
        ensures
            r == self@.wire_len(),
    {
        4 + match self {
            MessageType::Call(c) => c.serialised_len(),
            MessageType::Reply(r) => r.serialised_len(),
        }
    }
}

/// An Open Network Computing RPC message.
#[derive(Debug, Clone, PartialEq)]
pub struct RpcMessage {
    xid: u32,
    message_type: MessageType,
}

impl View for RpcMessage {
    type V = SpecRpcMessage;

    closed spec fn view(&self) -> SpecRpcMessage {
        SpecRpcMessage { xid: self.xid, message: self.message_type@ }
    }
}

impl RpcMessage {
    /// Deserialises a new [`RpcMessage`] from `buf`.
    ///
    /// `buf` must contain exactly one message: if it holds an incomplete
    /// message, or more than one message, [`Error::IncompleteMessage`] is
    /// returned.
    pub fn from_bytes(buf: &[u8]) -> (r: Result<RpcMessage, Error>)
        ensures
            r is Ok <==> parse_message(buf@) is Ok,
            r matches Ok(m) ==> parse_message(buf@) == Ok::<SpecRpcMessage, Error>(m@) && m@.wf()
                && m@.canonical(),
            r matches Err(e) ==> parse_message(buf@) == Err::<SpecRpcMessage, Error>(e),
    {
        let want = match expected_message_len(buf) {
            Ok(w) => w,
            Err(e) => {
                return Err(e);
            },
        };
        if buf.len() != want as usize {
            return Err(
                Error::IncompleteMessage { buffer_len: buf.len(), expected: want as usize },
            );
        }
        let (xid, p) = match read_u32_at(buf, 4) {
            Ok(t) => t,
            Err(e) => {
                return Err(e);
            },
        };
        let (message_type, p2) = match MessageType::from_wire(buf, p) {
            Ok(t) => t,
            Err(e) => {
                return Err(e);
            },
        };
        let msg = RpcMessage { xid, message_type };
        proof {
            lemma_parse_mt_sound(buf@, 8);
        }
        let got_len = msg.serialised_len();
        if got_len as usize != buf.len() {
            return Err(
                Error::IncompleteMessage { buffer_len: buf.len(), expected: got_len as usize },
            );
        }
        Ok(msg)
    }

    /// Construct a new `RpcMessage` with the specified transaction ID and
    /// message body.
    pub fn new(xid: u32, message_type: MessageType) -> (r: RpcMessage)
        ensures
            r@ == (SpecRpcMessage { xid, message: message_type@ }),
    {
        RpcMessage { xid, message_type }
    }

    /// Whether the serialised form of this message leaves the fragment
    /// header's last-fragment bit clear for the length.
    fn length_fits(&self) -> (r: bool)
        requires
            self@.wf(),
        ensures
            r == self@.fits(),
    {
        let mt_len: u64 = match &self.message_type {
            MessageType::Call(c) => {
                if c.payload().len() > 0x7fff_ffff {
                    return false;
                }
                let cred = c.auth_credentials().serialised_len() as u64;
                let verf = c.auth_verifier().serialised_len() as u64;
                20 + cred + verf + (c.payload().len() as u64)
            },
            MessageType::Reply(r) => match r {
                ReplyBody::Accepted(a) => {
                    let status_len: u64 = match a.status() {
                        AcceptedStatus::Success(d) => {
                            if d.len() > 0x7fff_ffff {
                                return false;
                            }
                            4 + (d.len() as u64)
                        },
                        AcceptedStatus::ProgramMismatch { low, high } => 12,
                        _ => 4,
                    };
                    8 + (a.auth_verifier().serialised_len() as u64) + status_len
                },
                ReplyBody::Denied(d) => 8 + d.serialised_len() as u64,
            },
        };
        8 + mt_len <= 0x7fff_ffff
    }

    /// Write this `RpcMessage` into `buf`, appending
    /// [`RpcMessage::serialised_len()`] bytes.
    ///
    /// The header is a 31 bit length and a "this is the last fragment"
    /// flag, so a message whose serialised form would set the high bit
    /// cannot be represented: it is refused with [`Error::IOError`], and
    /// `buf` is left untouched.
    ///
    /// This method allows the caller to specify the underlying buffer
    /// used to hold the serialised message to enable reuse and pooling.
    pub fn serialise_into(&self, buf: &mut Vec<u8>) -> (r: Result<(), Error>)
        requires
            self@.wf(),
        ensures
            r is Ok <==> self@.fits(),
            r is Ok ==> final(buf)@ == old(buf)@ + enc_message(self@),
            r matches Err(e) ==> e == Error::IOError && final(buf)@ == old(buf)@,
    {
        if !self.length_fits() {
            return Err(Error::IOError);
        }
        let total = self.serialised_len();
        let header = (total - 4) | LAST_FRAGMENT_BIT;
        push_u32_be(buf, header);
        push_u32_be(buf, self.xid);
        self.message_type.serialise_into(buf);
        Ok(())
    }

    /// Serialise this `RpcMessage` into a new [`Vec`], sized exactly to
    /// contain this message.
    ///
    /// [`Vec`]: std::vec::Vec
    pub fn serialise(&self) -> (r: Result<Vec<u8>, Error>)
        requires
            self@.wf(),
        ensures
            r is Ok <==> self@.fits(),
            r matches Ok(v) ==> v@ == enc_message(self@),
            r matches Err(e) ==> e == Error::IOError,
    {
        let mut buf: Vec<u8> = Vec::new();
        match self.serialise_into(&mut buf) {
            Ok(_) => {
                assert(buf@ =~= enc_message(self@));
                Ok(buf)
            },
            Err(e) => Err(e),
        }
    }

    /// Returns the on-wire length of this message once serialised,
    /// including the message header.
    pub fn serialised_len(&self) -> (r: u32)
        requires
            self@.wf(),
            self@.wire_len() <= u32::MAX,
        ensures
            r == self@.wire_len(),
    {
        self.message_type.serialised_len() + 4 + 4
    }

    /// The transaction ID for this request.
    pub fn xid(&self) -> (r: u32)
        ensures
            r == self@.xid,
    {
        self.xid
    }

    /// The [`MessageType`] contained in this request.
    pub fn message(&self) -> (r: &MessageType)
        ensures
            r@ == self@.message,
    {
        &self.message_type
    }

    /// Returns the [`CallBody`] in this request, or `None` if this
    /// message is not a RPC call request.
    pub fn call_body(&self) -> (r: Option<&CallBody>)
        ensures
            match r {
                Some(c) => self@.message == SpecMessageType::Call(c@),
                None => !(self@.message is Call),
            },
    {
        match &self.message_type {
            MessageType::Call(b) => Some(b),
            _ => None,
        }
    }

    /// Returns the [`ReplyBody`] in this request, or `None` if this
    /// message is not a RPC response.
    pub fn reply_body(&self) -> (r: Option<&ReplyBody>)
        ensures
            match r {
                Some(b) => self@.message == SpecMessageType::Reply(b@),
                None => !(self@.message is Reply),
            },
    {
        match &self.message_type {
            MessageType::Reply(b) => Some(b),
            _ => None,
        }
    }
}

/// Reads the message header from `data`, and returns the expected wire
/// length of the RPC message, header bytes included.
///
/// `data` must contain at least 4 bytes, and must be the start of an RPC
/// message for this call to return valid data. If the message does not
/// have the last-fragment bit set, [`Error::Fragmented`] is returned.
pub fn expected_message_len(data: &[u8]) -> (r: Result<u32, Error>)
    ensures
        r == spec_expected_len(data@),
{
    if data.len() < 4 {
        return Err(Error::IncompleteHeader);
    }
    let (header, _p) = match read_u32_at(data, 0) {
        Ok(t) => t,
        Err(e) => {
            return Err(e);
        },
    };
    if header & LAST_FRAGMENT_BIT == 0 {
        return Err(Error::Fragmented);
    }
    assert(header & 0x7fff_ffff <= 0x7fff_ffff) by (bit_vector);
    Ok((header & 0x7fff_ffff) + 4)
}

/// Strip the 4 byte header from `data`, returning the rest of the
/// message.
///
/// This function validates that the message length value in the header
/// matches the length of `data`, and ensures this is not a fragmented
/// message.
pub fn unwrap_header(data: &[u8]) -> (r: Result<&[u8], Error>)
    ensures
        r is Ok <==> spec_unwrap_header(data@) is Ok,
        r matches Ok(rest) ==> spec_unwrap_header(data@) == Ok::<Seq<u8>, Error>(rest@),
        r matches Err(e) ==> spec_unwrap_header(data@) == Err::<Seq<u8>, Error>(e),
{
    let want = match expected_message_len(data) {
        Ok(w) => w,
        Err(e) => {
            return Err(e);
        },
    };
    if data.len() != want as usize {
        return Err(Error::IncompleteMessage { buffer_len: data.len(), expected: want as usize });
    }
    Ok(vstd::slice::slice_subrange(data, 4, data.len()))
}

} // verus!
