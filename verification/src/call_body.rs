//! The RPC invocation request body of RFC 5531 section 9: the fixed
//! `rpcvers = 2` field, program, version and procedure numbers, the two
//! auth flavors, and the opaque payload that runs to the end of the
//! enclosing message.

use vstd::prelude::*;

use crate::auth::{
    enc_flavor, lemma_enc_flavor_len, lemma_parse_flavor_complete, lemma_parse_flavor_sound,
    parse_flavor, AuthFlavor, SpecAuthFlavor,
};
use crate::errors::Error;
use crate::xdr::{
    be_bytes, lemma_concat_split, lemma_parse_u32_complete, lemma_parse_u32_sound,
    lemma_subrange_concat, parse_u32, push_bytes, push_u32_be, read_u32_at,
};

verus! {

/// The one RPC protocol version this crate supports.
pub const RPC_VERSION: u32 = 2;

/// The mathematical value of a [`CallBody`].
#[verifier::ext_equal]
pub ghost struct SpecCallBody {
    pub program: u32,
    pub program_version: u32,
    pub procedure: u32,
    pub auth_credentials: SpecAuthFlavor,
    pub auth_verifier: SpecAuthFlavor,
    pub payload: Seq<u8>,
}

impl SpecCallBody {
    /// Validity: both auth flavors are valid.
    pub open spec fn wf(self) -> bool {
        self.auth_credentials.wf() && self.auth_verifier.wf()
    }

    /// Whether both auth flavors are values the decoder can produce.
    pub open spec fn canonical(self) -> bool {
        self.auth_credentials.canonical() && self.auth_verifier.canonical()
    }

    /// The on-wire length: four `u32` fields, two auth flavors, and the
    /// payload bytes.
    pub open spec fn wire_len(self) -> int {
        16 + self.auth_credentials.wire_len() + self.auth_verifier.wire_len() + self.payload.len()
    }
}

/// The wire form of a call body. The payload is written verbatim: its
/// length is implied by the enclosing message, not prefixed.
pub open spec fn enc_call(c: SpecCallBody) -> Seq<u8> {
    be_bytes(RPC_VERSION) + be_bytes(c.program) + be_bytes(c.program_version) + be_bytes(
        c.procedure,
    ) + enc_flavor(c.auth_credentials) + enc_flavor(c.auth_verifier) + c.payload
}

/// A call body encodes to exactly its wire length.
pub proof fn lemma_enc_call_len(c: SpecCallBody)
    ensures
        enc_call(c).len() == c.wire_len(),
{
    lemma_enc_flavor_len(c.auth_credentials);
    lemma_enc_flavor_len(c.auth_verifier);
}

/// Reads a call body at `pos`. A version field other than 2 is an
/// [`Error::InvalidRpcVersion`]. The payload is every byte from the end
/// of the auth verifier to the end of the buffer, so a successful parse
/// always ends at the buffer's end; this is safe only because the
/// enclosing envelope has already validated an exact total length.
pub open spec fn parse_call(b: Seq<u8>, pos: int) -> Result<(SpecCallBody, int), Error> {
    match parse_u32(b, pos) {
        Err(e) => Err(e),
        Ok((vers, p1)) => if vers != RPC_VERSION {
            Err(Error::InvalidRpcVersion(vers))
        } else {
            match parse_u32(b, p1) {
                Err(e) => Err(e),
                Ok((program, p2)) => match parse_u32(b, p2) {
                    Err(e) => Err(e),
                    Ok((program_version, p3)) => match parse_u32(b, p3) {
                        Err(e) => Err(e),
                        Ok((procedure, p4)) => match parse_flavor(b, p4) {
                            Err(e) => Err(e),
                            Ok((auth_credentials, p5)) => match parse_flavor(b, p5) {
                                Err(e) => Err(e),
                                Ok((auth_verifier, p6)) => Ok(
                                    (
                                        SpecCallBody {
                                            program,
                                            program_version,
                                            procedure,
                                            auth_credentials,
                                            auth_verifier,
                                            payload: b.subrange(p6, b.len() as int),
                                        },
                                        b.len() as int,
                                    ),
                                ),
                            },
                        },
                    },
                },
            }
        },
    }
}

/// A successfully parsed call body is valid and canonical, consumes the
/// rest of the buffer, and its encoding is exactly the bytes consumed.
pub proof fn lemma_parse_call_sound(b: Seq<u8>, pos: int)
    requires
        0 <= pos <= b.len(),
        parse_call(b, pos) is Ok,
    ensures
        parse_call(b, pos) matches Ok((c, p)) ==> {
            &&& c.wf()
            &&& c.canonical()
            &&& p == b.len()
            &&& c.wire_len() == p - pos
            &&& enc_call(c) == b.subrange(pos, p)
        },
{
    let (vers, p1) = parse_u32(b, pos)->Ok_0;
    lemma_parse_u32_sound(b, pos);
    let (program, p2) = parse_u32(b, p1)->Ok_0;
    lemma_parse_u32_sound(b, p1);
    let (program_version, p3) = parse_u32(b, p2)->Ok_0;
    lemma_parse_u32_sound(b, p2);
    let (procedure, p4) = parse_u32(b, p3)->Ok_0;
    lemma_parse_u32_sound(b, p3);
    let (cred, p5) = parse_flavor(b, p4)->Ok_0;
    lemma_parse_flavor_sound(b, p4);
    let (verf, p6) = parse_flavor(b, p5)->Ok_0;
    lemma_parse_flavor_sound(b, p5);
    lemma_subrange_concat(b, pos, p1, p2);
    lemma_subrange_concat(b, pos, p2, p3);
    lemma_subrange_concat(b, pos, p3, p4);
    lemma_subrange_concat(b, pos, p4, p5);
    lemma_subrange_concat(b, pos, p5, p6);
    lemma_subrange_concat(b, pos, p6, b.len() as int);
    let c = parse_call(b, pos)->Ok_0.0;
    assert(enc_call(c) == b.subrange(pos, b.len() as int));
}

/// A call-body read at the position of an encoded valid, canonical call
/// body that ends exactly at the buffer's end returns that call body.
#[verifier::rlimit(60)]
pub proof fn lemma_parse_call_complete(b: Seq<u8>, pos: int, c: SpecCallBody)
    requires
        0 <= pos,
        c.wf(),
        c.canonical(),
        pos + c.wire_len() == b.len(),
        b.subrange(pos, pos + c.wire_len()) == enc_call(c),
    ensures
        parse_call(b, pos) == Ok::<(SpecCallBody, int), Error>((c, b.len() as int)),
{
    lemma_enc_flavor_len(c.auth_credentials);
    lemma_enc_flavor_len(c.auth_verifier);
    let a1 = be_bytes(RPC_VERSION);
    let a2 = be_bytes(c.program);
    let a3 = be_bytes(c.program_version);
    let a4 = be_bytes(c.procedure);
    let a5 = enc_flavor(c.auth_credentials);
    let a6 = enc_flavor(c.auth_verifier);
    let a7 = c.payload;
    assert(enc_call(c) =~= a1 + (a2 + (a3 + (a4 + (a5 + (a6 + a7))))));
    lemma_concat_split(b, pos, a1, a2 + (a3 + (a4 + (a5 + (a6 + a7)))));
    let q1 = pos + 4;
    lemma_concat_split(b, q1, a2, a3 + (a4 + (a5 + (a6 + a7))));
    let q2 = q1 + 4;
    lemma_concat_split(b, q2, a3, a4 + (a5 + (a6 + a7)));
    let q3 = q2 + 4;
    lemma_concat_split(b, q3, a4, a5 + (a6 + a7));
    let q4 = q3 + 4;
    lemma_concat_split(b, q4, a5, a6 + a7);
    let q5 = q4 + a5.len();
    lemma_concat_split(b, q5, a6, a7);
    let q6 = q5 + a6.len();
    lemma_parse_u32_complete(b, pos, RPC_VERSION);
    lemma_parse_u32_complete(b, q1, c.program);
    lemma_parse_u32_complete(b, q2, c.program_version);
    lemma_parse_u32_complete(b, q3, c.procedure);
    lemma_parse_flavor_complete(b, q4, c.auth_credentials);
    lemma_parse_flavor_complete(b, q5, c.auth_verifier);
    assert(b.subrange(q6, b.len() as int) == c.payload);
    let got = parse_call(b, pos)->Ok_0.0;
    assert(got =~= c);
}

/// A request invoking an RPC.
///
/// This structure is the Rust equivalent of the `call_body` structure
/// defined in RFC 5531 section 9. The `rpcvers` field (representing the
/// RPC protocol version) is hard coded to `2`.
#[derive(Debug, Clone, PartialEq)]
pub struct CallBody {
    program: u32,
    program_version: u32,
    procedure: u32,
    auth_credentials: AuthFlavor,
    auth_verifier: AuthFlavor,
    payload: Vec<u8>,
}

impl View for CallBody {
    type V = SpecCallBody;

    closed spec fn view(&self) -> SpecCallBody {
        SpecCallBody {
            program: self.program,
            program_version: self.program_version,
            procedure: self.procedure,
            auth_credentials: self.auth_credentials@,
            auth_verifier: self.auth_verifier@,
            payload: self.payload@,
        }
    }
}

impl CallBody {
    /// Construct a new RPC invocation request.
    pub fn new(
        program: u32,
        program_version: u32,
        procedure: u32,
        auth_credentials: AuthFlavor,
        auth_verifier: AuthFlavor,
        payload: Vec<u8>,
    ) -> (r: CallBody)
        ensures
            r@ == (SpecCallBody {
                program,
                program_version,
                procedure,
                auth_credentials: auth_credentials@,
                auth_verifier: auth_verifier@,
                payload: payload@,
            }),
    {
        CallBody { program, program_version, procedure, auth_credentials, auth_verifier, payload }
    }

    /// Constructs a new `CallBody` by parsing the wire format read from
    /// `buf` at `pos`; the payload is every byte from the end of the auth
    /// verifier to the end of `buf`.
    pub fn from_wire(buf: &[u8], pos: usize) -> (r: Result<(CallBody, usize), Error>)
        requires
            pos <= buf@.len(),
        ensures
            r is Ok <==> parse_call(buf@, pos as int) is Ok,
            r matches Ok((c, p)) ==> parse_call(buf@, pos as int) == Ok::<
                (SpecCallBody, int),
                Error,
            >((c@, p as int)) && pos <= p <= buf@.len(),
            r matches Err(e) ==> parse_call(buf@, pos as int) == Err::<(SpecCallBody, int), Error>(
                e,
            ),
    {
        let (vers, p1) = match read_u32_at(buf, pos) {
            Ok(t) => t,
            Err(e) => {
                return Err(e);
            },
        };
        if vers != RPC_VERSION {
            return Err(Error::InvalidRpcVersion(vers));
        }
        let (program, p2) = match read_u32_at(buf, p1) {
            Ok(t) => t,
            Err(e) => {
                return Err(e);
            },
        };
        let (program_version, p3) = match read_u32_at(buf, p2) {
            Ok(t) => t,
            Err(e) => {
                return Err(e);
            },
        };
        let (procedure, p4) = match read_u32_at(buf, p3) {
            Ok(t) => t,
            Err(e) => {
                return Err(e);
            },
        };
        let (auth_credentials, p5) = match AuthFlavor::from_wire(buf, p4) {
            Ok(t) => t,
            Err(e) => {
                return Err(e);
            },
        };
        let (auth_verifier, p6) = match AuthFlavor::from_wire(buf, p5) {
            Ok(t) => t,
            Err(e) => {
                return Err(e);
            },
        };
        let payload = vstd::slice::slice_to_vec(
            vstd::slice::slice_subrange(buf, p6, buf.len()),
        );
        let body = CallBody {
            program,
            program_version,
            procedure,
            auth_credentials,
            auth_verifier,
            payload,
        };
        assert(body@ =~= parse_call(buf@, pos as int)->Ok_0.0);
        Ok((body, buf.len()))
    }

    /// Serialises this `CallBody` into `buf`, appending
    /// [`CallBody::serialised_len()`] bytes.
    pub fn serialise_into(&self, buf: &mut Vec<u8>)
        requires
            self@.wf(),
        ensures
            final(buf)@ == old(buf)@ + enc_call(self@),
    {
        push_u32_be(buf, RPC_VERSION);
        push_u32_be(buf, self.program);
        push_u32_be(buf, self.program_version);
        push_u32_be(buf, self.procedure);
        self.auth_credentials.serialise_into(buf);
        self.auth_verifier.serialise_into(buf);
        push_bytes(buf, self.payload.as_slice());
    }

    /// Returns the on-wire length of this call body once serialised.
    pub fn serialised_len(&self) -> (r: u32)
        requires
            self@.wf(),
            self@.wire_len() <= u32::MAX,
        ensures
            r == self@.wire_len(),
    {
        let mut l: u32 = 16;
        l = l + self.auth_credentials.serialised_len();
        l = l + self.auth_verifier.serialised_len();
        l = l + self.payload.len() as u32;
        l
    }

    /// Returns the RPC version of this request.
    ///
    /// This crate supports the ONC RPC version 2 only.
    pub fn rpc_version(&self) -> (r: u32)
        ensures
            r == RPC_VERSION,
    {
        RPC_VERSION
    }

    /// Returns the program identifier in this request.
    pub fn program(&self) -> (r: u32)
        ensures
            r == self@.program,
    {
        self.program
    }

    /// The version of the program to be invoked.
    pub fn program_version(&self) -> (r: u32)
        ensures
            r == self@.program_version,
    {
        self.program_version
    }

    /// The program procedure number identifying the RPC to invoke.
    pub fn procedure(&self) -> (r: u32)
        ensures
            r == self@.procedure,
    {
        self.procedure
    }

    /// The credentials to use for authenticating the request.
    pub fn auth_credentials(&self) -> (r: &AuthFlavor)
        ensures
            r@ == self@.auth_credentials,
    {
        &self.auth_credentials
    }

    /// The verifier that should be used to validate the authentication
    /// credentials.
    ///
    /// The RFC says the following about the verifier:
    /// ```text
    /// The purpose of the authentication verifier is to validate the
    /// authentication credential.  Note that these two items are
    /// historically separate, but are always used together as one logical
    /// entity.
    /// ```
    pub fn auth_verifier(&self) -> (r: &AuthFlavor)
        ensures
            r@ == self@.auth_verifier,
    {
        &self.auth_verifier
    }

    /// Returns a reference to the opaque message payload bytes.
    pub fn payload(&self) -> (r: &Vec<u8>)
        ensures
            r@ == self@.payload,
    {
        &self.payload
    }
}

} // verus!
