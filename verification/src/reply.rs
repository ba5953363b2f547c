//! The RPC response bodies of RFC 5531 section 9: the accepted and
//! rejected reply variants, their status codes, and the fixed enumeration
//! of authentication rejection reasons.

use vstd::prelude::*;

use crate::auth::{
    enc_flavor, lemma_enc_flavor_len, lemma_parse_flavor_complete, lemma_parse_flavor_sound,
    parse_flavor, AuthFlavor, SpecAuthFlavor,
};
use crate::errors::Error;
use crate::xdr::{
    be_bytes, lemma_concat_split, lemma_parse_u32_complete, lemma_parse_u32_sound,
    lemma_subrange_concat, parse_u32, push_bytes, push_u32_be, read_u32_at,
};

verus! {

/// The wire discriminator of an accepted reply.
pub const REPLY_ACCEPTED: u32 = 0;

/// The wire discriminator of a denied reply.
pub const REPLY_DENIED: u32 = 1;

/// The wire status of a successful accepted reply.
pub const REPLY_SUCCESS: u32 = 0;

/// The wire status of `PROG_UNAVAIL`.
pub const REPLY_PROG_UNAVAIL: u32 = 1;

/// The wire status of `PROG_MISMATCH`.
pub const REPLY_PROG_MISMATCH: u32 = 2;

/// The wire status of `PROC_UNAVAIL`.
pub const REPLY_PROC_UNAVAIL: u32 = 3;

/// The wire status of `GARBAGE_ARGS`.
pub const REPLY_GARBAGE_ARGS: u32 = 4;

/// The wire status of `SYSTEM_ERR`.
pub const REPLY_SYSTEM_ERR: u32 = 5;

/// The wire discriminator of a rejected reply caused by a version
/// mismatch.
pub const REJECTED_RPC_MISMATCH: u32 = 0;

/// The wire discriminator of a rejected reply caused by an auth error.
pub const REJECTED_AUTH_ERROR: u32 = 1;

/// `AuthError` describes the reason the request authentication
/// credentials were rejected.
#[derive(Debug, Clone, PartialEq)]
pub enum AuthError {
    /// This is `AUTH_OK` in the spec.
    Success,
    /// The credentials were rejected.
    ///
    /// This is `AUTH_BADCRED` in the spec.
    BadCredentials,
    /// The session has been invalidated.
    ///
    /// This typically occurs if using [`AUTH_SHORT`] and the opaque
    /// identifier has been revoked on the server side.
    ///
    /// This is `AUTH_REJECTEDCRED` in the spec.
    ///
    /// [`AUTH_SHORT`]: crate::auth::AuthFlavor::AuthShort
    RejectedCredentials,
    /// The verifier was not acceptable.
    ///
    /// This is `AUTH_BADVERF` in the spec.
    BadVerifier,
    /// The verifier was rejected/expired.
    ///
    /// This is `AUTH_REJECTEDVERF` in the spec.
    RejectedVerifier,
    /// The authentication scheme was rejected for security reasons.
    ///
    /// This is `AUTH_TOOWEAK` in the spec.
    TooWeak,
    /// The response verifier is invalid.
    ///
    /// This is `AUTH_INVALIDRESP` in the spec.
    InvalidResponseVerifier,
    /// An unknown failure occurred.
    ///
    /// This is `AUTH_FAILED` in the spec.
    Failed,
}

/// The wire code of an auth error.
pub open spec fn autherr_code(e: AuthError) -> u32 {
    match e {
        AuthError::Success => 0,
        AuthError::BadCredentials => 1,
        AuthError::RejectedCredentials => 2,
        AuthError::BadVerifier => 3,
        AuthError::RejectedVerifier => 4,
        AuthError::TooWeak => 5,
        AuthError::InvalidResponseVerifier => 6,
        AuthError::Failed => 7,
    }
}

/// The wire form of an auth error: its code alone.
pub open spec fn enc_autherr(e: AuthError) -> Seq<u8> {
    be_bytes(autherr_code(e))
}

/// Reads an auth error at `pos`: a code outside the RFC's eight is an
/// [`Error::InvalidAuthError`].
pub open spec fn parse_autherr(b: Seq<u8>, pos: int) -> Result<(AuthError, int), Error> {
    match parse_u32(b, pos) {
        Err(e) => Err(e),
        Ok((v, p)) => {
            if v == 0 {
                Ok((AuthError::Success, p))
            } else if v == 1 {
                Ok((AuthError::BadCredentials, p))
            } else if v == 2 {
                Ok((AuthError::RejectedCredentials, p))
            } else if v == 3 {
                Ok((AuthError::BadVerifier, p))
            } else if v == 4 {
                Ok((AuthError::RejectedVerifier, p))
            } else if v == 5 {
                Ok((AuthError::TooWeak, p))
            } else if v == 6 {
                Ok((AuthError::InvalidResponseVerifier, p))
            } else if v == 7 {
                Ok((AuthError::Failed, p))
            } else {
                Err(Error::InvalidAuthError(v))
            }
        },
    }
}

/// A successfully parsed auth error encodes to exactly the bytes read.
pub proof fn lemma_parse_autherr_sound(b: Seq<u8>, pos: int)
    requires
        parse_autherr(b, pos) is Ok,
    ensures
        parse_autherr(b, pos) matches Ok((e, p)) ==> {
            &&& p == pos + 4
            &&& 0 <= pos && p <= b.len()
            &&& enc_autherr(e) == b.subrange(pos, p)
        },
{
    lemma_parse_u32_sound(b, pos);
}

/// An auth-error read at the position of an encoded auth error returns
/// that auth error.
pub proof fn lemma_parse_autherr_complete(b: Seq<u8>, pos: int, e: AuthError)
    requires
        0 <= pos,
        pos + 4 <= b.len(),
        b.subrange(pos, pos + 4) == enc_autherr(e),
    ensures
        parse_autherr(b, pos) == Ok::<(AuthError, int), Error>((e, pos + 4)),
{
    lemma_parse_u32_complete(b, pos, autherr_code(e));
}

impl AuthError {
    /// Constructs a new `AuthError` by parsing the wire format read from
    /// `buf` at `pos`.
    pub fn from_wire(buf: &[u8], pos: usize) -> (r: Result<(AuthError, usize), Error>)
        requires
            pos <= buf@.len(),
        ensures
            r is Ok <==> parse_autherr(buf@, pos as int) is Ok,
            r matches Ok((e, p)) ==> parse_autherr(buf@, pos as int) == Ok::<
                (AuthError, int),
                Error,
            >((e, p as int)) && pos <= p <= buf@.len(),
            r matches Err(e) ==> parse_autherr(buf@, pos as int) == Err::<(AuthError, int), Error>(
                e,
            ),
    {
        let (v, p) = match read_u32_at(buf, pos) {
            Ok(t) => t,
            Err(e) => {
                return Err(e);
            },
        };
        if v == 0 {
            Ok((AuthError::Success, p))
        } else if v == 1 {
            Ok((AuthError::BadCredentials, p))
        } else if v == 2 {
            Ok((AuthError::RejectedCredentials, p))
        } else if v == 3 {
            Ok((AuthError::BadVerifier, p))
        } else if v == 4 {
            Ok((AuthError::RejectedVerifier, p))
        } else if v == 5 {
            Ok((AuthError::TooWeak, p))
        } else if v == 6 {
            Ok((AuthError::InvalidResponseVerifier, p))
        } else if v == 7 {
            Ok((AuthError::Failed, p))
        } else {
            Err(Error::InvalidAuthError(v))
        }
    }

    /// Serialises this `AuthError` into `buf`, appending
    /// [`AuthError::serialised_len()`] bytes.
    pub fn serialise_into(&self, buf: &mut Vec<u8>)
        ensures
            final(buf)@ == old(buf)@ + enc_autherr(*self),
    {
        let id: u32 = match self {
            AuthError::Success => 0,
            AuthError::BadCredentials => 1,
            AuthError::RejectedCredentials => 2,
            AuthError::BadVerifier => 3,
            AuthError::RejectedVerifier => 4,
            AuthError::TooWeak => 5,
            AuthError::InvalidResponseVerifier => 6,
            AuthError::Failed => 7,
        };
        push_u32_be(buf, id);
    }

    /// Returns the on-wire length of this auth error once serialised.
    pub fn serialised_len(&self) -> (r: u32)
        ensures
            r == 4,
    {
        4
    }
}

/// The response type for a rejected RPC invocation.
#[derive(Debug, Clone, PartialEq)]
pub enum RejectedReply {
    /// The RPC version was not serviceable.
    ///
    /// Only RPC version 2 is supported.
    RpcVersionMismatch {
        /// The lowest supported version.
        low: u32,
        /// The highest supported version.
        high: u32,
    },
    /// The authentication credentials included in the request (if any)
    /// were rejected.
    AuthError(AuthError),
}

impl RejectedReply {
    /// The on-wire length of this rejected reply.
    pub open spec fn wire_len(self) -> int {
        match self {
            RejectedReply::RpcVersionMismatch { low, high } => 12,
            RejectedReply::AuthError(e) => 8,
        }
    }
}

/// The wire form of a rejected reply: its discriminator, then the variant
/// body.
pub open spec fn enc_rejected(r: RejectedReply) -> Seq<u8> {
    match r {
        RejectedReply::RpcVersionMismatch { low, high } => be_bytes(REJECTED_RPC_MISMATCH)
            + be_bytes(low) + be_bytes(high),
        RejectedReply::AuthError(e) => be_bytes(REJECTED_AUTH_ERROR) + enc_autherr(e),
    }
}

/// Reads a rejected reply at `pos`: a discriminator outside the RFC's two
/// is an [`Error::InvalidRejectedReplyType`].
pub open spec fn parse_rejected(b: Seq<u8>, pos: int) -> Result<(RejectedReply, int), Error> {
    match parse_u32(b, pos) {
        Err(e) => Err(e),
        Ok((disc, p)) => {
            if disc == REJECTED_RPC_MISMATCH {
                match parse_u32(b, p) {
                    Err(e) => Err(e),
                    Ok((low, p2)) => match parse_u32(b, p2) {
                        Err(e) => Err(e),
                        Ok((high, p3)) => Ok((RejectedReply::RpcVersionMismatch { low, high }, p3)),
                    },
                }
            } else if disc == REJECTED_AUTH_ERROR {
                match parse_autherr(b, p) {
                    Err(e) => Err(e),
                    Ok((e, p2)) => Ok((RejectedReply::AuthError(e), p2)),
                }
            } else {
                Err(Error::InvalidRejectedReplyType(disc))
            }
        },
    }
}

/// A successfully parsed rejected reply encodes to exactly the bytes
/// read.
pub proof fn lemma_parse_rejected_sound(b: Seq<u8>, pos: int)
    requires
        0 <= pos <= b.len(),
        parse_rejected(b, pos) is Ok,
    ensures
        parse_rejected(b, pos) matches Ok((r, p)) ==> {
            &&& pos < p <= b.len()
            &&& r.wire_len() == p - pos
            &&& enc_rejected(r) == b.subrange(pos, p)
        },
{
    let (disc, p1) = parse_u32(b, pos)->Ok_0;
    lemma_parse_u32_sound(b, pos);
    if disc == REJECTED_RPC_MISMATCH {
        let (low, p2) = parse_u32(b, p1)->Ok_0;
        lemma_parse_u32_sound(b, p1);
        let (high, p3) = parse_u32(b, p2)->Ok_0;
        lemma_parse_u32_sound(b, p2);
        lemma_subrange_concat(b, pos, p1, p2);
        lemma_subrange_concat(b, pos, p2, p3);
    } else {
        let (e, p2) = parse_autherr(b, p1)->Ok_0;
        lemma_parse_autherr_sound(b, p1);
        lemma_subrange_concat(b, pos, p1, p2);
    }
}

/// A rejected-reply read at the position of an encoded rejected reply
/// returns that rejected reply.
pub proof fn lemma_parse_rejected_complete(b: Seq<u8>, pos: int, r: RejectedReply)
    requires
        0 <= pos,
        pos + r.wire_len() <= b.len(),
        b.subrange(pos, pos + r.wire_len()) == enc_rejected(r),
    ensures
        parse_rejected(b, pos) == Ok::<(RejectedReply, int), Error>((r, pos + r.wire_len())),
{
    match r {
        RejectedReply::RpcVersionMismatch { low, high } => {
            assert(enc_rejected(r) =~= be_bytes(REJECTED_RPC_MISMATCH) + (be_bytes(low)
                + be_bytes(high)));
            lemma_concat_split(b, pos, be_bytes(REJECTED_RPC_MISMATCH), be_bytes(low) + be_bytes(
                high,
            ));
            lemma_concat_split(b, pos + 4, be_bytes(low), be_bytes(high));
            lemma_parse_u32_complete(b, pos, REJECTED_RPC_MISMATCH);
            lemma_parse_u32_complete(b, pos + 4, low);
            lemma_parse_u32_complete(b, pos + 8, high);
        },
        RejectedReply::AuthError(e) => {
            lemma_concat_split(b, pos, be_bytes(REJECTED_AUTH_ERROR), enc_autherr(e));
            lemma_parse_u32_complete(b, pos, REJECTED_AUTH_ERROR);
            lemma_parse_autherr_complete(b, pos + 4, e);
        },
    }
}

impl RejectedReply {
    /// Constructs a new `RejectedReply` by parsing the wire format read
    /// from `buf` at `pos`.
    pub fn from_wire(buf: &[u8], pos: usize) -> (r: Result<(RejectedReply, usize), Error>)
        requires
            pos <= buf@.len(),
        ensures
            r is Ok <==> parse_rejected(buf@, pos as int) is Ok,
            r matches Ok((v, p)) ==> parse_rejected(buf@, pos as int) == Ok::<
                (RejectedReply, int),
                Error,
            >((v, p as int)) && pos <= p <= buf@.len(),
            r matches Err(e) ==> parse_rejected(buf@, pos as int) == Err::<
                (RejectedReply, int),
                Error,
            >(e),
    {
        let (disc, p) = match read_u32_at(buf, pos) {
            Ok(t) => t,
            Err(e) => {
                return Err(e);
            },
        };
        if disc == REJECTED_RPC_MISMATCH {
            let (low, p2) = match read_u32_at(buf, p) {
                Ok(t) => t,
                Err(e) => {
                    return Err(e);
                },
            };
            let (high, p3) = match read_u32_at(buf, p2) {
                Ok(t) => t,
                Err(e) => {
                    return Err(e);
                },
            };
            Ok((RejectedReply::RpcVersionMismatch { low, high }, p3))
        } else if disc == REJECTED_AUTH_ERROR {
            let (e, p2) = match AuthError::from_wire(buf, p) {
                Ok(t) => t,
                Err(e) => {
                    return Err(e);
                },
            };
            Ok((RejectedReply::AuthError(e), p2))
        } else {
            Err(Error::InvalidRejectedReplyType(disc))
        }
    }

    /// Serialises this `RejectedReply` into `buf`, appending
    /// [`RejectedReply::serialised_len()`] bytes.
    pub fn serialise_into(&self, buf: &mut Vec<u8>)
        ensures
            final(buf)@ == old(buf)@ + enc_rejected(*self),
    {
        match self {
            RejectedReply::RpcVersionMismatch { low, high } => {
                push_u32_be(buf, REJECTED_RPC_MISMATCH);
                push_u32_be(buf, *low);
                push_u32_be(buf, *high);
            },
            RejectedReply::AuthError(err) => {
                push_u32_be(buf, REJECTED_AUTH_ERROR);
                err.serialise_into(buf);
            },
        }
    }

    /// Returns the on-wire length of this reply body once serialised.
    pub fn serialised_len(&self) -> (r: u32)
        ensures
            r == self.wire_len(),
    {
        match self {
            RejectedReply::RpcVersionMismatch { low, high } => 12,
            RejectedReply::AuthError(e) => 8,
        }
    }
}

/// The mathematical value of an [`AcceptedStatus`].
#[verifier::ext_equal]
pub ghost enum SpecAcceptedStatus {
    /// The RPC was successful, with its response payload.
    Success(Seq<u8>),
    /// `PROG_UNAVAIL`.
    ProgramUnavailable,
    /// `PROG_MISMATCH`, with the supported version bounds.
    ProgramMismatch { low: u32, high: u32 },
    /// `PROC_UNAVAIL`.
    ProcedureUnavailable,
    /// `GARBAGE_ARGS`.
    GarbageArgs,
    /// `SYSTEM_ERR`.
    SystemError,
}

impl SpecAcceptedStatus {
    /// The on-wire length of this status.
    pub open spec fn wire_len(self) -> int {
        4 + match self {
            SpecAcceptedStatus::Success(d) => d.len() as int,
            SpecAcceptedStatus::ProgramMismatch { low, high } => 8,
            _ => 0,
        }
    }

    /// Whether the variant's payload runs to the end of the enclosing
    /// buffer.
    pub open spec fn runs_to_end(self) -> bool {
        self is Success
    }
}

/// The wire form of an accepted-reply status: its discriminator, then the
/// variant body; a success payload is written verbatim.
pub open spec fn enc_status(s: SpecAcceptedStatus) -> Seq<u8> {
    match s {
        SpecAcceptedStatus::Success(d) => be_bytes(REPLY_SUCCESS) + d,
        SpecAcceptedStatus::ProgramUnavailable => be_bytes(REPLY_PROG_UNAVAIL),
        SpecAcceptedStatus::ProgramMismatch { low, high } => be_bytes(REPLY_PROG_MISMATCH)
            + be_bytes(low) + be_bytes(high),
        SpecAcceptedStatus::ProcedureUnavailable => be_bytes(REPLY_PROC_UNAVAIL),
        SpecAcceptedStatus::GarbageArgs => be_bytes(REPLY_GARBAGE_ARGS),
        SpecAcceptedStatus::SystemError => be_bytes(REPLY_SYSTEM_ERR),
    }
}

/// Reads an accepted-reply status at `pos`: a discriminator outside the
/// RFC's six is an [`Error::InvalidReplyStatus`]. A success payload is
/// every remaining byte of the buffer.
pub open spec fn parse_status(b: Seq<u8>, pos: int) -> Result<(SpecAcceptedStatus, int), Error> {
    match parse_u32(b, pos) {
        Err(e) => Err(e),
        Ok((disc, p)) => {
            if disc == REPLY_SUCCESS {
                Ok((SpecAcceptedStatus::Success(b.subrange(p, b.len() as int)), b.len() as int))
            } else if disc == REPLY_PROG_UNAVAIL {
                Ok((SpecAcceptedStatus::ProgramUnavailable, p))
            } else if disc == REPLY_PROG_MISMATCH {
                match parse_u32(b, p) {
                    Err(e) => Err(e),
                    Ok((low, p2)) => match parse_u32(b, p2) {
                        Err(e) => Err(e),
                        Ok((high, p3)) => Ok((SpecAcceptedStatus::ProgramMismatch { low, high }, p3)),
                    },
                }
            } else if disc == REPLY_PROC_UNAVAIL {
                Ok((SpecAcceptedStatus::ProcedureUnavailable, p))
            } else if disc == REPLY_GARBAGE_ARGS {
                Ok((SpecAcceptedStatus::GarbageArgs, p))
            } else if disc == REPLY_SYSTEM_ERR {
                Ok((SpecAcceptedStatus::SystemError, p))
            } else {
                Err(Error::InvalidReplyStatus(disc))
            }
        },
    }
}

/// A successfully parsed status encodes to exactly the bytes read, and a
/// success payload consumed the rest of the buffer.
pub proof fn lemma_parse_status_sound(b: Seq<u8>, pos: int)
    requires
        0 <= pos <= b.len(),
        parse_status(b, pos) is Ok,
    ensures
        parse_status(b, pos) matches Ok((s, p)) ==> {
            &&& pos < p <= b.len()
            &&& s.wire_len() == p - pos
            &&& (s.runs_to_end() ==> p == b.len())
            &&& enc_status(s) == b.subrange(pos, p)
        },
{
    let (disc, p1) = parse_u32(b, pos)->Ok_0;
    lemma_parse_u32_sound(b, pos);
    if disc == REPLY_SUCCESS {
        lemma_subrange_concat(b, pos, p1, b.len() as int);
    } else if disc == REPLY_PROG_MISMATCH {
        let (low, p2) = parse_u32(b, p1)->Ok_0;
        lemma_parse_u32_sound(b, p1);
        let (high, p3) = parse_u32(b, p2)->Ok_0;
        lemma_parse_u32_sound(b, p2);
        lemma_subrange_concat(b, pos, p1, p2);
        lemma_subrange_concat(b, pos, p2, p3);
    }
}

/// A status read at the position of an encoded status returns that
/// status, provided a success payload ends exactly at the buffer's end.
pub proof fn lemma_parse_status_complete(b: Seq<u8>, pos: int, s: SpecAcceptedStatus)
    requires
        0 <= pos,
        pos + s.wire_len() <= b.len(),
        s.runs_to_end() ==> pos + s.wire_len() == b.len(),
        b.subrange(pos, pos + s.wire_len()) == enc_status(s),
    ensures
        parse_status(b, pos) == Ok::<(SpecAcceptedStatus, int), Error>((s, pos + s.wire_len())),
{
    match s {
        SpecAcceptedStatus::Success(d) => {
            lemma_concat_split(b, pos, be_bytes(REPLY_SUCCESS), d);
            lemma_parse_u32_complete(b, pos, REPLY_SUCCESS);
            assert(b.subrange(pos + 4, b.len() as int) == d);
        },
        SpecAcceptedStatus::ProgramMismatch { low, high } => {
            assert(enc_status(s) =~= be_bytes(REPLY_PROG_MISMATCH) + (be_bytes(low) + be_bytes(
                high,
            )));
            lemma_concat_split(b, pos, be_bytes(REPLY_PROG_MISMATCH), be_bytes(low) + be_bytes(
                high,
            ));
            lemma_concat_split(b, pos + 4, be_bytes(low), be_bytes(high));
            lemma_parse_u32_complete(b, pos, REPLY_PROG_MISMATCH);
            lemma_parse_u32_complete(b, pos + 4, low);
            lemma_parse_u32_complete(b, pos + 8, high);
        },
        SpecAcceptedStatus::ProgramUnavailable => {
            lemma_parse_u32_complete(b, pos, REPLY_PROG_UNAVAIL);
        },
        SpecAcceptedStatus::ProcedureUnavailable => {
            lemma_parse_u32_complete(b, pos, REPLY_PROC_UNAVAIL);
        },
        SpecAcceptedStatus::GarbageArgs => {
            lemma_parse_u32_complete(b, pos, REPLY_GARBAGE_ARGS);
        },
        SpecAcceptedStatus::SystemError => {
            lemma_parse_u32_complete(b, pos, REPLY_SYSTEM_ERR);
        },
    }
}

/// The response status code for a request that contains valid
/// credentials.
#[derive(Debug, Clone, PartialEq)]
pub enum AcceptedStatus {
    /// The RPC was successful, and the response payload is contained in
    /// the variant.
    Success(Vec<u8>),
    /// The specified program identifier has no handler in this server.
    ///
    /// This is `PROG_UNAVAIL` in the spec.
    ProgramUnavailable,
    /// The program to invoke was found, but it doesn't support the
    /// requested version.
    ///
    /// This is `PROG_MISMATCH` in the spec.
    ProgramMismatch {
        /// The lowest supported program version.
        low: u32,
        /// The highest supported program version.
        high: u32,
    },
    /// The program to invoke was found, but the procedure number is not
    /// recognised.
    ///
    /// This is `PROC_UNAVAIL` in the spec.
    ProcedureUnavailable,
    /// The arguments provided to the RPC endpoint were not serialised
    /// correctly, or otherwise unacceptable.
    ///
    /// This is `GARBAGE_ARGS` in the spec.
    GarbageArgs,
    /// The server experienced an internal error.
    ///
    /// This is `SYSTEM_ERR` in the spec.
    SystemError,
}

impl View for AcceptedStatus {
    type V = SpecAcceptedStatus;

    open spec fn view(&self) -> SpecAcceptedStatus {
        match self {
            AcceptedStatus::Success(d) => SpecAcceptedStatus::Success(d@),
            AcceptedStatus::ProgramUnavailable => SpecAcceptedStatus::ProgramUnavailable,
            AcceptedStatus::ProgramMismatch { low, high } => SpecAcceptedStatus::ProgramMismatch {
                low: *low,
                high: *high,
            },
            AcceptedStatus::ProcedureUnavailable => SpecAcceptedStatus::ProcedureUnavailable,
            AcceptedStatus::GarbageArgs => SpecAcceptedStatus::GarbageArgs,
            AcceptedStatus::SystemError => SpecAcceptedStatus::SystemError,
        }
    }
}

impl AcceptedStatus {
    /// Constructs a new `AcceptedStatus` by parsing the wire format read
    /// from `buf` at `pos`; a success payload is every remaining byte.
    pub fn from_wire(buf: &[u8], pos: usize) -> (r: Result<(AcceptedStatus, usize), Error>)
        requires
            pos <= buf@.len(),
        ensures
            r is Ok <==> parse_status(buf@, pos as int) is Ok,
            r matches Ok((s, p)) ==> parse_status(buf@, pos as int) == Ok::<
                (SpecAcceptedStatus, int),
                Error,
            >((s@, p as int)) && pos <= p <= buf@.len(),
            r matches Err(e) ==> parse_status(buf@, pos as int) == Err::<
                (SpecAcceptedStatus, int),
                Error,
            >(e),
    {
        let (disc, p) = match read_u32_at(buf, pos) {
            Ok(t) => t,
            Err(e) => {
                return Err(e);
            },
        };
        if disc == REPLY_SUCCESS {
            let payload = vstd::slice::slice_to_vec(
                vstd::slice::slice_subrange(buf, p, buf.len()),
            );
            Ok((AcceptedStatus::Success(payload), buf.len()))
        } else if disc == REPLY_PROG_UNAVAIL {
            Ok((AcceptedStatus::ProgramUnavailable, p))
        } else if disc == REPLY_PROG_MISMATCH {
            let (low, p2) = match read_u32_at(buf, p) {
                Ok(t) => t,
                Err(e) => {
                    return Err(e);
                },
            };
            let (high, p3) = match read_u32_at(buf, p2) {
                Ok(t) => t,
                Err(e) => {
                    return Err(e);
                },
            };
            Ok((AcceptedStatus::ProgramMismatch { low, high }, p3))
        } else if disc == REPLY_PROC_UNAVAIL {
            Ok((AcceptedStatus::ProcedureUnavailable, p))
        } else if disc == REPLY_GARBAGE_ARGS {
            Ok((AcceptedStatus::GarbageArgs, p))
        } else if disc == REPLY_SYSTEM_ERR {
            Ok((AcceptedStatus::SystemError, p))
        } else {
            Err(Error::InvalidReplyStatus(disc))
        }
    }

    /// Serialises this `AcceptedStatus` into `buf`, appending
    /// [`AcceptedStatus::serialised_len()`] bytes.
    pub fn serialise_into(&self, buf: &mut Vec<u8>)
        ensures
            final(buf)@ == old(buf)@ + enc_status(self@),
    {
        match self {
            AcceptedStatus::Success(d) => {
                push_u32_be(buf, REPLY_SUCCESS);
                push_bytes(buf, d.as_slice());
            },
            AcceptedStatus::ProgramUnavailable => {
                push_u32_be(buf, REPLY_PROG_UNAVAIL);
            },
            AcceptedStatus::ProgramMismatch { low, high } => {
                push_u32_be(buf, REPLY_PROG_MISMATCH);
                push_u32_be(buf, *low);
                push_u32_be(buf, *high);
            },
            AcceptedStatus::ProcedureUnavailable => {
                push_u32_be(buf, REPLY_PROC_UNAVAIL);
            },
            AcceptedStatus::GarbageArgs => {
                push_u32_be(buf, REPLY_GARBAGE_ARGS);
            },
            AcceptedStatus::SystemError => {
                push_u32_be(buf, REPLY_SYSTEM_ERR);
            },
        }
    }

    /// Returns the on-wire length of this type once serialised.
    pub fn serialised_len(&self) -> (r: u32)
        requires
            self@.wire_len() <= u32::MAX,
        ensures
            r == self@.wire_len(),
    {
        match self {
            AcceptedStatus::Success(d) => 4 + d.len() as u32,
            AcceptedStatus::ProgramMismatch { low, high } => 12,
            _ => 4,
        }
    }
}

/// The mathematical value of an [`AcceptedReply`].
#[verifier::ext_equal]
pub ghost struct SpecAcceptedReply {
    pub auth_verifier: SpecAuthFlavor,
    pub status: SpecAcceptedStatus,
}

impl SpecAcceptedReply {
    /// Validity: the auth verifier is valid.
    pub open spec fn wf(self) -> bool {
        self.auth_verifier.wf()
    }

    /// Whether the auth verifier is a value the decoder can produce.
    pub open spec fn canonical(self) -> bool {
        self.auth_verifier.canonical()
    }

    /// The on-wire length of this reply.
    pub open spec fn wire_len(self) -> int {
        self.auth_verifier.wire_len() + self.status.wire_len()
    }

    /// Whether the status payload runs to the end of the enclosing
    /// buffer.
    pub open spec fn runs_to_end(self) -> bool {
        self.status.runs_to_end()
    }
}

/// The wire form of an accepted reply: the auth verifier, then the
/// status.
pub open spec fn enc_accepted(r: SpecAcceptedReply) -> Seq<u8> {
    enc_flavor(r.auth_verifier) + enc_status(r.status)
}

/// Reads an accepted reply at `pos`: the auth verifier, then the status.
pub open spec fn parse_accepted(b: Seq<u8>, pos: int) -> Result<(SpecAcceptedReply, int), Error> {
    match parse_flavor(b, pos) {
        Err(e) => Err(e),
        Ok((auth_verifier, p)) => match parse_status(b, p) {
            Err(e) => Err(e),
            Ok((status, p2)) => Ok((SpecAcceptedReply { auth_verifier, status }, p2)),
        },
    }
}

/// A successfully parsed accepted reply is valid and canonical, and
/// encodes to exactly the bytes read.
pub proof fn lemma_parse_accepted_sound(b: Seq<u8>, pos: int)
    requires
        0 <= pos <= b.len(),
        parse_accepted(b, pos) is Ok,
    ensures
        parse_accepted(b, pos) matches Ok((r, p)) ==> {
            &&& r.wf()
            &&& r.canonical()
            &&& pos < p <= b.len()
            &&& r.wire_len() == p - pos
            &&& (r.runs_to_end() ==> p == b.len())
            &&& enc_accepted(r) == b.subrange(pos, p)
        },
{
    let (verf, p1) = parse_flavor(b, pos)->Ok_0;
    lemma_parse_flavor_sound(b, pos);
    let (status, p2) = parse_status(b, p1)->Ok_0;
    lemma_parse_status_sound(b, p1);
    lemma_subrange_concat(b, pos, p1, p2);
}

/// An accepted-reply read at the position of an encoded valid, canonical
/// accepted reply returns that reply, provided a success payload ends
/// exactly at the buffer's end.
pub proof fn lemma_parse_accepted_complete(b: Seq<u8>, pos: int, r: SpecAcceptedReply)
    requires
        0 <= pos,
        r.wf(),
        r.canonical(),
        pos + r.wire_len() <= b.len(),
        r.runs_to_end() ==> pos + r.wire_len() == b.len(),
        b.subrange(pos, pos + r.wire_len()) == enc_accepted(r),
    ensures
        parse_accepted(b, pos) == Ok::<(SpecAcceptedReply, int), Error>((r, pos + r.wire_len())),
{
    lemma_enc_flavor_len(r.auth_verifier);
    lemma_concat_split(b, pos, enc_flavor(r.auth_verifier), enc_status(r.status));
    lemma_parse_flavor_complete(b, pos, r.auth_verifier);
    lemma_parse_status_complete(b, pos + r.auth_verifier.wire_len(), r.status);
    let got = parse_accepted(b, pos)->Ok_0.0;
    assert(got =~= r);
}

/// A type sent in response to a request that contains credentials
/// accepted by the server.
#[derive(Debug, Clone, PartialEq)]
pub struct AcceptedReply {
    auth_verifier: AuthFlavor,
    status: AcceptedStatus,
}

impl View for AcceptedReply {
    type V = SpecAcceptedReply;

    closed spec fn view(&self) -> SpecAcceptedReply {
        SpecAcceptedReply { auth_verifier: self.auth_verifier@, status: self.status@ }
    }
}

impl AcceptedReply {
    /// Constructs a new `AcceptedReply` with the specified
    /// [`AcceptedStatus`].
    pub fn new(auth_verifier: AuthFlavor, status: AcceptedStatus) -> (r: AcceptedReply)
        ensures
            r@ == (SpecAcceptedReply { auth_verifier: auth_verifier@, status: status@ }),
    {
        AcceptedReply { auth_verifier, status }
    }

    /// Constructs a new `AcceptedReply` by parsing the wire format read
    /// from `buf` at `pos`.
    pub fn from_wire(buf: &[u8], pos: usize) -> (r: Result<(AcceptedReply, usize), Error>)
        requires
            pos <= buf@.len(),
        ensures
            r is Ok <==> parse_accepted(buf@, pos as int) is Ok,
            r matches Ok((v, p)) ==> parse_accepted(buf@, pos as int) == Ok::<
                (SpecAcceptedReply, int),
                Error,
            >((v@, p as int)) && pos <= p <= buf@.len(),
            r matches Err(e) ==> parse_accepted(buf@, pos as int) == Err::<
                (SpecAcceptedReply, int),
                Error,
            >(e),
    {
        let (auth_verifier, p) = match AuthFlavor::from_wire(buf, pos) {
            Ok(t) => t,
            Err(e) => {
                return Err(e);
            },
        };
        let (status, p2) = match AcceptedStatus::from_wire(buf, p) {
            Ok(t) => t,
            Err(e) => {
                return Err(e);
            },
        };
        let reply = AcceptedReply { auth_verifier, status };
        assert(reply@ =~= parse_accepted(buf@, pos as int)->Ok_0.0);
        Ok((reply, p2))
    }

    /// Serialises this `AcceptedReply` into `buf`, appending
    /// [`AcceptedReply::serialised_len()`] bytes.
    pub fn serialise_into(&self, buf: &mut Vec<u8>)
        requires
            self@.wf(),
        ensures
            final(buf)@ == old(buf)@ + enc_accepted(self@),
    {
        self.auth_verifier.serialise_into(buf);
        self.status.serialise_into(buf);
    }

    /// Returns the on-wire length of this type once serialised.
    pub fn serialised_len(&self) -> (r: u32)
        requires
            self@.wf(),
            self@.wire_len() <= u32::MAX,
        ensures
            r == self@.wire_len(),
    {
        self.auth_verifier.serialised_len() + self.status.serialised_len()
    }

    /// Returns the auth verifier for use by the client to validate the
    /// server.
    pub fn auth_verifier(&self) -> (r: &AuthFlavor)
        ensures
            r@ == self@.auth_verifier,
    {
        &self.auth_verifier
    }

    /// Returns the status code of the response.
    pub fn status(&self) -> (r: &AcceptedStatus)
        ensures
            r@ == self@.status,
    {
        &self.status
    }
}

/// The mathematical value of a [`ReplyBody`].
#[verifier::ext_equal]
pub ghost enum SpecReplyBody {
    /// The server accepted the request credentials.
    Accepted(SpecAcceptedReply),
    /// The server rejected the request credentials.
    Denied(RejectedReply),
}

impl SpecReplyBody {
    /// Validity of the variant's contents.
    pub open spec fn wf(self) -> bool {
        match self {
            SpecReplyBody::Accepted(r) => r.wf(),
            SpecReplyBody::Denied(r) => true,
        }
    }

    /// Whether the variant's contents are values the decoder can produce.
    pub open spec fn canonical(self) -> bool {
        match self {
            SpecReplyBody::Accepted(r) => r.canonical(),
            SpecReplyBody::Denied(r) => true,
        }
    }

    /// The on-wire length of this reply body.
    pub open spec fn wire_len(self) -> int {
        4 + match self {
            SpecReplyBody::Accepted(r) => r.wire_len(),
            SpecReplyBody::Denied(r) => r.wire_len(),
        }
    }

    /// Whether the variant's payload runs to the end of the enclosing
    /// buffer.
    pub open spec fn runs_to_end(self) -> bool {
        match self {
            SpecReplyBody::Accepted(r) => r.runs_to_end(),
            SpecReplyBody::Denied(r) => false,
        }
    }
}

/// The wire form of a reply body: its discriminator, then the variant
/// body.
pub open spec fn enc_reply(r: SpecReplyBody) -> Seq<u8> {
    match r {
        SpecReplyBody::Accepted(a) => be_bytes(REPLY_ACCEPTED) + enc_accepted(a),
        SpecReplyBody::Denied(d) => be_bytes(REPLY_DENIED) + enc_rejected(d),
    }
}

/// Reads a reply body at `pos`: a discriminator outside the RFC's two is
/// an [`Error::InvalidReplyType`].
pub open spec fn parse_reply(b: Seq<u8>, pos: int) -> Result<(SpecReplyBody, int), Error> {
    match parse_u32(b, pos) {
        Err(e) => Err(e),
        Ok((disc, p)) => {
            if disc == REPLY_ACCEPTED {
                match parse_accepted(b, p) {
                    Err(e) => Err(e),
                    Ok((a, p2)) => Ok((SpecReplyBody::Accepted(a), p2)),
                }
            } else if disc == REPLY_DENIED {
                match parse_rejected(b, p) {
                    Err(e) => Err(e),
                    Ok((d, p2)) => Ok((SpecReplyBody::Denied(d), p2)),
                }
            } else {
                Err(Error::InvalidReplyType(disc))
            }
        },
    }
}

/// A reply body encodes to exactly its wire length.
pub proof fn lemma_enc_reply_len(r: SpecReplyBody)
    ensures
        enc_reply(r).len() == r.wire_len(),
{
    match r {
        SpecReplyBody::Accepted(a) => lemma_enc_flavor_len(a.auth_verifier),
        SpecReplyBody::Denied(d) => {},
    }
}

/// A successfully parsed reply body is valid and canonical, and encodes
/// to exactly the bytes read.
pub proof fn lemma_parse_reply_sound(b: Seq<u8>, pos: int)
    requires
        0 <= pos <= b.len(),
        parse_reply(b, pos) is Ok,
    ensures
        parse_reply(b, pos) matches Ok((r, p)) ==> {
            &&& r.wf()
            &&& r.canonical()
            &&& pos < p <= b.len()
            &&& r.wire_len() == p - pos
            &&& (r.runs_to_end() ==> p == b.len())
            &&& enc_reply(r) == b.subrange(pos, p)
        },
{
    let (disc, p1) = parse_u32(b, pos)->Ok_0;
    lemma_parse_u32_sound(b, pos);
    if disc == REPLY_ACCEPTED {
        let (a, p2) = parse_accepted(b, p1)->Ok_0;
        lemma_parse_accepted_sound(b, p1);
        lemma_subrange_concat(b, pos, p1, p2);
    } else {
        let (d, p2) = parse_rejected(b, p1)->Ok_0;
        lemma_parse_rejected_sound(b, p1);
        lemma_subrange_concat(b, pos, p1, p2);
    }
}

/// A reply-body read at the position of an encoded valid, canonical reply
/// body returns that reply body, provided a success payload ends exactly
/// at the buffer's end.
pub proof fn lemma_parse_reply_complete(b: Seq<u8>, pos: int, r: SpecReplyBody)
    requires
        0 <= pos,
        r.wf(),
        r.canonical(),
        pos + r.wire_len() <= b.len(),
        r.runs_to_end() ==> pos + r.wire_len() == b.len(),
        b.subrange(pos, pos + r.wire_len()) == enc_reply(r),
    ensures
        parse_reply(b, pos) == Ok::<(SpecReplyBody, int), Error>((r, pos + r.wire_len())),
{
    match r {
        SpecReplyBody::Accepted(a) => {
            lemma_enc_flavor_len(a.auth_verifier);
            lemma_concat_split(b, pos, be_bytes(REPLY_ACCEPTED), enc_accepted(a));
            lemma_parse_u32_complete(b, pos, REPLY_ACCEPTED);
            lemma_parse_accepted_complete(b, pos + 4, a);
        },
        SpecReplyBody::Denied(d) => {
            lemma_concat_split(b, pos, be_bytes(REPLY_DENIED), enc_rejected(d));
            lemma_parse_u32_complete(b, pos, REPLY_DENIED);
            lemma_parse_rejected_complete(b, pos + 4, d);
        },
    }
}

/// `ReplyBody` defines the response to an RPC invocation.
#[derive(Debug, Clone, PartialEq)]
pub enum ReplyBody {
    /// The server accepted the request credentials.
    Accepted(AcceptedReply),
    /// The server rejected the request credentials.
    Denied(RejectedReply),
}

impl View for ReplyBody {
    type V = SpecReplyBody;

    open spec fn view(&self) -> SpecReplyBody {
        match self {
            ReplyBody::Accepted(a) => SpecReplyBody::Accepted(a@),
            ReplyBody::Denied(d) => SpecReplyBody::Denied(*d),
        }
    }
}

impl ReplyBody {
    /// Constructs a new `ReplyBody` by parsing the wire format read from
    /// `buf` at `pos`.
    pub fn from_wire(buf: &[u8], pos: usize) -> (r: Result<(ReplyBody, usize), Error>)
        requires
            pos <= buf@.len(),
        ensures
            r is Ok <==> parse_reply(buf@, pos as int) is Ok,
            r matches Ok((v, p)) ==> parse_reply(buf@, pos as int) == Ok::<
                (SpecReplyBody, int),
                Error,
            >((v@, p as int)) && pos <= p <= buf@.len(),
            r matches Err(e) ==> parse_reply(buf@, pos as int) == Err::<(SpecReplyBody, int), Error>(
                e,
            ),
    {
        let (disc, p) = match read_u32_at(buf, pos) {
            Ok(t) => t,
            Err(e) => {
                return Err(e);
            },
        };
        if disc == REPLY_ACCEPTED {
            let (a, p2) = match AcceptedReply::from_wire(buf, p) {
                Ok(t) => t,
                Err(e) => {
                    return Err(e);
                },
            };
            Ok((ReplyBody::Accepted(a), p2))
        } else if disc == REPLY_DENIED {
            let (d, p2) = match RejectedReply::from_wire(buf, p) {
                Ok(t) => t,
                Err(e) => {
                    return Err(e);
                },
            };
            Ok((ReplyBody::Denied(d), p2))
        } else {
            Err(Error::InvalidReplyType(disc))
        }
    }

    /// Serialises this `ReplyBody` into `buf`, appending
    /// [`ReplyBody::serialised_len()`] bytes.
    pub fn serialise_into(&self, buf: &mut Vec<u8>)
        requires
            self@.wf(),
        ensures
            final(buf)@ == old(buf)@ + enc_reply(self@),
    {
        match self {
            ReplyBody::Accepted(b) => {
                push_u32_be(buf, REPLY_ACCEPTED);
                b.serialise_into(buf);
            },
            ReplyBody::Denied(b) => {
                push_u32_be(buf, REPLY_DENIED);
                b.serialise_into(buf);
            },
        }
    }

    /// Returns the on-wire length of this `ReplyBody` once serialised,
    /// including the discriminator.
    pub fn serialised_len(&self) -> (r: u32)
        requires
            self@.wf(),
            self@.wire_len() <= u32::MAX,
        ensures
            r == self@.wire_len(),
    {
        4 + match self {
            ReplyBody::Accepted(b) => b.serialised_len(),
            ReplyBody::Denied(b) => b.serialised_len(),
        }
    }
}

} // verus!
