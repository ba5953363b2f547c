//! A verified codec for the Open Network Computing Remote Procedure Call
//! (ONC RPC, RFC 5531) wire message format: encoding and decoding of RPC
//! call and reply envelopes, the authentication-flavor sub-structures, and
//! the XDR (RFC 1014) opaque-data encoding rules they are built from.
//!
//! Every decoder is verified against a specification-level parser that
//! fixes, byte for byte, both the value read and the exact error returned,
//! and every encoder against a specification-level byte-sequence function.
//! Two public laws tie the two together: decoding the wire form of a valid
//! message yields the message itself ([`RpcMessage`]'s round trip), and
//! re-encoding any buffer that decodes successfully reproduces the buffer.
//! Malformed or adversarial input is rejected with a typed [`Error`]; no
//! verified function panics or reads out of bounds on any input.

mod errors;
mod xdr;
pub mod auth;
mod call_body;
mod reply;
mod rpc_message;

pub use errors::Error;
pub use xdr::{pad_length, Opaque};
pub use call_body::CallBody;
pub use reply::{AcceptedReply, AcceptedStatus, AuthError, RejectedReply, ReplyBody};
pub use rpc_message::{expected_message_len, unwrap_header, MessageType, RpcMessage};
