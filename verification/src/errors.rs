use vstd::prelude::*;

verus! {

/// Error types returned by this crate.
///
/// Every error is local, pure, and fatal to the single message being
/// processed: retry policy belongs to the caller, not the codec.
#[non_exhaustive]
#[derive(Debug, PartialEq, Eq)]
pub enum Error {
    /// The message header indicates the RPC message is longer than the amount
    /// of data in the buffer, or the buffer contains more than one message.
    ///
    /// This error is also returned if the RPC message parsed from the buffer
    /// is unexpectedly shorter than the header length indicates - in this
    /// case, `buffer_len` will be more than `expected` and may indicate a
    /// parsing error.
    IncompleteMessage {
        /// The length of the buffer provided.
        buffer_len: usize,
        /// The length expected for this message type.
        expected: usize,
    },
    /// The buffer is too small to contain the RPC header.
    IncompleteHeader,
    /// The RPC message is fragmented and needs to be reassembled.
    ///
    /// This library doesn't support fragmented messages and this error is
    /// returned when parsing any message with the "last fragment" bit unset
    /// in the header.
    Fragmented,
    /// The message type in the RPC request is neither [`MessageType::Call`]
    /// nor [`MessageType::Reply`].
    ///
    /// [`MessageType::Call`]: crate::MessageType::Call
    /// [`MessageType::Reply`]: crate::MessageType::Reply
    InvalidMessageType(u32),
    /// The reply type in the RPC response is neither [`ReplyBody::Accepted`]
    /// nor [`ReplyBody::Denied`].
    ///
    /// [`ReplyBody::Accepted`]: crate::ReplyBody::Accepted
    /// [`ReplyBody::Denied`]: crate::ReplyBody::Denied
    InvalidReplyType(u32),
    /// The reply status code is not one of the specified [status
    /// codes](crate::AcceptedStatus).
    InvalidReplyStatus(u32),
    /// The auth or verifier is invalid or malformed.
    InvalidAuthData,
    /// The auth error code is not one of the specified [error
    /// codes](crate::AuthError).
    InvalidAuthError(u32),
    /// The rejected reply status code is not one of the specified [status
    /// codes](crate::RejectedReply).
    InvalidRejectedReplyType(u32),
    /// A variable length type has a malformed length value which exceeds
    /// either its maximum or the length of the buffer.
    InvalidLength,
    /// The zero-fill bytes padding a variable length type to a four byte
    /// boundary hold a non-zero value.
    InvalidPaddingData,
    /// The message contains a RPC protocol identifier that is not 2.
    InvalidRpcVersion(u32),
    /// The [machine name](crate::auth::AuthUnixParams::machine_name) contains
    /// bytes that are not valid UTF-8.
    InvalidMachineName,
    /// The serialised form of the message cannot be written: its body length
    /// does not fit in the 31 bits the fragment header provides.
    IOError,
}

} // verus!
