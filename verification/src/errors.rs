//! The error model of the library.
//!
//! Failures fall into four groups: transport failures of the underlying byte
//! stream, protocol failures (a response that does not have the expected
//! shape), errors reported explicitly by the server, and contract violations
//! by the caller (an unknown column, a value of the wrong type).

use vstd::prelude::*;

verus! {

/// Why a response failed to conform to the protocol.
#[derive(Clone, Copy, Debug, PartialEq, Eq, Structural)]
pub enum ProtocolErrorKind {
    /// A physical packet header could not be decoded.
    BadPacketHeader,
    /// A token stream body could not be decoded.
    BadTokenStream,
    /// A pre-login response body could not be decoded.
    BadPrelogin,
    /// A message of an unexpected logical type arrived.
    UnexpectedMessageType,
    /// A token of an unexpected kind stood where another was required.
    UnexpectedToken,
    /// A completion token arrived whose status bits do not carry a row count.
    DoneWithoutCount,
    /// The login response carried no packet-size environment change at all.
    MissingPacketSize,
    /// The packet-size environment change carried a value that is not a
    /// decimal number, or one too large or too small to frame packets with.
    BadPacketSizeValue,
    /// A prepare response carried no usable statement handle.
    MissingHandle,
}

/// An error surfaced by any operation of the library.
#[derive(Clone, Debug)]
pub enum TdsError {
    /// The underlying byte stream failed to read or write.
    Transport,
    /// A response did not conform to the expected shape.
    Protocol(ProtocolErrorKind),
    /// The peer reported an explicit error token; code and message are the
    /// server's own, the message as raw bytes.
    Server { code: u32, message: Vec<u8> },
    /// Caller misuse: an unknown column index or name, or a value extraction
    /// with a mismatched type.
    Contract,
    /// A malformed connection string: a pair without an equals sign, or an
    /// unrecognized key.
    Config,
}

impl TdsError {
    /// A short stable tag for the error group, usable in diagnostics.
    pub fn group_name(&self) -> (r: &'static str)
        ensures
            self is Transport ==> r@ == "transport"@,
            self is Protocol ==> r@ == "protocol"@,
            self is Server ==> r@ == "server"@,
            self is Contract ==> r@ == "contract"@,
            self is Config ==> r@ == "config"@,
    {
        match self {
            TdsError::Transport => "transport",
            TdsError::Protocol(_) => "protocol",
            TdsError::Server { .. } => "server",
            TdsError::Contract => "contract",
            TdsError::Config => "config",
        }
    }
}

/// The result type used throughout the library.
pub type TdsResult<T> = Result<T, TdsError>;

} // verus!
