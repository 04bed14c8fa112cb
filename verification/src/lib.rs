//! A client-side implementation of a tabular-data-stream wire protocol for
//! talking to a relational database server.
//!
//! The crate is organised around a small protocol engine:
//! - [`packets`]: physical packet headers, and segmentation of a logical
//!   message into header-bounded packets,
//! - [`tokens`]: the token-based response format and its binary codec,
//! - [`login`]: the pre-login and login handshake messages,
//! - [`rpc`]: remote-procedure-call request encoding,
//! - [`conn`]: the connection state machine over a caller-supplied byte
//!   stream,
//! - [`config`]: the textual connection-string form,
//! - [`stmt`]: the statement-execution engine and result materialization.
//!
//! All I/O goes through the [`conn::TargetStream`] trait; the crate itself
//! never touches a socket.

use vstd::prelude::*;

pub mod bytesutil;
pub mod packets;
pub mod tokens;
pub mod login;
pub mod rpc;
pub mod config;
pub mod conn;
pub mod stmt;
pub mod errors;

verus! {

} // verus!
