//! Error kinds surfaced by the engine.
//!
//! Only the semantics of the kinds matter to the core: transport failures are
//! propagated, capacity rejections are recoverable, and protocol violations are
//! hard failures of the current read.

use vstd::prelude::*;

use crate::message::Message;

verus! {

/// The error kinds of the engine.
#[derive(Debug, PartialEq)]
pub enum Error {
    /// A transport read or write failed.
    Io,
    /// The outbound buffer has no room for the frame; the caller keeps it,
    /// wrapped back into a message, and may flush then retry.
    WriteBufferFull(Message),
    /// A write reported zero bytes written: the connection was reset.
    ConnectionReset,
    /// Bytes that had to be UTF-8 text were not valid UTF-8.
    Utf8,
    /// A frame header carried invalid bits (bad opcode or reserved bits set).
    Protocol,
    /// An argument was outside the values the operation accepts.
    InvalidInput,
    /// Fewer bytes were buffered than the operation required.
    NotEnoughData,
    /// The caller's buffer was too small to hold the data.
    BufferTooSmall,
}

} // verus!
