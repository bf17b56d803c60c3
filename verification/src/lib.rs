//! A WebSocket wire-protocol engine.
//!
//! The crate turns a raw byte stream into a sequence of protocol frames,
//! reassembles fragmented frames into logical messages, and writes outgoing
//! frames back onto the stream with configurable buffering and backpressure.
//!
//! Inbound bytes pass through a fixed-capacity circular buffer
//! ([`storage::RingBuffer`]); the codec ([`codec::FrameCodec`]) incrementally
//! parses frame headers and payloads out of it and serializes outgoing frames
//! with write coalescing; the reassembly layer ([`message::IncompleteMessage`])
//! folds a run of continuation frames into one logical message.

pub mod buffer;
pub mod codec;
pub mod decode;
pub mod error;
pub mod frame;
pub mod message;
pub mod storage;
pub mod wire;

pub use buffer::ReadBuffer;
pub use codec::{FrameCodec, FrameSocket, Transport};
pub use error::Error;
pub use frame::{CloseFrame, FrameHeader, MaskKey, OpCode, ReadFrame, WriteFrame};
pub use message::{BitCollector, IncompleteMessage, IncompleteMessageType, Message};
pub use storage::{Empty, Full, Resettable, RingBuffer, U8RingBuffer};
