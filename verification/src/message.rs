//! Logical messages and their reassembly from frame payloads.
//!
//! A run of continuation frames folds into one message through a single
//! growable collector that is reused across message cycles. A completed
//! message owns a copy of the collected bytes, so it stays valid however the
//! collector is reused afterwards.

use vstd::prelude::*;
use vstd::string::StringExecFns;
use vstd::slice::slice_to_vec;
use vstd::utf8::{valid_utf8, decode_utf8, encode_utf8, encode_utf8_valid_utf8,
    encode_utf8_decode_utf8};

use crate::error::Error;
use crate::frame::{CloseFrame, ReadFrame, WriteFrame};

verus! {

/// Relies on `String::from_utf8`: it succeeds exactly on valid UTF-8 input and
/// returns the string those bytes encode.
#[verifier::external_body]
fn string_from_utf8(v: Vec<u8>) -> (r: Result<String, Error>)
    ensures
        r is Ok <==> valid_utf8(v@),
        r matches Ok(s) ==> s@ == decode_utf8(v@) && encode_utf8(s@) == v@,
        r matches Err(e) ==> e == Error::Utf8,
{
    match String::from_utf8(v) {
        Ok(s) => Ok(s),
        Err(_) => Err(Error::Utf8),
    }
}

/// Relies on `str::from_utf8`: it succeeds exactly on valid UTF-8 input and
/// returns the string slice those bytes encode.
#[verifier::external_body]
fn str_from_utf8<'a>(v: &'a Vec<u8>) -> (r: Result<&'a str, Error>)
    ensures
        r is Ok <==> valid_utf8(v@),
        r matches Ok(s) ==> s@ == decode_utf8(v@) && encode_utf8(s@) == v@,
        r matches Err(e) ==> e == Error::Utf8,
{
    match core::str::from_utf8(v.as_slice()) {
        Ok(s) => Ok(s),
        Err(_) => Err(Error::Utf8),
    }
}

/// Relies on `String::into_bytes`: it returns the string's UTF-8 bytes.
#[verifier::external_body]
fn string_into_bytes(s: String) -> (r: Vec<u8>)
    ensures
        r@ == encode_utf8(s@),
{
    s.into_bytes()
}

/// Copy `src` over the front of `buf`, leaving the rest of `buf` as it was.
///
/// Fails with `Error::BufferTooSmall`, changing nothing, when `buf` is shorter
/// than `src`.
fn copy_to_prefix(src: &Vec<u8>, buf: &mut Vec<u8>) -> (r: Result<usize, Error>)
    ensures
        match r {
            Ok(n) => {
                &&& n == src@.len()
                &&& old(buf)@.len() >= src@.len()
                &&& final(buf)@ == src@ + old(buf)@.skip(src@.len() as int)
            },
            Err(e) => {
                &&& e == Error::BufferTooSmall
                &&& *final(buf) == *old(buf)
                &&& old(buf)@.len() < src@.len()
            },
        },
{
    if buf.len() < src.len() {
        return Err(Error::BufferTooSmall);
    }
    let mut i: usize = 0;
    while i < src.len()
        invariant
            i <= src@.len() <= buf@.len(),
            buf@.len() == old(buf)@.len(),
            forall|t: int| 0 <= t < i ==> buf@[t] == src@[t],
            forall|t: int| i <= t < buf@.len() ==> buf@[t] == old(buf)@[t],
        decreases src@.len() - i,
    {
        buf[i] = src[i];
        i = i + 1;
    }
    proof {
        assert(buf@ =~= src@ + old(buf)@.skip(src@.len() as int));
    }
    Ok(src.len())
}

/// The growable byte collector a message is assembled in.
#[derive(Debug)]
pub struct BitCollector {
    data: Vec<u8>,
}

impl View for BitCollector {
    type V = Seq<u8>;

    closed spec fn view(&self) -> Seq<u8> {
        self.data@
    }
}

impl BitCollector {
    /// Create an empty collector.
    pub fn new() -> (r: BitCollector)
        ensures
            r@.len() == 0,
    {
        BitCollector { data: Vec::with_capacity(500) }
    }

    /// Bytes collected so far.
    pub fn len(&self) -> (r: usize)
        ensures
            r == self@.len(),
    {
        self.data.len()
    }

    /// Append a frame's payload bytes.
    pub fn extend(&mut self, tail: &ReadFrame) -> (r: Result<(), Error>)
        ensures
            r is Ok,
            final(self)@ == old(self)@ + tail@.payload,
    {
        self.data.extend_from_slice(tail.payload().as_slice());
        Ok(())
    }

    /// Clear the collector for the next message cycle.
    pub fn reuse(&mut self)
        ensures
            final(self)@.len() == 0,
    {
        self.data.clear()
    }

    /// Copy the collected bytes over the front of `buf`.
    pub fn read(&self, buf: &mut Vec<u8>) -> (r: Result<usize, Error>)
        ensures
            match r {
                Ok(n) => {
                    &&& n == self@.len()
                    &&& old(buf)@.len() >= self@.len()
                    &&& final(buf)@ == self@ + old(buf)@.skip(self@.len() as int)
                },
                Err(e) => {
                    &&& e == Error::BufferTooSmall
                    &&& *final(buf) == *old(buf)
                    &&& old(buf)@.len() < self@.len()
                },
            },
    {
        copy_to_prefix(&self.data, buf)
    }

    /// A copy of the collected bytes.
    pub fn into_vec(&self) -> (r: Vec<u8>)
        ensures
            r@ == self@,
    {
        self.data.clone()
    }

    /// The collected bytes as UTF-8 text.
    pub fn into_string(&self) -> (r: Result<String, Error>)
        ensures
            r is Ok <==> valid_utf8(self@),
            r matches Ok(s) ==> s@ == decode_utf8(self@) && encode_utf8(s@) == self@,
            r matches Err(e) ==> e == Error::Utf8,
    {
        string_from_utf8(self.data.clone())
    }
}

/// The type of incomplete message.
#[derive(Debug, Clone, Copy, PartialEq, Eq, Structural)]
pub enum IncompleteMessageType {
    Text,
    Binary,
}

/// A message being reassembled from a run of frames.
#[derive(Debug)]
pub struct IncompleteMessage {
    msg_type: IncompleteMessageType,
    collector: BitCollector,
}

impl IncompleteMessage {
    /// The accumulated payload bytes.
    pub closed spec fn contents(&self) -> Seq<u8> {
        self.collector@
    }

    /// The message type the current cycle was started with.
    pub closed spec fn spec_type(&self) -> IncompleteMessageType {
        self.msg_type
    }

    /// Create a fresh assembler; it starts a text cycle with nothing collected.
    pub fn new() -> (r: Self)
        ensures
            r.contents().len() == 0,
            r.spec_type() == IncompleteMessageType::Text,
    {
        IncompleteMessage { collector: BitCollector::new(), msg_type: IncompleteMessageType::Text }
    }

    /// Start a new message cycle: clear the collector and set the type tag.
    ///
    /// Only to be invoked once the previously completed message is no longer
    /// needed; completed messages own their bytes, so they stay valid anyway.
    pub fn reuse(&mut self, msg_type: IncompleteMessageType)
        ensures
            final(self).contents().len() == 0,
            final(self).spec_type() == msg_type,
    {
        self.msg_type = msg_type;
        self.collector.reuse();
    }

    /// The current filled size of the buffer.
    pub fn len(&self) -> (r: usize)
        ensures
            r == self.contents().len(),
    {
        self.collector.len()
    }

    /// Add one more frame's payload to the message.
    pub fn extend(&mut self, tail: &ReadFrame) -> (r: Result<(), Error>)
        ensures
            r is Ok,
            final(self).contents() == old(self).contents() + tail@.payload,
            final(self).spec_type() == old(self).spec_type(),
    {
        self.collector.extend(tail)
    }

    /// Convert the incomplete message into a complete one that owns a copy of
    /// the collected bytes, chosen by the stored type tag.
    pub fn complete(&mut self) -> (r: Result<Message, Error>)
        ensures
            *final(self) == *old(self),
            r matches Ok(m),
            r matches Ok(m) ==> match m {
                Message::ReadText(v) => old(self).spec_type() == IncompleteMessageType::Text
                    && v@ == old(self).contents(),
                Message::ReadBinary(v) => old(self).spec_type() == IncompleteMessageType::Binary
                    && v@ == old(self).contents(),
                _ => false,
            },
    {
        match self.msg_type {
            IncompleteMessageType::Binary => Ok(Message::ReadBinary(self.collector.into_vec())),
            IncompleteMessageType::Text => Ok(Message::ReadText(self.collector.into_vec())),
        }
    }
}

/// The decimal digit character for `d`.
pub open spec fn digit_char(d: int) -> char {
    if d == 0 {
        '0'
    } else if d == 1 {
        '1'
    } else if d == 2 {
        '2'
    } else if d == 3 {
        '3'
    } else if d == 4 {
        '4'
    } else if d == 5 {
        '5'
    } else if d == 6 {
        '6'
    } else if d == 7 {
        '7'
    } else if d == 8 {
        '8'
    } else {
        '9'
    }
}

/// The decimal digit characters of `n`, most significant first.
pub open spec fn dec_digits(n: int) -> Seq<char>
    recommends
        0 <= n,
    decreases n,
{
    if n < 10 {
        seq![digit_char(n)]
    } else {
        dec_digits(n / 10).push(digit_char(n % 10))
    }
}

/// Append the decimal digits of `n` to `s`.
fn push_digits(n: usize, s: &mut String)
    ensures
        final(s)@ == old(s)@ + dec_digits(n as int),
    decreases n,
{
    if n >= 10 {
        push_digits(n / 10, s);
    }
    let d = n % 10;
    let digit = if d == 0 {
        "0"
    } else if d == 1 {
        "1"
    } else if d == 2 {
        "2"
    } else if d == 3 {
        "3"
    } else if d == 4 {
        "4"
    } else if d == 5 {
        "5"
    } else if d == 6 {
        "6"
    } else if d == 7 {
        "7"
    } else if d == 8 {
        "8"
    } else {
        "9"
    };
    proof {
        reveal_strlit("0");
        reveal_strlit("1");
        reveal_strlit("2");
        reveal_strlit("3");
        reveal_strlit("4");
        reveal_strlit("5");
        reveal_strlit("6");
        reveal_strlit("7");
        reveal_strlit("8");
        reveal_strlit("9");
    }
    s.append(digit);
    proof {
        assert(s@ =~= old(s)@ + dec_digits(n as int));
    }
}

/// An enum representing the various forms of a WebSocket message.
///
/// The read variants carry an owned copy of the assembler's collected bytes,
/// so a completed message stays valid across later message cycles.
#[derive(Debug, PartialEq)]
pub enum Message {
    /// A text WebSocket message.
    Text(String),
    /// A binary WebSocket message.
    Binary(Vec<u8>),
    /// A text message completed by the assembler; UTF-8 is checked on
    /// conversion, not on read.
    ReadText(Vec<u8>),
    /// A binary message completed by the assembler.
    ReadBinary(Vec<u8>),
    /// A ping message with the specified payload.
    ///
    /// The payload here must have a length less than 125 bytes.
    Ping(Vec<u8>),
    /// A pong message with the specified payload.
    ///
    /// The payload here must have a length less than 125 bytes.
    Pong(Vec<u8>),
    /// A close message with the optional close frame.
    Close(Option<CloseFrame>),
    /// Raw frame. Note, that you're not going to get this value while reading
    /// the message.
    ReadFrame(ReadFrame),
    /// Raw frame. Note, that you're not going to get this value while reading
    /// the message.
    WriteFrame(WriteFrame),
}

impl Message {
    /// The bytes the message carries: a text message's UTF-8 encoding, a
    /// binary message's payload, a close frame's reason bytes.
    pub open spec fn spec_data(self) -> Seq<u8> {
        match self {
            Message::Text(s) => encode_utf8(s@),
            Message::Binary(d) => d@,
            Message::ReadText(v) => v@,
            Message::ReadBinary(v) => v@,
            Message::Ping(d) => d@,
            Message::Pong(d) => d@,
            Message::Close(None) => Seq::empty(),
            Message::Close(Some(f)) => encode_utf8(f.reason@),
            Message::ReadFrame(f) => f@.payload,
            Message::WriteFrame(f) => f.payload@,
        }
    }

    /// The message's length: its data bytes, except that a raw outgoing frame
    /// counts its whole wire length.
    pub open spec fn spec_len(self) -> int {
        match self {
            Message::WriteFrame(f) => f.spec_len(),
            _ => self.spec_data().len() as int,
        }
    }

    /// Create a new text WebSocket message.
    pub fn text(string: String) -> (r: Message)
        ensures
            r == Message::Text(string),
    {
        Message::Text(string)
    }

    /// Create a new binary WebSocket message.
    pub fn binary(bin: Vec<u8>) -> (r: Message)
        ensures
            r == Message::Binary(bin),
    {
        Message::Binary(bin)
    }

    /// Indicates whether a message is a text message.
    pub fn is_text(&self) -> (r: bool)
        ensures
            r == (self matches Message::Text(_) || self matches Message::ReadText(_)),
    {
        match self {
            Message::Text(_) => true,
            Message::ReadText(_) => true,
            _ => false,
        }
    }

    /// Indicates whether a message is a binary message.
    pub fn is_binary(&self) -> (r: bool)
        ensures
            r == (self matches Message::Binary(_) || self matches Message::ReadBinary(_)),
    {
        match self {
            Message::Binary(_) => true,
            Message::ReadBinary(_) => true,
            _ => false,
        }
    }

    /// Indicates whether a message is a ping message.
    pub fn is_ping(&self) -> (r: bool)
        ensures
            r == (self matches Message::Ping(_)),
    {
        match self {
            Message::Ping(_) => true,
            _ => false,
        }
    }

    /// Indicates whether a message is a pong message.
    pub fn is_pong(&self) -> (r: bool)
        ensures
            r == (self matches Message::Pong(_)),
    {
        match self {
            Message::Pong(_) => true,
            _ => false,
        }
    }

    /// Indicates whether a message is a close message.
    pub fn is_close(&self) -> (r: bool)
        ensures
            r == (self matches Message::Close(_)),
    {
        match self {
            Message::Close(_) => true,
            _ => false,
        }
    }

    /// Get the length of the WebSocket message.
    pub fn len(&self) -> (r: usize)
        requires
            self matches Message::WriteFrame(f) ==> f.payload@.len() + 14 <= usize::MAX,
        ensures
            r == self.spec_len(),
    {
        match self {
            Message::Text(s) => s.as_str().as_bytes().len(),
            Message::Binary(d) => d.len(),
            Message::ReadText(v) => v.len(),
            Message::ReadBinary(v) => v.len(),
            Message::Ping(d) => d.len(),
            Message::Pong(d) => d.len(),
            Message::Close(None) => 0,
            Message::Close(Some(f)) => f.reason.as_str().as_bytes().len(),
            Message::ReadFrame(f) => f.len(),
            Message::WriteFrame(f) => f.len(),
        }
    }

    /// Returns true if the WebSocket message has no content.
    /// For example, if the other side of the connection sent an empty string.
    pub fn is_empty(&self) -> (r: bool)
        requires
            self matches Message::WriteFrame(f) ==> f.payload@.len() + 14 <= usize::MAX,
        ensures
            r == (self.spec_len() == 0),
    {
        self.len() == 0
    }

    /// Consume the WebSocket message and return it as binary data.
    pub fn into_data(self) -> (r: Vec<u8>)
        ensures
            r@ == self.spec_data(),
    {
        match self {
            Message::Text(string) => string_into_bytes(string),
            Message::Binary(data) => data,
            Message::ReadText(v) => v,
            Message::ReadBinary(v) => v,
            Message::Ping(data) => data,
            Message::Pong(data) => data,
            Message::Close(None) => Vec::new(),
            Message::Close(Some(frame)) => string_into_bytes(frame.reason),
            Message::ReadFrame(frame) => frame.into_data(),
            Message::WriteFrame(frame) => frame.into_data(),
        }
    }

    /// Attempt to consume the WebSocket message and convert it to a String.
    pub fn into_text(self) -> (r: Result<String, Error>)
        ensures
            r is Ok <==> valid_utf8(self.spec_data()),
            r matches Ok(s) ==> s@ == decode_utf8(self.spec_data()) && encode_utf8(s@)
                == self.spec_data(),
            r matches Err(e) ==> e == Error::Utf8,
    {
        match self {
            Message::Text(string) => {
                proof {
                    encode_utf8_valid_utf8(string@);
                    encode_utf8_decode_utf8(string@);
                }
                Ok(string)
            },
            Message::Binary(data) => string_from_utf8(data),
            Message::ReadText(v) => string_from_utf8(v),
            Message::ReadBinary(v) => string_from_utf8(v),
            Message::Ping(data) => string_from_utf8(data),
            Message::Pong(data) => string_from_utf8(data),
            Message::Close(None) => {
                let s = String::new();
                proof {
                    encode_utf8_valid_utf8(s@);
                    encode_utf8_decode_utf8(s@);
                    assert(encode_utf8(s@) =~= Seq::<u8>::empty());
                }
                Ok(s)
            },
            Message::Close(Some(frame)) => {
                proof {
                    encode_utf8_valid_utf8(frame.reason@);
                    encode_utf8_decode_utf8(frame.reason@);
                }
                Ok(frame.reason)
            },
            Message::ReadFrame(frame) => string_from_utf8(frame.into_data()),
            Message::WriteFrame(frame) => string_from_utf8(frame.into_data()),
        }
    }

    /// Attempt to get a &str from the WebSocket message;
    /// this will try to convert binary data to utf8.
    pub fn to_text(&self) -> (r: Result<&str, Error>)
        ensures
            r is Ok <==> valid_utf8(self.spec_data()),
            r matches Ok(s) ==> s@ == decode_utf8(self.spec_data()) && encode_utf8(s@)
                == self.spec_data(),
            r matches Err(e) ==> e == Error::Utf8,
    {
        match self {
            Message::Text(string) => {
                proof {
                    encode_utf8_valid_utf8(string@);
                    encode_utf8_decode_utf8(string@);
                }
                Ok(string.as_str())
            },
            Message::Binary(data) => str_from_utf8(data),
            Message::ReadText(v) => str_from_utf8(v),
            Message::ReadBinary(v) => str_from_utf8(v),
            Message::Ping(data) => str_from_utf8(data),
            Message::Pong(data) => str_from_utf8(data),
            Message::Close(None) => {
                let s = "";
                proof {
                    reveal_strlit("");
                    assert(s@ =~= Seq::<char>::empty());
                    encode_utf8_valid_utf8(s@);
                    encode_utf8_decode_utf8(s@);
                    assert(encode_utf8(s@) =~= Seq::<u8>::empty());
                }
                Ok(s)
            },
            Message::Close(Some(frame)) => {
                proof {
                    encode_utf8_valid_utf8(frame.reason@);
                    encode_utf8_decode_utf8(frame.reason@);
                }
                Ok(frame.reason.as_str())
            },
            Message::ReadFrame(frame) => str_from_utf8(frame.payload()),
            Message::WriteFrame(frame) => str_from_utf8(&frame.payload),
        }
    }

    /// What the message shows as: its text when the bytes are valid UTF-8,
    /// otherwise a binary placeholder naming the length.
    pub open spec fn spec_display(self) -> Seq<char> {
        if valid_utf8(self.spec_data()) {
            decode_utf8(self.spec_data())
        } else {
            "Binary Data<length="@ + dec_digits(self.spec_len()) + ">"@
        }
    }

    /// The message rendered for humans: its text when it is valid UTF-8,
    /// otherwise `Binary Data<length=N>`.
    pub fn display_string(&self) -> (r: String)
        requires
            self matches Message::WriteFrame(f) ==> f.payload@.len() + 14 <= usize::MAX,
        ensures
            r@ == self.spec_display(),
    {
        match self.to_text() {
            Ok(s) => s.to_owned(),
            Err(_) => {
                let mut out = String::from_str("Binary Data<length=");
                push_digits(self.len(), &mut out);
                out.append(">");
                proof {
                    assert(out@ =~= "Binary Data<length="@ + dec_digits(self.spec_len()) + ">"@);
                }
                out
            },
        }
    }

    /// Copy the message bytes over the front of `buf`, as a stream read would.
    ///
    /// Supported for the owned read variants; other kinds answer
    /// `Error::InvalidInput` and leave `buf` unchanged.
    pub fn read(&self, buf: &mut Vec<u8>) -> (r: Result<usize, Error>)
        ensures
            match r {
                Ok(n) => {
                    &&& (self matches Message::ReadText(_) || self matches Message::ReadBinary(_))
                    &&& n == self.spec_data().len()
                    &&& old(buf)@.len() >= self.spec_data().len()
                    &&& final(buf)@ == self.spec_data() + old(buf)@.skip(
                        self.spec_data().len() as int,
                    )
                },
                Err(e) => {
                    &&& *final(buf) == *old(buf)
                    &&& (if self matches Message::ReadText(_) || self
                        matches Message::ReadBinary(_) {
                        e == Error::BufferTooSmall && old(buf)@.len() < self.spec_data().len()
                    } else {
                        e == Error::InvalidInput
                    })
                },
            },
    {
        match self {
            Message::ReadText(v) => copy_to_prefix(v, buf),
            Message::ReadBinary(v) => copy_to_prefix(v, buf),
            _ => Err(Error::InvalidInput),
        }
    }
}

impl From<String> for Message {
    /// A string becomes a text message.
    fn from(string: String) -> (r: Self) {
        Message::Text(string)
    }
}

impl vstd::std_specs::convert::FromSpecImpl<String> for Message {
    open spec fn obeys_from_spec() -> bool {
        true
    }

    open spec fn from_spec(string: String) -> Message {
        Message::Text(string)
    }
}

impl<'s> From<&'s str> for Message {
    /// A string slice becomes an owned text message.
    fn from(string: &'s str) -> (r: Self) {
        Message::Text(string.to_owned())
    }
}

impl<'s> vstd::std_specs::convert::FromSpecImpl<&'s str> for Message {
    open spec fn obeys_from_spec() -> bool {
        false
    }

    open spec fn from_spec(string: &'s str) -> Message {
        arbitrary()
    }
}

impl<'b> From<&'b [u8]> for Message {
    /// A byte slice becomes an owned binary message.
    fn from(data: &'b [u8]) -> (r: Self) {
        Message::Binary(slice_to_vec(data))
    }
}

impl<'b> vstd::std_specs::convert::FromSpecImpl<&'b [u8]> for Message {
    open spec fn obeys_from_spec() -> bool {
        false
    }

    open spec fn from_spec(data: &'b [u8]) -> Message {
        arbitrary()
    }
}

impl From<Vec<u8>> for Message {
    /// A byte vector becomes a binary message.
    fn from(data: Vec<u8>) -> (r: Self) {
        Message::Binary(data)
    }
}

impl vstd::std_specs::convert::FromSpecImpl<Vec<u8>> for Message {
    open spec fn obeys_from_spec() -> bool {
        true
    }

    open spec fn from_spec(data: Vec<u8>) -> Message {
        Message::Binary(data)
    }
}

impl From<Message> for Vec<u8> {
    /// A message dissolves into its data bytes.
    fn from(message: Message) -> (r: Self) {
        message.into_data()
    }
}

impl vstd::std_specs::convert::FromSpecImpl<Message> for Vec<u8> {
    open spec fn obeys_from_spec() -> bool {
        false
    }

    open spec fn from_spec(message: Message) -> Vec<u8> {
        arbitrary()
    }
}

impl TryFrom<Message> for String {
    type Error = Error;

    /// A message converts to text exactly when its bytes are valid UTF-8.
    fn try_from(value: Message) -> (r: Result<Self, Error>) {
        value.into_text()
    }
}

impl vstd::std_specs::convert::TryFromSpecImpl<Message> for String {
    open spec fn obeys_try_from_spec() -> bool {
        false
    }

    open spec fn try_from_spec(value: Message) -> Result<String, Error> {
        arbitrary()
    }
}

} // verus!
