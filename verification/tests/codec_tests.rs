use ws_core::{Error, FrameCodec, FrameHeader, FrameSocket, MaskKey, Message, OpCode, Transport,
    WriteFrame};

struct ChunkedStream {
    data: Vec<u8>,
    pos: usize,
    max_chunk: usize,
    written: Vec<u8>,
}

impl ChunkedStream {
    fn new(data: &[u8], max_chunk: usize) -> ChunkedStream {
        ChunkedStream { data: data.to_vec(), pos: 0, max_chunk, written: Vec::new() }
    }
}

impl Transport for ChunkedStream {
    fn read(&mut self, max: usize) -> Result<Vec<u8>, Error> {
        let left = self.data.len() - self.pos;
        let mut take = if max < left { max } else { left };
        if take > self.max_chunk {
            take = self.max_chunk;
        }
        let chunk = self.data[self.pos..self.pos + take].to_vec();
        self.pos += take;
        Ok(chunk)
    }

    fn write(&mut self, data: &Vec<u8>) -> Result<usize, Error> {
        self.written.extend_from_slice(data);
        Ok(data.len())
    }

    fn flush(&mut self) -> Result<(), Error> {
        Ok(())
    }
}

struct ZeroSink;

impl Transport for ZeroSink {
    fn read(&mut self, _max: usize) -> Result<Vec<u8>, Error> {
        Ok(Vec::new())
    }

    fn write(&mut self, _data: &Vec<u8>) -> Result<usize, Error> {
        Ok(0)
    }

    fn flush(&mut self) -> Result<(), Error> {
        Ok(())
    }
}

const MASKED_HELLO: [u8; 11] = [0x81, 0x85, 0x37, 0xfa, 0x21, 0x3d, 0x7f, 0x9f, 0x4d, 0x51, 0x58];

#[test]
fn read_frames() {
    let raw = [
        0x82u8, 0x07, 0x01, 0x02, 0x03, 0x04, 0x05, 0x06, 0x07, 0x82, 0x03, 0x03, 0x02, 0x01,
        0x99,
    ];
    let mut sock = FrameSocket::new(ChunkedStream::new(&raw, usize::MAX));

    let frame = sock.read().unwrap().unwrap();
    assert_eq!(frame.opcode(), OpCode::Binary);
    assert!(frame.fin());
    assert_eq!(frame.into_data(), vec![0x01, 0x02, 0x03, 0x04, 0x05, 0x06, 0x07]);

    let frame = sock.read().unwrap().unwrap();
    assert_eq!(frame.into_data(), vec![0x03, 0x02, 0x01]);

    // The trailing byte is an incomplete header: end of stream, no frame.
    assert!(sock.read().unwrap().is_none());
}

#[test]
fn masked_text_frame_decodes() {
    let mut sock = FrameSocket::new(ChunkedStream::new(&MASKED_HELLO, usize::MAX));
    let frame = sock.read().unwrap().unwrap();
    assert_eq!(frame.opcode(), OpCode::Text);
    assert!(frame.fin());
    assert_eq!(frame.payload().as_slice(), b"Hello");

    let msg = Message::ReadText(frame.into_data());
    assert_eq!(msg.into_text().unwrap(), "Hello".to_owned());
}

#[test]
fn masked_text_frame_one_byte_at_a_time() {
    // The same bytes fed one byte per transport read give the same frame.
    let mut sock = FrameSocket::new(ChunkedStream::new(&MASKED_HELLO, 1));
    let frame = sock.read().unwrap().unwrap();
    assert_eq!(frame.opcode(), OpCode::Text);
    assert_eq!(frame.payload().as_slice(), b"Hello");
    assert!(sock.read().unwrap().is_none());
}

#[test]
fn chunk_boundaries_inside_length_field() {
    // A 16-bit payload length split across transport reads.
    let mut raw = vec![0x82u8, 126, 0x00, 0x80];
    for i in 0..128u8 {
        raw.push(i);
    }
    for chunk in [1usize, 3, 5, 7] {
        let mut sock = FrameSocket::new(ChunkedStream::new(&raw, chunk));
        let frame = sock.read().unwrap().unwrap();
        assert_eq!(frame.opcode(), OpCode::Binary);
        assert_eq!(frame.len(), 128);
        assert_eq!(frame.payload()[127], 127);
        assert!(sock.read().unwrap().is_none());
    }
}

#[test]
fn from_partially_read() {
    let rest = [0x02u8, 0x03, 0x04, 0x05, 0x06, 0x07];
    let mut sock = FrameSocket::from_partially_read(
        ChunkedStream::new(&rest, usize::MAX),
        vec![0x82, 0x07, 0x01],
    );
    let frame = sock.read().unwrap().unwrap();
    assert_eq!(frame.into_data(), vec![0x01, 0x02, 0x03, 0x04, 0x05, 0x06, 0x07]);
}

#[test]
fn reserved_bits_are_a_protocol_error() {
    let mut sock = FrameSocket::new(ChunkedStream::new(&[0xf1, 0x00], usize::MAX));
    assert_eq!(sock.read().unwrap_err(), Error::Protocol);
}

#[test]
fn bad_opcode_is_a_protocol_error() {
    let mut sock = FrameSocket::new(ChunkedStream::new(&[0x83, 0x00], usize::MAX));
    assert_eq!(sock.read().unwrap_err(), Error::Protocol);
}

#[test]
fn write_frames() {
    let mut sock = FrameSocket::new(ChunkedStream::new(&[], usize::MAX));

    let frame = WriteFrame::new(
        FrameHeader { fin: true, opcode: OpCode::Ping, mask: None },
        vec![0x04, 0x05],
    );
    sock.send(frame).unwrap();

    let frame = WriteFrame::new(
        FrameHeader { fin: true, opcode: OpCode::Pong, mask: None },
        vec![0x01],
    );
    sock.send(frame).unwrap();

    let written = sock.get_ref().written.clone();
    assert_eq!(written, vec![0x89, 0x02, 0x04, 0x05, 0x8a, 0x01, 0x01]);
}

#[test]
fn masked_write_round_trip() {
    // Serializing a masked client frame yields the canonical bytes, and
    // reading them back gives the original payload.
    let mut sock = FrameSocket::new(ChunkedStream::new(&[], usize::MAX));
    let frame = WriteFrame::new(
        FrameHeader {
            fin: true,
            opcode: OpCode::Text,
            mask: Some(MaskKey { b0: 0x37, b1: 0xfa, b2: 0x21, b3: 0x3d }),
        },
        b"Hello".to_vec(),
    );
    sock.send(frame).unwrap();
    let written = sock.get_ref().written.clone();
    assert_eq!(written, MASKED_HELLO.to_vec());

    let mut reader = FrameSocket::new(ChunkedStream::new(&written, usize::MAX));
    let frame = reader.read().unwrap().unwrap();
    assert_eq!(frame.payload().as_slice(), b"Hello");
}

#[test]
fn write_coalescing_below_threshold() {
    let mut stream = ChunkedStream::new(&[], usize::MAX);
    let mut codec = FrameCodec::new();
    codec.set_out_buffer_write_len(6);

    let ping = WriteFrame::new(
        FrameHeader { fin: true, opcode: OpCode::Ping, mask: None },
        vec![0x04, 0x05],
    );
    codec.buffer_frame(&mut stream, ping).unwrap();
    // Four queued bytes stay below the threshold: nothing hits the stream.
    assert!(stream.written.is_empty());

    let pong = WriteFrame::new(
        FrameHeader { fin: true, opcode: OpCode::Pong, mask: None },
        vec![0x01],
    );
    codec.buffer_frame(&mut stream, pong).unwrap();
    // Seven queued bytes cross the threshold: everything is written, in
    // submission order.
    assert_eq!(stream.written, vec![0x89, 0x02, 0x04, 0x05, 0x8a, 0x01, 0x01]);

    codec.write_out_buffer(&mut stream).unwrap();
    assert_eq!(stream.written, vec![0x89, 0x02, 0x04, 0x05, 0x8a, 0x01, 0x01]);
}

#[test]
fn backpressure_returns_frame_untouched() {
    let mut stream = ChunkedStream::new(&[], usize::MAX);
    let mut codec = FrameCodec::new();
    codec.set_max_out_buffer_len(4);
    codec.set_out_buffer_write_len(64);

    let ping = WriteFrame::new(
        FrameHeader { fin: true, opcode: OpCode::Ping, mask: None },
        vec![0x04, 0x05],
    );
    codec.buffer_frame(&mut stream, ping.clone()).unwrap();

    let pong = WriteFrame::new(
        FrameHeader { fin: true, opcode: OpCode::Pong, mask: None },
        vec![0x01],
    );
    match codec.buffer_frame(&mut stream, pong.clone()) {
        Err(Error::WriteBufferFull(Message::WriteFrame(returned))) => {
            assert_eq!(returned, pong);
        },
        other => panic!("expected WriteBufferFull, got {:?}", other),
    }

    // The rejection changed nothing: draining writes only the first frame.
    codec.write_out_buffer(&mut stream).unwrap();
    assert_eq!(stream.written, vec![0x89, 0x02, 0x04, 0x05]);
}

#[test]
fn zero_write_is_connection_reset() {
    let mut codec = FrameCodec::new();
    let ping = WriteFrame::new(
        FrameHeader { fin: true, opcode: OpCode::Ping, mask: None },
        vec![0x04, 0x05],
    );
    // The default threshold flushes immediately, and the sink takes nothing.
    assert_eq!(codec.buffer_frame(&mut ZeroSink, ping), Err(Error::ConnectionReset));
}

#[test]
fn empty_stream_reads_no_frame() {
    let mut sock = FrameSocket::new(ChunkedStream::new(&[], usize::MAX));
    assert!(sock.read().unwrap().is_none());
}
