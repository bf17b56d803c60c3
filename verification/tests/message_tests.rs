use ws_core::{BitCollector, Error, FrameHeader, IncompleteMessage, IncompleteMessageType, Message,
    OpCode, ReadFrame};

fn text_frame(fin: bool, opcode: OpCode, payload: &[u8]) -> ReadFrame {
    ReadFrame::new(FrameHeader { fin, opcode, mask: None }, payload.to_vec())
}

#[test]
fn display() {
    let t = Message::text("test".to_owned());
    assert_eq!(t.display_string(), "test".to_owned());

    let bin = Message::binary(vec![0, 1, 3, 4, 241]);
    assert_eq!(bin.display_string(), "Binary Data<length=5>".to_owned());
}

#[test]
fn binary_convert() {
    let bin = [6u8, 7, 8, 9, 10, 241];
    let msg = Message::from(&bin[..]);
    assert!(msg.is_binary());
    assert!(msg.into_text().is_err());
}

#[test]
fn binary_convert_vec() {
    let bin = vec![6u8, 7, 8, 9, 10, 241];
    let msg = Message::from(bin);
    assert!(msg.is_binary());
    assert!(msg.into_text().is_err());
}

#[test]
fn binary_convert_into_vec() {
    let bin = vec![6u8, 7, 8, 9, 10, 241];
    let bin_copy = bin.clone();
    let msg = Message::from(bin);
    let serialized: Vec<u8> = msg.into();
    assert_eq!(bin_copy, serialized);
}

#[test]
fn text_convert() {
    let s = "kiwotsukete";
    let msg = Message::from(s);
    assert!(msg.is_text());
}

#[test]
fn fragmentation_reassembly() {
    let mut assembler = IncompleteMessage::new();
    assembler.reuse(IncompleteMessageType::Text);

    let first = text_frame(false, OpCode::Text, b"ab");
    let second = text_frame(false, OpCode::Continuation, b"cd");
    let third = text_frame(true, OpCode::Continuation, b"ef");
    assembler.extend(&first).unwrap();
    assembler.extend(&second).unwrap();
    assembler.extend(&third).unwrap();
    assert_eq!(assembler.len(), 6);

    let msg = assembler.complete().unwrap();
    assert!(msg.is_text());
    assert_eq!(msg.into_text().unwrap(), "abcdef".to_owned());
}

#[test]
fn assembler_reuse_starts_fresh() {
    let mut assembler = IncompleteMessage::new();
    assembler.reuse(IncompleteMessageType::Binary);
    assembler.extend(&text_frame(true, OpCode::Binary, &[1, 2, 3])).unwrap();
    let msg = assembler.complete().unwrap();
    assert!(msg.is_binary());
    assert_eq!(msg.into_data(), vec![1, 2, 3]);

    assembler.reuse(IncompleteMessageType::Text);
    assert_eq!(assembler.len(), 0);
    assembler.extend(&text_frame(true, OpCode::Text, b"xy")).unwrap();
    let msg = assembler.complete().unwrap();
    assert_eq!(msg.into_text().unwrap(), "xy".to_owned());
}

#[test]
fn message_read_copies_prefix() {
    let mut assembler = IncompleteMessage::new();
    assembler.reuse(IncompleteMessageType::Binary);
    assembler.extend(&text_frame(true, OpCode::Binary, &[9, 8, 7])).unwrap();
    let msg = assembler.complete().unwrap();

    let mut buf = vec![0u8; 5];
    let n = msg.read(&mut buf).unwrap();
    assert_eq!(n, 3);
    assert_eq!(buf, vec![9, 8, 7, 0, 0]);

    let mut short = vec![0u8; 2];
    assert_eq!(msg.read(&mut short), Err(Error::BufferTooSmall));
    assert_eq!(short, vec![0, 0]);

    let owned = Message::binary(vec![1]);
    let mut any = vec![0u8; 4];
    assert_eq!(owned.read(&mut any), Err(Error::InvalidInput));
}

#[test]
fn message_len_and_empty() {
    assert_eq!(Message::text("abc".to_owned()).len(), 3);
    assert_eq!(Message::binary(vec![1, 2]).len(), 2);
    assert!(Message::Close(None).is_empty());
    assert_eq!(Message::Ping(vec![1, 2, 3]).len(), 3);
    assert!(!Message::Pong(vec![0]).is_empty());
    assert!(Message::Ping(vec![]).is_ping());
    assert!(Message::Pong(vec![]).is_pong());
    assert!(Message::Close(None).is_close());
}

#[test]
fn read_frame_accessors() {
    let mut frame = ReadFrame::new(
        FrameHeader { fin: false, opcode: OpCode::Binary, mask: None },
        vec![1, 2],
    );
    assert_eq!(frame.len(), 2);
    assert!(!frame.fin());
    assert_eq!(frame.header().opcode, OpCode::Binary);

    frame.set_header(FrameHeader { fin: true, opcode: OpCode::Text, mask: None });
    frame.set_payload(b"hi".to_vec());
    assert!(frame.fin());
    assert_eq!(frame.opcode(), OpCode::Text);
    assert_eq!(frame.payload().as_slice(), b"hi");
    assert_eq!(frame.into_data(), b"hi".to_vec());
}

#[test]
fn collector_round_trip() {
    let mut assembler = IncompleteMessage::new();
    assembler.reuse(IncompleteMessageType::Text);
    assembler.extend(&text_frame(false, OpCode::Text, &[0xff, 0xfe])).unwrap();
    let msg = assembler.complete().unwrap();
    // Invalid UTF-8 surfaces only on the text conversion.
    assert_eq!(msg.into_text(), Err(Error::Utf8));
}

#[test]
fn bit_collector_basics() {
    let mut c = BitCollector::new();
    assert_eq!(c.len(), 0);
    c.extend(&text_frame(true, OpCode::Text, b"abc")).unwrap();
    assert_eq!(c.len(), 3);
    assert_eq!(c.into_vec(), b"abc".to_vec());
    assert_eq!(c.into_string().unwrap(), "abc".to_owned());

    let mut buf = vec![0u8; 4];
    assert_eq!(c.read(&mut buf).unwrap(), 3);
    assert_eq!(buf, vec![97, 98, 99, 0]);

    let mut small = vec![0u8; 2];
    assert_eq!(c.read(&mut small), Err(Error::BufferTooSmall));

    c.reuse();
    assert_eq!(c.len(), 0);
}
