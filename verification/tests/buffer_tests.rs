use ws_core::{Error, ReadBuffer, Transport};

struct ByteSource {
    data: Vec<u8>,
    pos: usize,
}

impl ByteSource {
    fn new(data: &[u8]) -> ByteSource {
        ByteSource { data: data.to_vec(), pos: 0 }
    }
}

impl Transport for ByteSource {
    fn read(&mut self, max: usize) -> Result<Vec<u8>, Error> {
        let left = self.data.len() - self.pos;
        let take = if max < left { max } else { left };
        let chunk = self.data[self.pos..self.pos + take].to_vec();
        self.pos += take;
        Ok(chunk)
    }

    fn write(&mut self, _data: &Vec<u8>) -> Result<usize, Error> {
        Err(Error::Io)
    }

    fn flush(&mut self) -> Result<(), Error> {
        Ok(())
    }
}

#[test]
fn simple_reading() {
    let mut input = ByteSource::new(b"Hello World!");
    let mut buffer = ReadBuffer::<4096>::new();
    let size = buffer.read_from(&mut input).unwrap();
    assert_eq!(size, 12);
    assert_eq!(buffer.chunk(), b"Hello World!");
}

#[test]
fn reading_in_chunks() {
    let mut inp = ByteSource::new(b"Hello World!");
    let mut buf = ReadBuffer::<4>::new();

    let size = buf.read_from(&mut inp).unwrap();
    assert_eq!(size, 4);
    assert_eq!(buf.chunk(), b"Hell");

    buf.advance(2);
    assert_eq!(buf.chunk(), b"ll");
    assert_eq!(buf.as_cursor().as_slice(), b"Hell");

    let size = buf.read_from(&mut inp).unwrap();
    assert_eq!(size, 4);
    assert_eq!(buf.chunk(), b"llo Wo");
    assert_eq!(buf.as_cursor().as_slice(), b"llo Wo");

    let size = buf.read_from(&mut inp).unwrap();
    assert_eq!(size, 4);
    assert_eq!(buf.chunk(), b"llo World!");
}

#[test]
fn into_vec_drains_read_prefix() {
    let mut buf = ReadBuffer::<8>::from_partially_read(b"abcdef".to_vec());
    buf.advance(2);
    assert_eq!(buf.remaining(), 4);
    assert_eq!(buf.into_vec(), b"cdef".to_vec());
}
