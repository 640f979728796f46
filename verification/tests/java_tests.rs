use rust_stubs::java::{Buffer, ByteBuffer, FloatBuffer, IntBuffer};
use rust_stubs::java::{
    BufferedOutputStream, ByteArrayInputStream, ByteArrayOutputStream, DataInputStream,
    DataOutputStream, StreamError,
};

#[test]
fn test_java_buffers() {
    let mut bb = ByteBuffer::allocate(10);
    bb.put(0x12);
    bb.put(0x34);
    bb.buffer.flip();
    assert_eq!(bb.get(), 0x12);
    assert_eq!(bb.get(), 0x34);

    let mut fb = FloatBuffer::allocate(5);
    fb.put(1.23f32.to_bits());
    fb.buffer.flip();
    assert_eq!(f32::from_bits(fb.get()), 1.23);

    let mut ib = IntBuffer::allocate(5);
    ib.put(42);
    ib.buffer.flip();
    assert_eq!(ib.get(), 42);
}

#[test]
fn buffer_cursor_operations() {
    let mut b = Buffer::new(8);
    assert_eq!(b.remaining(), 8);
    assert!(b.has_remaining());
    b.position = 3;
    b.flip();
    assert_eq!((b.position, b.limit), (0, 3));
    b.clear();
    assert_eq!((b.position, b.limit), (0, 8));
    b.position = 9;
    assert_eq!(b.remaining(), 0);
    assert!(!b.has_remaining());
}

#[test]
fn buffer_gets_past_limit_return_zero() {
    let mut bb = ByteBuffer::allocate(2);
    bb.put(7);
    bb.put(8);
    bb.put(9);
    assert_eq!(bb.buffer.position, 2);
    bb.buffer.flip();
    assert_eq!(bb.get(), 7);
    assert_eq!(bb.get(), 8);
    assert_eq!(bb.get(), 0);
    let mut ib = IntBuffer::allocate(0);
    ib.put(5);
    assert_eq!(ib.get(), 0);
}

#[test]
fn test_java_data_streams() {
    let baos = ByteArrayOutputStream::new();
    let mut dos = DataOutputStream::new(baos);
    dos.write_byte(12).unwrap();
    dos.write_short(1024).unwrap();
    dos.write_int(65536).unwrap();
    let baos = dos.into_inner();

    let bais = ByteArrayInputStream::new(baos.buf);
    let mut dis = DataInputStream::new(bais);

    assert_eq!(dis.read_byte().unwrap(), 12);
    assert_eq!(dis.read_short().unwrap(), 1024);
    assert_eq!(dis.read_int().unwrap(), 65536);
}

#[test]
fn data_streams_big_endian_and_eof() {
    let mut dos = DataOutputStream::new(ByteArrayOutputStream::new());
    dos.write_byte(-1).unwrap();
    dos.write_short(-2).unwrap();
    dos.write_int(0x01020304).unwrap();
    let bytes = dos.into_inner().buf;
    assert_eq!(bytes, vec![0xff, 0xff, 0xfe, 1, 2, 3, 4]);
    let mut dis = DataInputStream::new(ByteArrayInputStream::new(bytes));
    assert_eq!(dis.read_byte(), Ok(-1));
    assert_eq!(dis.read_short(), Ok(-2));
    assert_eq!(dis.read_short(), Ok(0x0102));
    assert_eq!(dis.read_int(), Err(StreamError::UnexpectedEof));
    assert_eq!(dis.read_byte(), Err(StreamError::UnexpectedEof));
}

#[test]
fn input_stream_read_and_read_exact() {
    let mut s = ByteArrayInputStream::new(vec![1, 2, 3, 4, 5]);
    let mut buf = [0u8; 3];
    assert_eq!(s.read(&mut buf), 3);
    assert_eq!(buf, [1, 2, 3]);
    let mut buf = [9u8; 3];
    assert_eq!(s.read(&mut buf), 2);
    assert_eq!(buf, [4, 5, 9]);
    assert_eq!(s.available(), 0);
    let mut s = ByteArrayInputStream::new(vec![1, 2]);
    let mut buf = [0u8; 3];
    assert_eq!(s.read_exact(&mut buf), Err(StreamError::UnexpectedEof));
    assert_eq!(buf, [1, 2, 0]);
    assert_eq!(s.read_u8(), Err(StreamError::UnexpectedEof));
}

#[test]
fn output_stream_write_and_flush() {
    let mut o = ByteArrayOutputStream::new();
    assert_eq!(o.write(&[1, 2]), 2);
    assert_eq!(o.write(&[]), 0);
    assert_eq!(o.flush(), Ok(()));
    assert_eq!(o.buf, vec![1, 2]);
}

#[test]
fn buffered_output_stream_holds_small_writes() {
    let mut b = BufferedOutputStream::new(ByteArrayOutputStream::new(), 4);
    assert_eq!(b.write(&[1, 2]), 2);
    assert_eq!(b.write(&[3]), 1);
    // 3 pending + 2 new reach the capacity: the pending bytes are flushed and
    // the new ones are buffered.
    assert_eq!(b.write(&[4, 5]), 2);
    assert_eq!(b.write(&[6, 7, 8, 9]), 4);
    assert_eq!(b.flush(), Ok(()));
    assert_eq!(b.into_inner().buf, vec![1, 2, 3, 4, 5, 6, 7, 8, 9]);
    let mut b = BufferedOutputStream::new(ByteArrayOutputStream::new(), 0);
    b.write(&[1]);
    assert_eq!(b.into_inner().buf, vec![1]);
}
