//! In-memory byte streams and the big-endian data streams layered on them.
use vstd::prelude::*;
use crate::be_bytes::{
    be2, be4, from_be2, from_be4, from_be8, get_be2, get_be4, get_be8, lemma_be2_roundtrip,
    lemma_be4_roundtrip, lemma_signed_casts, push_be2, push_be4,
};

verus! {

/// Failure of a read that needs more bytes than the stream still holds.
#[derive(Debug, Clone, Copy, PartialEq, Eq)]
pub enum StreamError {
    UnexpectedEof,
}

/// A stream that reads from a byte vector it owns.
pub struct ByteArrayInputStream {
    data: Vec<u8>,
    offset: usize,
}

impl ByteArrayInputStream {
    #[verifier::type_invariant]
    spec fn offset_in_bounds(self) -> bool {
        self.offset <= self.data.len()
    }

    /// All bytes the stream was made with.
    pub closed spec fn data(&self) -> Seq<u8> {
        self.data@
    }

    /// The bytes not read yet.
    pub closed spec fn rest(&self) -> Seq<u8> {
        if self.offset <= self.data.len() {
            self.data@.skip(self.offset as int)
        } else {
            Seq::empty()
        }
    }

    /// A stream positioned at the start of `data`.
    pub fn new(data: Vec<u8>) -> (s: Self)
        ensures
            s.data() == data@,
            s.rest() == data@,
    {
        let s = ByteArrayInputStream { data, offset: 0 };
        assert(s.data@.skip(0) =~= s.data@);
        s
    }

    /// Number of bytes not read yet.
    pub fn available(&self) -> (n: usize)
        ensures
            n == self.rest().len(),
    {
        proof {
            use_type_invariant(self);
        }
        self.data.len() - self.offset
    }

    /// Copies as many of the remaining bytes as fit into `buf` and returns
    /// how many were copied.
    pub fn read(&mut self, buf: &mut [u8]) -> (n: usize)
        ensures
            n as int == if old(buf)@.len() <= old(self).rest().len() {
                old(buf)@.len() as int
            } else {
                old(self).rest().len() as int
            },
            final(buf)@ == old(self).rest().take(n as int) + old(buf)@.skip(n as int),
            final(self).rest() == old(self).rest().skip(n as int),
            final(self).data() == old(self).data(),
    {
        proof {
            use_type_invariant(&*self);
        }
        let avail = self.data.len() - self.offset;
        let n = if buf.len() <= avail {
            buf.len()
        } else {
            avail
        };
        let start = self.offset;
        let mut i: usize = 0;
        while i < n
            invariant
                i <= n,
                n <= buf@.len(),
                buf@.len() == old(buf)@.len(),
                start == self.offset,
                start + n <= self.data@.len(),
                self.data@.len() <= usize::MAX,
                forall|k: int| 0 <= k < i ==> buf@[k] == self.data@[start + k],
                forall|k: int| i <= k < buf@.len() ==> buf@[k] == old(buf)@[k],
            decreases n - i,
        {
            buf[i] = self.data[start + i];
            i = i + 1;
        }
        self.offset = start + n;
        assert(buf@ =~= old(self).rest().take(n as int) + old(buf)@.skip(n as int));
        assert(self.rest() =~= old(self).rest().skip(n as int));
        n
    }

    /// Fills `buf` completely from the stream.  When fewer bytes remain than
    /// `buf` holds, the remaining bytes are copied to the front of `buf`, the
    /// stream is left empty and `UnexpectedEof` is returned.
    pub fn read_exact(&mut self, buf: &mut [u8]) -> (r: Result<(), StreamError>)
        ensures
            final(self).data() == old(self).data(),
            old(buf)@.len() <= old(self).rest().len() ==> {
                &&& r is Ok
                &&& final(buf)@ == old(self).rest().take(old(buf)@.len() as int)
                &&& final(self).rest() == old(self).rest().skip(old(buf)@.len() as int)
            },
            old(buf)@.len() > old(self).rest().len() ==> {
                &&& r == Err::<(), StreamError>(StreamError::UnexpectedEof)
                &&& final(buf)@ == old(self).rest() + old(buf)@.skip(old(self).rest().len() as int)
                &&& final(self).rest() == Seq::<u8>::empty()
            },
    {
        let need = buf.len();
        let n = self.read(buf);
        if n == need {
            assert(buf@ =~= old(self).rest().take(need as int));
            Ok(())
        } else {
            assert(old(self).rest().take(n as int) =~= old(self).rest());
            assert(self.rest() =~= Seq::<u8>::empty());
            Err(StreamError::UnexpectedEof)
        }
    }

    /// Reads the next `n` bytes into a new vector; fails as `read_exact` does,
    /// leaving the stream empty.
    pub fn read_bytes(&mut self, n: usize) -> (r: Result<Vec<u8>, StreamError>)
        ensures
            final(self).data() == old(self).data(),
            n <= old(self).rest().len() ==> {
                &&& r matches Ok(v) && v@ == old(self).rest().take(n as int)
                &&& final(self).rest() == old(self).rest().skip(n as int)
            },
            n > old(self).rest().len() ==> {
                &&& r == Err::<Vec<u8>, StreamError>(StreamError::UnexpectedEof)
                &&& final(self).rest() == Seq::<u8>::empty()
            },
    {
        proof {
            use_type_invariant(&*self);
        }
        let avail = self.data.len() - self.offset;
        if n <= avail {
            let start = self.offset;
            let mut v: Vec<u8> = Vec::new();
            let mut i: usize = 0;
            while i < n
                invariant
                    i <= n,
                    start == self.offset,
                    start + n <= self.data@.len(),
                    self.data@.len() <= usize::MAX,
                    v@ =~= self.data@.subrange(start as int, start + i),
                decreases n - i,
            {
                v.push(self.data[start + i]);
                i = i + 1;
                assert(v@ =~= self.data@.subrange(start as int, start + i));
            }
            self.offset = start + n;
            assert(v@ =~= old(self).rest().take(n as int));
            assert(self.rest() =~= old(self).rest().skip(n as int));
            Ok(v)
        } else {
            self.offset = self.data.len();
            assert(self.rest() =~= Seq::<u8>::empty());
            Err(StreamError::UnexpectedEof)
        }
    }

    /// Reads one byte.
    pub fn read_u8(&mut self) -> (r: Result<u8, StreamError>)
        ensures
            final(self).data() == old(self).data(),
            old(self).rest().len() >= 1 ==> {
                &&& r == Ok::<u8, StreamError>(old(self).rest()[0])
                &&& final(self).rest() == old(self).rest().skip(1)
            },
            old(self).rest().len() == 0 ==> {
                &&& r == Err::<u8, StreamError>(StreamError::UnexpectedEof)
                &&& final(self).rest() == old(self).rest()
            },
    {
        proof {
            use_type_invariant(&*self);
        }
        if self.offset < self.data.len() {
            let b = self.data[self.offset];
            self.offset = self.offset + 1;
            assert(self.rest() =~= old(self).rest().skip(1));
            Ok(b)
        } else {
            Err(StreamError::UnexpectedEof)
        }
    }

    /// Reads a big-endian 16-bit value.
    pub fn read_u16_be(&mut self) -> (r: Result<u16, StreamError>)
        ensures
            final(self).data() == old(self).data(),
            old(self).rest().len() >= 2 ==> {
                &&& r == Ok::<u16, StreamError>(from_be2(old(self).rest().take(2)))
                &&& final(self).rest() == old(self).rest().skip(2)
            },
            old(self).rest().len() < 2 ==> {
                &&& r == Err::<u16, StreamError>(StreamError::UnexpectedEof)
                &&& final(self).rest() == Seq::<u8>::empty()
            },
    {
        proof {
            use_type_invariant(&*self);
        }
        if self.data.len() - self.offset >= 2 {
            let v = get_be2(self.data.as_slice(), self.offset);
            assert(self.data@.subrange(self.offset as int, self.offset + 2) =~= old(self).rest().take(
                2,
            ));
            self.offset = self.offset + 2;
            assert(self.rest() =~= old(self).rest().skip(2));
            Ok(v)
        } else {
            self.offset = self.data.len();
            assert(self.rest() =~= Seq::<u8>::empty());
            Err(StreamError::UnexpectedEof)
        }
    }

    /// Reads a big-endian 32-bit value.
    pub fn read_u32_be(&mut self) -> (r: Result<u32, StreamError>)
        ensures
            final(self).data() == old(self).data(),
            old(self).rest().len() >= 4 ==> {
                &&& r == Ok::<u32, StreamError>(from_be4(old(self).rest().take(4)))
                &&& final(self).rest() == old(self).rest().skip(4)
            },
            old(self).rest().len() < 4 ==> {
                &&& r == Err::<u32, StreamError>(StreamError::UnexpectedEof)
                &&& final(self).rest() == Seq::<u8>::empty()
            },
    {
        proof {
            use_type_invariant(&*self);
        }
        if self.data.len() - self.offset >= 4 {
            let v = get_be4(self.data.as_slice(), self.offset);
            assert(self.data@.subrange(self.offset as int, self.offset + 4) =~= old(self).rest().take(
                4,
            ));
            self.offset = self.offset + 4;
            assert(self.rest() =~= old(self).rest().skip(4));
            Ok(v)
        } else {
            self.offset = self.data.len();
            assert(self.rest() =~= Seq::<u8>::empty());
            Err(StreamError::UnexpectedEof)
        }
    }

    /// Reads a big-endian 64-bit value.
    pub fn read_u64_be(&mut self) -> (r: Result<u64, StreamError>)
        ensures
            final(self).data() == old(self).data(),
            old(self).rest().len() >= 8 ==> {
                &&& r == Ok::<u64, StreamError>(from_be8(old(self).rest().take(8)))
                &&& final(self).rest() == old(self).rest().skip(8)
            },
            old(self).rest().len() < 8 ==> {
                &&& r == Err::<u64, StreamError>(StreamError::UnexpectedEof)
                &&& final(self).rest() == Seq::<u8>::empty()
            },
    {
        proof {
            use_type_invariant(&*self);
        }
        if self.data.len() - self.offset >= 8 {
            let v = get_be8(self.data.as_slice(), self.offset);
            assert(self.data@.subrange(self.offset as int, self.offset + 8) =~= old(self).rest().take(
                8,
            ));
            self.offset = self.offset + 8;
            assert(self.rest() =~= old(self).rest().skip(8));
            Ok(v)
        } else {
            self.offset = self.data.len();
            assert(self.rest() =~= Seq::<u8>::empty());
            Err(StreamError::UnexpectedEof)
        }
    }
}

/// A stream that collects everything written to it in a byte vector.
#[derive(Default, Debug)]
pub struct ByteArrayOutputStream {
    pub buf: Vec<u8>,
}

impl ByteArrayOutputStream {
    /// An empty stream.
    pub fn new() -> (s: Self)
        ensures
            s.buf@ == Seq::<u8>::empty(),
    {
        ByteArrayOutputStream { buf: Vec::new() }
    }

    /// Appends all of `data` and returns its length.
    pub fn write(&mut self, data: &[u8]) -> (n: usize)
        ensures
            n == data@.len(),
            final(self).buf@ == old(self).buf@ + data@,
    {
        let mut i: usize = 0;
        while i < data.len()
            invariant
                i <= data@.len(),
                self.buf@ == old(self).buf@ + data@.take(i as int),
            decreases data@.len() - i,
        {
            self.buf.push(data[i]);
            i = i + 1;
            assert(self.buf@ =~= old(self).buf@ + data@.take(i as int));
        }
        assert(data@.take(i as int) =~= data@);
        data.len()
    }

    /// Nothing is held back, so flushing has nothing to do.
    pub fn flush(&mut self) -> (r: Result<(), StreamError>)
        ensures
            r is Ok,
            final(self).buf@ == old(self).buf@,
    {
        Ok(())
    }
}

/// The byte that `write_byte` emits for `v`.
pub open spec fn byte_bytes(v: i8) -> Seq<u8> {
    seq![v as u8]
}

/// The bytes that `write_short` emits for `v`: two's complement, big-endian.
pub open spec fn short_bytes(v: i16) -> Seq<u8> {
    be2(v as u16)
}

/// The bytes that `write_int` emits for `v`: two's complement, big-endian.
pub open spec fn int_bytes(v: i32) -> Seq<u8> {
    be4(v as u32)
}

/// The value that `read_byte` makes of the next byte.
pub open spec fn byte_of(b: Seq<u8>) -> i8 {
    b[0] as i8
}

/// The value that `read_short` makes of the next two bytes.
pub open spec fn short_of(b: Seq<u8>) -> i16 {
    from_be2(b) as i16
}

/// The value that `read_int` makes of the next four bytes.
pub open spec fn int_of(b: Seq<u8>) -> i32 {
    from_be4(b) as i32
}

/// Reads big-endian primitive values from a byte stream.
pub struct DataInputStream {
    inner: ByteArrayInputStream,
}

impl DataInputStream {
    /// The stream read from.
    pub closed spec fn inner(&self) -> ByteArrayInputStream {
        self.inner
    }

    /// Reads from `inner`.
    pub fn new(inner: ByteArrayInputStream) -> (s: Self)
        ensures
            s.inner() == inner,
    {
        DataInputStream { inner }
    }

    /// Gives the stream back.
    pub fn into_inner(self) -> (r: ByteArrayInputStream)
        ensures
            r == self.inner(),
    {
        self.inner
    }

    /// Reads one signed byte.
    pub fn read_byte(&mut self) -> (r: Result<i8, StreamError>)
        ensures
            final(self).inner().data() == old(self).inner().data(),
            old(self).inner().rest().len() >= 1 ==> {
                &&& r == Ok::<i8, StreamError>(byte_of(old(self).inner().rest()))
                &&& final(self).inner().rest() == old(self).inner().rest().skip(1)
            },
            old(self).inner().rest().len() < 1 ==> {
                &&& r == Err::<i8, StreamError>(StreamError::UnexpectedEof)
                &&& final(self).inner().rest() == Seq::<u8>::empty()
            },
    {
        let b = self.inner.read_u8()?;
        Ok(b as i8)
    }

    /// Reads a big-endian two's complement 16-bit value.
    pub fn read_short(&mut self) -> (r: Result<i16, StreamError>)
        ensures
            final(self).inner().data() == old(self).inner().data(),
            old(self).inner().rest().len() >= 2 ==> {
                &&& r == Ok::<i16, StreamError>(short_of(old(self).inner().rest().take(2)))
                &&& final(self).inner().rest() == old(self).inner().rest().skip(2)
            },
            old(self).inner().rest().len() < 2 ==> {
                &&& r == Err::<i16, StreamError>(StreamError::UnexpectedEof)
                &&& final(self).inner().rest() == Seq::<u8>::empty()
            },
    {
        let v = self.inner.read_u16_be()?;
        Ok(v as i16)
    }

    /// Reads a big-endian two's complement 32-bit value.
    pub fn read_int(&mut self) -> (r: Result<i32, StreamError>)
        ensures
            final(self).inner().data() == old(self).inner().data(),
            old(self).inner().rest().len() >= 4 ==> {
                &&& r == Ok::<i32, StreamError>(int_of(old(self).inner().rest().take(4)))
                &&& final(self).inner().rest() == old(self).inner().rest().skip(4)
            },
            old(self).inner().rest().len() < 4 ==> {
                &&& r == Err::<i32, StreamError>(StreamError::UnexpectedEof)
                &&& final(self).inner().rest() == Seq::<u8>::empty()
            },
    {
        let v = self.inner.read_u32_be()?;
        Ok(v as i32)
    }
}

/// Writes big-endian primitive values to a byte stream.
pub struct DataOutputStream {
    inner: ByteArrayOutputStream,
}

impl DataOutputStream {
    /// Everything the underlying stream holds.
    pub closed spec fn written(&self) -> Seq<u8> {
        self.inner.buf@
    }

    /// Writes to `inner`.
    pub fn new(inner: ByteArrayOutputStream) -> (s: Self)
        ensures
            s.written() == inner.buf@,
    {
        DataOutputStream { inner }
    }

    /// Gives the stream back.
    pub fn into_inner(self) -> (r: ByteArrayOutputStream)
        ensures
            r.buf@ == self.written(),
    {
        self.inner
    }

    /// Writes one signed byte.
    pub fn write_byte(&mut self, val: i8) -> (r: Result<(), StreamError>)
        ensures
            r is Ok,
            final(self).written() == old(self).written() + byte_bytes(val),
    {
        self.inner.buf.push(val as u8);
        assert(self.written() =~= old(self).written() + byte_bytes(val));
        Ok(())
    }

    /// Writes a 16-bit value, big-endian.
    pub fn write_short(&mut self, val: i16) -> (r: Result<(), StreamError>)
        ensures
            r is Ok,
            final(self).written() == old(self).written() + short_bytes(val),
    {
        push_be2(&mut self.inner.buf, val as u16);
        Ok(())
    }

    /// Writes a 32-bit value, big-endian.
    pub fn write_int(&mut self, val: i32) -> (r: Result<(), StreamError>)
        ensures
            r is Ok,
            final(self).written() == old(self).written() + int_bytes(val),
    {
        push_be4(&mut self.inner.buf, val as u32);
        Ok(())
    }
}

/// A value written with `write_byte` is read back by `read_byte`, whatever
/// follows it.
pub proof fn lemma_byte_roundtrip(v: i8, tail: Seq<u8>)
    ensures
        (byte_bytes(v) + tail).len() >= 1,
        byte_of(byte_bytes(v) + tail) == v,
        (byte_bytes(v) + tail).skip(1) == tail,
{
    lemma_signed_casts(v, 0, 0, 0);
    assert((byte_bytes(v) + tail).skip(1) =~= tail);
}

/// A value written with `write_short` is read back by `read_short`, whatever
/// follows it.
pub proof fn lemma_short_roundtrip(v: i16, tail: Seq<u8>)
    ensures
        (short_bytes(v) + tail).len() >= 2,
        short_of((short_bytes(v) + tail).take(2)) == v,
        (short_bytes(v) + tail).skip(2) == tail,
{
    lemma_be2_roundtrip(v as u16);
    lemma_signed_casts(0, v, 0, 0);
    assert((short_bytes(v) + tail).take(2) =~= short_bytes(v));
    assert((short_bytes(v) + tail).skip(2) =~= tail);
}

/// A value written with `write_int` is read back by `read_int`, whatever
/// follows it.
pub proof fn lemma_int_roundtrip(v: i32, tail: Seq<u8>)
    ensures
        (int_bytes(v) + tail).len() >= 4,
        int_of((int_bytes(v) + tail).take(4)) == v,
        (int_bytes(v) + tail).skip(4) == tail,
{
    lemma_be4_roundtrip(v as u32);
    lemma_signed_casts(0, 0, v, 0);
    assert((int_bytes(v) + tail).take(4) =~= int_bytes(v));
    assert((int_bytes(v) + tail).skip(4) =~= tail);
}

/// Whether a write of `data` first flushes the buffer: when the pending
/// bytes and `data` together would reach the capacity.
pub open spec fn flushes_first(pending: Seq<u8>, data: Seq<u8>, capacity: nat) -> bool {
    pending.len() + data.len() >= capacity
}

/// What the underlying stream holds after a buffered write of `data`.
pub open spec fn written_after_write(
    written: Seq<u8>,
    pending: Seq<u8>,
    data: Seq<u8>,
    capacity: nat,
) -> Seq<u8> {
    let w = if flushes_first(pending, data, capacity) {
        written + pending
    } else {
        written
    };
    if data.len() >= capacity {
        w + data
    } else {
        w
    }
}

/// What the buffer holds after a buffered write of `data`.
pub open spec fn pending_after_write(pending: Seq<u8>, data: Seq<u8>, capacity: nat) -> Seq<u8> {
    let p = if flushes_first(pending, data, capacity) {
        Seq::empty()
    } else {
        pending
    };
    if data.len() >= capacity {
        p
    } else {
        p + data
    }
}

/// A buffered write loses and reorders nothing: the underlying stream
/// followed by the buffer holds what they held before followed by `data`;
/// and the buffer stays below its capacity, or empty.
pub proof fn lemma_buffered_write(written: Seq<u8>, pending: Seq<u8>, data: Seq<u8>, capacity: nat)
    requires
        pending.len() < capacity || pending.len() == 0,
    ensures
        written_after_write(written, pending, data, capacity) + pending_after_write(
            pending,
            data,
            capacity,
        ) == written + pending + data,
        pending_after_write(pending, data, capacity).len() < capacity || pending_after_write(
            pending,
            data,
            capacity,
        ).len() == 0,
{
    assert(written_after_write(written, pending, data, capacity) + pending_after_write(
        pending,
        data,
        capacity,
    ) =~= written + pending + data);
}

/// Collects small writes in a buffer and hands them to the underlying stream
/// in one piece once the buffer would reach its capacity.
pub struct BufferedOutputStream {
    inner: ByteArrayOutputStream,
    buffer: Vec<u8>,
    capacity: usize,
}

impl BufferedOutputStream {
    /// What the underlying stream holds.
    pub closed spec fn written(&self) -> Seq<u8> {
        self.inner.buf@
    }

    /// What is held back in the buffer.
    pub closed spec fn pending(&self) -> Seq<u8> {
        self.buffer@
    }

    /// The buffer size the stream was made with.
    pub closed spec fn capacity(&self) -> nat {
        self.capacity as nat
    }

    /// A stream with an empty buffer of `capacity` bytes over `inner`.
    pub fn new(inner: ByteArrayOutputStream, capacity: usize) -> (s: Self)
        ensures
            s.written() == inner.buf@,
            s.pending() == Seq::<u8>::empty(),
            s.capacity() == capacity,
            s.pending().len() < s.capacity() || s.pending().len() == 0,
    {
        BufferedOutputStream { inner, buffer: Vec::with_capacity(capacity), capacity }
    }

    /// Gives the underlying stream back; bytes still in the buffer are not
    /// part of it.
    pub fn into_inner(self) -> (r: ByteArrayOutputStream)
        ensures
            r.buf@ == self.written(),
    {
        self.inner
    }

    /// Writes `data`: the buffer is first flushed when `data` would fill it,
    /// and `data` itself bypasses the buffer when it is at least as long as
    /// the capacity.  Returns the length of `data`.
    pub fn write(&mut self, data: &[u8]) -> (n: usize)
        requires
            old(self).pending().len() < old(self).capacity() || old(self).pending().len() == 0,
        ensures
            n == data@.len(),
            final(self).capacity() == old(self).capacity(),
            final(self).written() == written_after_write(
                old(self).written(),
                old(self).pending(),
                data@,
                old(self).capacity(),
            ),
            final(self).pending() == pending_after_write(
                old(self).pending(),
                data@,
                old(self).capacity(),
            ),
            final(self).pending().len() < final(self).capacity() || final(self).pending().len() == 0,
    {
        if data.len() >= self.capacity - self.buffer.len() {
            self.flush_buffer();
        }
        if data.len() >= self.capacity {
            self.inner.write(data);
        } else {
            let mut i: usize = 0;
            let ghost before = self.buffer@;
            let ghost written = self.inner.buf@;
            let ghost cap = self.capacity;
            while i < data.len()
                invariant
                    i <= data@.len(),
                    data@.len() < self.capacity,
                    self.capacity == cap,
                    self.inner.buf@ == written,
                    self.buffer@ == before + data@.take(i as int),
                decreases data@.len() - i,
            {
                self.buffer.push(data[i]);
                i = i + 1;
                assert(self.buffer@ =~= before + data@.take(i as int));
            }
            assert(data@.take(i as int) =~= data@);
        }
        data.len()
    }

    /// Moves the buffered bytes to the underlying stream.
    fn flush_buffer(&mut self)
        ensures
            final(self).written() == old(self).written() + old(self).pending(),
            final(self).pending() == Seq::<u8>::empty(),
            final(self).capacity() == old(self).capacity(),
    {
        if self.buffer.len() > 0 {
            self.inner.write(self.buffer.as_slice());
            self.buffer.clear();
        } else {
            assert(old(self).written() + old(self).pending() =~= old(self).written());
        }
    }

    /// Hands the buffered bytes to the underlying stream and flushes it.
    pub fn flush(&mut self) -> (r: Result<(), StreamError>)
        ensures
            r is Ok,
            final(self).written() == old(self).written() + old(self).pending(),
            final(self).pending() == Seq::<u8>::empty(),
            final(self).capacity() == old(self).capacity(),
            final(self).pending().len() < final(self).capacity() || final(self).pending().len() == 0,
    {
        self.flush_buffer();
        self.inner.flush()
    }
}

} // verus!
