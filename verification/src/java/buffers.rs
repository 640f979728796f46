//! Position/limit buffers over a fixed block of elements.
use vstd::prelude::*;

verus! {

/// The cursor of a buffer: its capacity, the index of the next element and
/// the index where reading or writing stops.
#[derive(Debug, Clone)]
pub struct Buffer {
    pub capacity: usize,
    pub position: usize,
    pub limit: usize,
}

impl Buffer {
    /// A cursor at the start of a block of `capacity` elements, with the whole
    /// block available.
    pub fn new(capacity: usize) -> (b: Self)
        ensures
            b.capacity == capacity,
            b.position == 0,
            b.limit == capacity,
    {
        Buffer { capacity, position: 0, limit: capacity }
    }

    /// Makes the whole block available again from its start.
    pub fn clear(&mut self)
        ensures
            final(self).capacity == old(self).capacity,
            final(self).position == 0,
            final(self).limit == old(self).capacity,
    {
        self.position = 0;
        self.limit = self.capacity;
    }

    /// Turns what was written so far into what is to be read: the limit moves
    /// to the position and the position back to the start.
    pub fn flip(&mut self)
        ensures
            final(self).capacity == old(self).capacity,
            final(self).position == 0,
            final(self).limit == old(self).position,
    {
        self.limit = self.position;
        self.position = 0;
    }

    /// Number of elements between the position and the limit, or 0 when the
    /// position is past the limit.
    pub fn remaining(&self) -> (r: usize)
        ensures
            r == if self.position <= self.limit {
                (self.limit - self.position) as usize
            } else {
                0usize
            },
    {
        self.limit.saturating_sub(self.position)
    }

    /// Whether any element lies between the position and the limit.
    pub fn has_remaining(&self) -> (r: bool)
        ensures
            r == (self.position < self.limit),
    {
        self.remaining() > 0
    }
}

/// The state of a buffer over elements of type `T`, as the laws below see it.
pub struct BufState<T> {
    pub capacity: int,
    pub position: int,
    pub limit: int,
    pub data: Seq<T>,
}

impl<T> BufState<T> {
    /// The state after putting `x`: stored at the position, which advances,
    /// when the position is before the limit; unchanged otherwise.
    pub open spec fn put(self, x: T) -> Self {
        if self.position < self.limit {
            BufState {
                capacity: self.capacity,
                position: self.position + 1,
                limit: self.limit,
                data: self.data.update(self.position, x),
            }
        } else {
            self
        }
    }

    /// The state after a get, and the element it returns: the element at the
    /// position, which advances, when the position is before the limit;
    /// `zero` and no change otherwise.
    pub open spec fn get(self, zero: T) -> (Self, T) {
        if self.position < self.limit {
            (
                BufState {
                    capacity: self.capacity,
                    position: self.position + 1,
                    limit: self.limit,
                    data: self.data,
                },
                self.data[self.position],
            )
        } else {
            (self, zero)
        }
    }

    /// The state after `Buffer::flip`.
    pub open spec fn flip(self) -> Self {
        BufState { capacity: self.capacity, position: 0, limit: self.position, data: self.data }
    }

    /// The state after `Buffer::clear`.
    pub open spec fn clear(self) -> Self {
        BufState { capacity: self.capacity, position: 0, limit: self.capacity, data: self.data }
    }

    /// The state after putting each element of `xs` in turn.
    pub open spec fn put_all(self, xs: Seq<T>) -> Self
        decreases xs.len(),
    {
        if xs.len() == 0 {
            self
        } else {
            self.put(xs[0]).put_all(xs.drop_first())
        }
    }

    /// The elements returned by `n` gets in a row.
    pub open spec fn get_all(self, n: nat, zero: T) -> Seq<T>
        decreases n,
    {
        if n == 0 {
            Seq::empty()
        } else {
            let (next, x) = self.get(zero);
            seq![x] + next.get_all((n - 1) as nat, zero)
        }
    }
}

/// Putting `xs` from position `p` stores them at `p..p + xs.len()`, leaves
/// the rest and moves the position past them.
proof fn lemma_put_all<T>(s: BufState<T>, xs: Seq<T>)
    requires
        0 <= s.position,
        s.position + xs.len() <= s.limit <= s.data.len(),
    ensures
        s.put_all(xs).capacity == s.capacity,
        s.put_all(xs).limit == s.limit,
        s.put_all(xs).position == s.position + xs.len(),
        s.put_all(xs).data.len() == s.data.len(),
        forall|i: int|
            0 <= i < s.data.len() ==> #[trigger] s.put_all(xs).data[i] == if s.position <= i
                < s.position + xs.len() {
                xs[i - s.position]
            } else {
                s.data[i]
            },
    decreases xs.len(),
{
    if xs.len() > 0 {
        let s1 = s.put(xs[0]);
        lemma_put_all(s1, xs.drop_first());
    }
}

/// Gets from position `q` return the elements up to the limit, then `zero`.
proof fn lemma_get_all<T>(s: BufState<T>, n: nat, zero: T)
    requires
        0 <= s.position,
        s.limit <= s.data.len(),
    ensures
        s.get_all(n, zero).len() == n,
        forall|i: int|
            0 <= i < n ==> #[trigger] s.get_all(n, zero)[i] == if s.position + i < s.limit {
                s.data[s.position + i]
            } else {
                zero
            },
    decreases n,
{
    if n > 0 {
        let (next, x) = s.get(zero);
        lemma_get_all(next, (n - 1) as nat, zero);
        if s.position >= s.limit {
            assert(next == s);
        }
    }
}

/// Elements put into a buffer from its start are read back in the same order
/// after a flip, and gets past them return `zero`.
pub proof fn lemma_put_flip_get<T>(s: BufState<T>, xs: Seq<T>, k: nat, zero: T)
    requires
        s.position == 0,
        xs.len() <= s.limit <= s.data.len(),
    ensures
        s.put_all(xs).flip().get_all(xs.len() + k, zero) == xs + Seq::new(k, |_i: int| zero),
{
    lemma_put_all(s, xs);
    let f = s.put_all(xs).flip();
    lemma_get_all(f, xs.len() + k, zero);
    assert(f.get_all(xs.len() + k, zero) =~= xs + Seq::new(k, |_i: int| zero));
}

/// A buffer of bytes.
#[derive(Debug, Clone)]
pub struct ByteBuffer {
    pub buffer: Buffer,
    pub data: Vec<u8>,
}

impl ByteBuffer {
    /// The buffer's state as the laws see it.
    pub open spec fn state(&self) -> BufState<u8> {
        BufState {
            capacity: self.buffer.capacity as int,
            position: self.buffer.position as int,
            limit: self.buffer.limit as int,
            data: self.data@,
        }
    }

    /// A buffer of `capacity` zero bytes with the whole block available.
    pub fn allocate(capacity: usize) -> (b: Self)
        ensures
            b.buffer.capacity == capacity,
            b.buffer.position == 0,
            b.buffer.limit == capacity,
            b.data@ == Seq::new(capacity as nat, |_i: int| 0u8),
    {
        let mut data: Vec<u8> = Vec::new();
        let mut i: usize = 0;
        while i < capacity
            invariant
                i <= capacity,
                data@ == Seq::new(i as nat, |_i: int| 0u8),
            decreases capacity - i,
        {
            data.push(0u8);
            i = i + 1;
            assert(data@ =~= Seq::new(i as nat, |_i: int| 0u8));
        }
        ByteBuffer { buffer: Buffer::new(capacity), data }
    }

    /// Stores `byte` at the position and advances it, when the position is
    /// before the limit; does nothing otherwise.
    pub fn put(&mut self, byte: u8)
        requires
            old(self).buffer.position < old(self).buffer.limit ==> old(self).buffer.position
                < old(self).data@.len(),
        ensures
            final(self).state() == old(self).state().put(byte),
    {
        if self.buffer.position < self.buffer.limit {
            let p = self.buffer.position;
            self.data.set(p, byte);
            self.buffer.position = p + 1;
        }
    }

    /// Returns the byte at the position and advances it, when the position is
    /// before the limit; returns 0 otherwise.
    pub fn get(&mut self) -> (r: u8)
        requires
            old(self).buffer.position < old(self).buffer.limit ==> old(self).buffer.position
                < old(self).data@.len(),
        ensures
            (final(self).state(), r) == old(self).state().get(0u8),
    {
        if self.buffer.position < self.buffer.limit {
            let p = self.buffer.position;
            let byte = self.data[p];
            self.buffer.position = p + 1;
            byte
        } else {
            0
        }
    }
}

/// A buffer of single-precision floats, each held as its IEEE-754 bit
/// pattern (`f32::to_bits`); the buffer only stores and returns them.
#[derive(Debug, Clone)]
pub struct FloatBuffer {
    pub buffer: Buffer,
    pub data: Vec<u32>,
}

impl FloatBuffer {
    /// The buffer's state as the laws see it.
    pub open spec fn state(&self) -> BufState<u32> {
        BufState {
            capacity: self.buffer.capacity as int,
            position: self.buffer.position as int,
            limit: self.buffer.limit as int,
            data: self.data@,
        }
    }

    /// A buffer of `capacity` zeros (the bits of 0.0) with the whole block
    /// available.
    pub fn allocate(capacity: usize) -> (b: Self)
        ensures
            b.buffer.capacity == capacity,
            b.buffer.position == 0,
            b.buffer.limit == capacity,
            b.data@ == Seq::new(capacity as nat, |_i: int| 0u32),
    {
        let mut data: Vec<u32> = Vec::new();
        let mut i: usize = 0;
        while i < capacity
            invariant
                i <= capacity,
                data@ == Seq::new(i as nat, |_i: int| 0u32),
            decreases capacity - i,
        {
            data.push(0u32);
            i = i + 1;
            assert(data@ =~= Seq::new(i as nat, |_i: int| 0u32));
        }
        FloatBuffer { buffer: Buffer::new(capacity), data }
    }

    /// Stores the float with bit pattern `val` at the position and advances
    /// it, when the position is before the limit; does nothing otherwise.
    pub fn put(&mut self, val: u32)
        requires
            old(self).buffer.position < old(self).buffer.limit ==> old(self).buffer.position
                < old(self).data@.len(),
        ensures
            final(self).state() == old(self).state().put(val),
    {
        if self.buffer.position < self.buffer.limit {
            let p = self.buffer.position;
            self.data.set(p, val);
            self.buffer.position = p + 1;
        }
    }

    /// Returns the bit pattern at the position and advances it, when the
    /// position is before the limit; returns the bits of 0.0 otherwise.
    pub fn get(&mut self) -> (r: u32)
        requires
            old(self).buffer.position < old(self).buffer.limit ==> old(self).buffer.position
                < old(self).data@.len(),
        ensures
            (final(self).state(), r) == old(self).state().get(0u32),
    {
        if self.buffer.position < self.buffer.limit {
            let p = self.buffer.position;
            let v = self.data[p];
            self.buffer.position = p + 1;
            v
        } else {
            0
        }
    }
}

/// A buffer of 32-bit integers.
#[derive(Debug, Clone)]
pub struct IntBuffer {
    pub buffer: Buffer,
    pub data: Vec<i32>,
}

impl IntBuffer {
    /// The buffer's state as the laws see it.
    pub open spec fn state(&self) -> BufState<i32> {
        BufState {
            capacity: self.buffer.capacity as int,
            position: self.buffer.position as int,
            limit: self.buffer.limit as int,
            data: self.data@,
        }
    }

    /// A buffer of `capacity` zeros with the whole block available.
    pub fn allocate(capacity: usize) -> (b: Self)
        ensures
            b.buffer.capacity == capacity,
            b.buffer.position == 0,
            b.buffer.limit == capacity,
            b.data@ == Seq::new(capacity as nat, |_i: int| 0i32),
    {
        let mut data: Vec<i32> = Vec::new();
        let mut i: usize = 0;
        while i < capacity
            invariant
                i <= capacity,
                data@ == Seq::new(i as nat, |_i: int| 0i32),
            decreases capacity - i,
        {
            data.push(0i32);
            i = i + 1;
            assert(data@ =~= Seq::new(i as nat, |_i: int| 0i32));
        }
        IntBuffer { buffer: Buffer::new(capacity), data }
    }

    /// Stores `val` at the position and advances it, when the position is
    /// before the limit; does nothing otherwise.
    pub fn put(&mut self, val: i32)
        requires
            old(self).buffer.position < old(self).buffer.limit ==> old(self).buffer.position
                < old(self).data@.len(),
        ensures
            final(self).state() == old(self).state().put(val),
    {
        if self.buffer.position < self.buffer.limit {
            let p = self.buffer.position;
            self.data.set(p, val);
            self.buffer.position = p + 1;
        }
    }

    /// Returns the value at the position and advances it, when the position is
    /// before the limit; returns 0 otherwise.
    pub fn get(&mut self) -> (r: i32)
        requires
            old(self).buffer.position < old(self).buffer.limit ==> old(self).buffer.position
                < old(self).data@.len(),
        ensures
            (final(self).state(), r) == old(self).state().get(0i32),
    {
        if self.buffer.position < self.buffer.limit {
            let p = self.buffer.position;
            let v = self.data[p];
            self.buffer.position = p + 1;
            v
        } else {
            0
        }
    }
}

} // verus!
