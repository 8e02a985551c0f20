//! Byte buffers for the wire codec: an append-only `Writer` that encoders
//! fill, and a cursor-based `Reader` that decoders consume.

use vstd::prelude::*;

verus! {

/// An append-only output buffer. Its view is the sequence of bytes written
/// so far.
pub struct Writer {
    pub bytes: Vec<u8>,
}

impl View for Writer {
    type V = Seq<u8>;

    open spec fn view(&self) -> Seq<u8> {
        self.bytes@
    }
}

impl Writer {
    /// Creates an empty output buffer.
    pub fn new() -> (w: Writer)
        ensures
            w@ == Seq::<u8>::empty(),
    {
        Writer { bytes: Vec::new() }
    }

    /// Appends a single byte.
    pub fn push(&mut self, byte: u8)
        ensures
            final(self)@ == old(self)@.push(byte),
    {
        self.bytes.push(byte);
    }

    /// Appends every byte of `data` in order.
    pub fn put_vec(&mut self, data: &Vec<u8>)
        ensures
            final(self)@ == old(self)@ + data@,
    {
        let n = data.len();
        let mut i: usize = 0;
        while i < n
            invariant
                i <= n,
                n == data@.len(),
                self@ == old(self)@ + data@.take(i as int),
            decreases n - i,
        {
            self.bytes.push(data[i]);
            i = i + 1;
            assert(data@.take(i as int) == data@.take(i - 1).push(data@[i - 1]));
        }
        assert(data@.take(n as int) == data@);
    }

    /// Appends `count` copies of `byte`.
    pub fn fill(&mut self, byte: u8, count: usize)
        ensures
            final(self)@ == old(self)@ + Seq::new(count as nat, |i: int| byte),
    {
        let mut i: usize = 0;
        while i < count
            invariant
                i <= count,
                self@ == old(self)@ + Seq::new(i as nat, |j: int| byte),
            decreases count - i,
        {
            self.bytes.push(byte);
            i = i + 1;
            assert(Seq::new(i as nat, |j: int| byte) =~= Seq::new((i - 1) as nat, |j: int| byte).push(byte));
        }
    }

    /// Number of bytes written so far.
    pub fn len(&self) -> (n: usize)
        ensures
            n == self@.len(),
    {
        self.bytes.len()
    }

    /// Hands the written bytes over as a plain vector.
    pub fn into_vec(self) -> (v: Vec<u8>)
        ensures
            v@ == self@,
    {
        self.bytes
    }

    /// Borrows the written bytes.
    pub fn as_vec(&self) -> (v: &Vec<u8>)
        ensures
            v@ == self@,
    {
        &self.bytes
    }
}

/// An input buffer with a read cursor. Reads only advance the cursor; the
/// underlying bytes never change.
pub struct Reader {
    pub bytes: Vec<u8>,
    pub pos: usize,
}

impl Reader {
    /// The whole underlying byte sequence, independent of the cursor.
    pub open spec fn data_spec(&self) -> Seq<u8> {
        self.bytes@
    }

    /// The cursor: how many bytes have been consumed.
    pub open spec fn pos_spec(&self) -> int {
        self.pos as int
    }

    /// The cursor never runs past the end of the data.
    pub open spec fn wf(&self) -> bool {
        self.pos <= self.bytes@.len()
    }

    /// The bytes not yet consumed.
    pub open spec fn remaining_spec(&self) -> Seq<u8> {
        self.bytes@.skip(self.pos as int)
    }

    /// Starts reading `data` from its first byte.
    pub fn new(data: Vec<u8>) -> (r: Reader)
        ensures
            r.wf(),
            r.data_spec() == data@,
            r.pos_spec() == 0,
            r.remaining_spec() == data@,
    {
        let r = Reader { bytes: data, pos: 0 };
        proof {
            assert(r.remaining_spec() =~= r.bytes@);
        }
        r
    }

    /// Number of bytes not yet consumed.
    pub fn remaining_len(&self) -> (n: usize)
        requires
            self.wf(),
        ensures
            n == self.remaining_spec().len(),
    {
        self.bytes.len() - self.pos
    }

    /// True when every byte has been consumed.
    pub fn is_empty(&self) -> (b: bool)
        requires
            self.wf(),
        ensures
            b == (self.remaining_spec().len() == 0),
    {
        self.pos == self.bytes.len()
    }

    /// Consumes and returns the next byte.
    pub fn take_byte(&mut self) -> (b: u8)
        requires
            old(self).wf(),
            old(self).remaining_spec().len() > 0,
        ensures
            final(self).wf(),
            final(self).data_spec() == old(self).data_spec(),
            final(self).pos_spec() == old(self).pos_spec() + 1,
            b == old(self).remaining_spec()[0],
            final(self).remaining_spec() == old(self).remaining_spec().skip(1),
    {
        let n = self.bytes.len();
        assert(self.pos < n);
        let b = self.bytes[self.pos];
        self.pos = self.pos + 1;
        proof {
            assert(final(self).remaining_spec() =~= old(self).remaining_spec().skip(1));
        }
        b
    }

    /// Consumes the next `count` bytes and returns them as a vector.
    pub fn take_vec(&mut self, count: usize) -> (v: Vec<u8>)
        requires
            old(self).wf(),
            count <= old(self).remaining_spec().len(),
        ensures
            final(self).wf(),
            final(self).data_spec() == old(self).data_spec(),
            final(self).pos_spec() == old(self).pos_spec() + count,
            v@ == old(self).remaining_spec().take(count as int),
            final(self).remaining_spec() == old(self).remaining_spec().skip(count as int),
    {
        let n = self.bytes.len();
        assert(self.pos + count <= n);
        let mut v: Vec<u8> = Vec::new();
        let mut i: usize = 0;
        while i < count
            invariant
                i <= count,
                self.wf(),
                self == old(self),
                n == self.data_spec().len(),
                self.pos + count <= n,
                count <= self.remaining_spec().len(),
                v@ == self.remaining_spec().take(count as int).take(i as int),
            decreases count - i,
        {
            v.push(self.bytes[self.pos + i]);
            i = i + 1;
            proof {
                let rem = self.remaining_spec().take(count as int);
                assert(rem.take(i as int) =~= rem.take(i - 1).push(rem[i - 1]));
            }
        }
        proof {
            let rem = old(self).remaining_spec();
            assert(rem.take(count as int).take(count as int) =~= rem.take(count as int));
        }
        assert(self.pos + count <= n);
        self.pos = self.pos + count;
        proof {
            assert(final(self).remaining_spec() =~= old(self).remaining_spec().skip(count as int));
        }
        v
    }

    /// Advances the cursor by `count` bytes without looking at them.
    pub fn advance(&mut self, count: usize)
        requires
            old(self).wf(),
            count <= old(self).remaining_spec().len(),
        ensures
            final(self).wf(),
            final(self).data_spec() == old(self).data_spec(),
            final(self).pos_spec() == old(self).pos_spec() + count,
            final(self).remaining_spec() == old(self).remaining_spec().skip(count as int),
    {
        let n = self.bytes.len();
        assert(self.pos + count <= n);
        self.pos = self.pos + count;
        proof {
            assert(final(self).remaining_spec() =~= old(self).remaining_spec().skip(count as int));
        }
    }
}

} // verus!
