//! Sequential reading of a byte buffer.
use vstd::prelude::*;
use vstd::string::StringSliceAdditionalSpecFns;

verus! {

/// Failure to decode a value.
#[derive(Clone, Debug, PartialEq, Eq)]
pub struct ParseError(pub String);

pub type M8Result<T> = Result<T, ParseError>;

/// A byte buffer and the position of the next byte to read.
pub struct Reader {
    pub buffer: Vec<u8>,
    pub position: usize,
}

impl Reader {
    /// Bytes left to read.
    pub open spec fn remaining(&self) -> int {
        self.buffer@.len() - self.position
    }

    /// The byte `k` places after the position.
    pub open spec fn ahead(&self, k: int) -> u8 {
        self.buffer@[self.position + k]
    }

    pub open spec fn advanced(&self, before: &Reader, n: int) -> bool {
        self.buffer@ == before.buffer@ && self.position == before.position + n
    }

    pub fn new(buffer: Vec<u8>) -> (r: Reader)
        ensures
            r.buffer@ == buffer@,
            r.position == 0,
    {
        Reader { buffer, position: 0 }
    }

    /// The next byte.
    pub fn read(&mut self) -> (r: u8)
        requires
            old(self).position < old(self).buffer@.len(),
        ensures
            r == old(self).ahead(0),
            final(self).advanced(old(self), 1),
    {
        let r = self.buffer[self.position];
        assert(self.position < self.buffer.len());
        self.position += 1;
        r
    }

    /// The next byte, as a flag: anything but zero is true.
    pub fn read_bool(&mut self) -> (r: bool)
        requires
            old(self).position < old(self).buffer@.len(),
        ensures
            r == (old(self).ahead(0) != 0),
            final(self).advanced(old(self), 1),
    {
        self.read() != 0
    }

    /// The next `n` bytes.
    pub fn read_bytes(&mut self, n: usize) -> (r: Vec<u8>)
        requires
            old(self).remaining() >= n,
        ensures
            r@ == old(self).buffer@.subrange(old(self).position as int, old(self).position + n),
            final(self).advanced(old(self), n as int),
    {
        let mut r: Vec<u8> = Vec::new();
        let start = self.position;
        let mut i: usize = 0;
        while i < n
            invariant
                i <= n,
                start + n <= self.buffer@.len(),
                self.buffer@ == old(self).buffer@,
                start == old(self).position,
                self.position == start + i,
                r@ == self.buffer@.subrange(start as int, start + i),
            decreases n - i,
        {
            let b = self.buffer[self.position];
            assert(self.position < self.buffer.len());
            r.push(b);
            self.position += 1;
            i += 1;
            assert(r@ =~= self.buffer@.subrange(start as int, start + i));
        }
        r
    }
}

/// A byte buffer written from the front.
pub struct Writer {
    pub buffer: Vec<u8>,
}

/// `b` cut or padded with zero bytes to `n` bytes.
pub open spec fn fixed_bytes(b: Seq<u8>, n: nat) -> Seq<u8> {
    Seq::new(n, |i: int| if i < b.len() { b[i] } else { 0u8 })
}

impl Writer {
    pub fn new() -> (r: Writer)
        ensures
            r.buffer@.len() == 0,
    {
        Writer { buffer: Vec::new() }
    }

    pub fn write(&mut self, b: u8)
        ensures
            final(self).buffer@ == old(self).buffer@.push(b),
    {
        self.buffer.push(b);
    }

    /// The UTF-8 bytes of `s` in a field of `n` bytes.
    pub fn write_string(&mut self, s: &str, n: usize)
        ensures
            final(self).buffer@ == old(self).buffer@ + fixed_bytes(s.spec_bytes(), n as nat),
    {
        let bytes = s.as_bytes();
        let mut i: usize = 0;
        while i < n
            invariant
                i <= n,
                bytes@ == s.spec_bytes(),
                self.buffer@ == old(self).buffer@ + fixed_bytes(s.spec_bytes(), i as nat),
            decreases n - i,
        {
            let b = if i < bytes.len() { bytes[i] } else { 0u8 };
            self.buffer.push(b);
            i += 1;
            assert(self.buffer@ =~= old(self).buffer@ + fixed_bytes(s.spec_bytes(), i as nat));
        }
    }
}

} // verus!
