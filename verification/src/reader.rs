//! A seekable, sequential reader over the bytes of one container.

use vstd::prelude::*;
use crate::error::FormatError;

verus! {

/// What a read of `count` bytes at position `pos` of `bytes` gives: the bytes
/// themselves, or `Truncated` where fewer than `count` are left.
pub open spec fn take(bytes: Seq<u8>, pos: int, count: int) -> Result<Seq<u8>, FormatError> {
    if 0 <= pos && 0 <= count && pos + count <= bytes.len() {
        Ok(bytes.subrange(pos, pos + count))
    } else {
        Err(FormatError::Truncated { offset: pos as u64, wanted: count as u64 })
    }
}

/// The unsigned 32-bit number that four bytes hold, lowest byte first.
pub open spec fn le_u32(b: Seq<u8>) -> int {
    b[0] + 256 * b[1] + 65536 * b[2] + 16777216 * b[3]
}

/// The unsigned 16-bit number that two bytes hold, lowest byte first.
pub open spec fn le_u16(b: Seq<u8>) -> int {
    b[0] + 256 * b[1]
}

/// The bytes of a container together with a read position. The position may
/// lie beyond the end; a read there fails.
pub struct ByteReader {
    data: Vec<u8>,
    pos: u64,
}

impl ByteReader {
    /// The bytes of the container.
    pub closed spec fn bytes(&self) -> Seq<u8> {
        self.data@
    }

    /// The position of the next read, counted from the start.
    pub closed spec fn position(&self) -> u64 {
        self.pos
    }

    /// A reader over `data`, positioned at its start.
    pub fn new(data: Vec<u8>) -> (reader: ByteReader)
        ensures
            reader.bytes() == data@,
            reader.position() == 0,
    {
        ByteReader { data, pos: 0 }
    }

    /// The number of bytes in the container.
    pub fn len(&self) -> (n: usize)
        ensures
            n == self.bytes().len(),
    {
        self.data.len()
    }

    /// The position of the next read.
    pub fn stream_position(&self) -> (pos: u64)
        ensures
            pos == self.position(),
    {
        self.pos
    }

    /// Moves the read position to `offset`, counted from the start.
    pub fn seek(&mut self, offset: u64)
        ensures
            final(self).bytes() == old(self).bytes(),
            final(self).position() == offset,
    {
        self.pos = offset;
    }

    /// Whether `count` bytes can be read at the current position.
    pub fn has(&self, count: usize) -> (enough: bool)
        ensures
            enough == (self.position() + count <= self.bytes().len()),
    {
        let len: usize = self.data.len();
        self.pos <= len as u64 && count <= len - (self.pos as usize)
    }

    /// Reads exactly `count` bytes and moves past them. Where fewer are left
    /// the read fails and the position stays.
    pub fn read_exact(&mut self, count: usize) -> (read: Result<Vec<u8>, FormatError>)
        ensures
            final(self).bytes() == old(self).bytes(),
            match read {
                Ok(got) => {
                    &&& take(old(self).bytes(), old(self).position() as int, count as int) == Ok::<
                        Seq<u8>,
                        FormatError,
                    >(got@)
                    &&& final(self).position() == old(self).position() + count
                },
                Err(e) => {
                    &&& take(old(self).bytes(), old(self).position() as int, count as int) == Err::<
                        Seq<u8>,
                        FormatError,
                    >(e)
                    &&& final(self).position() == old(self).position()
                },
            },
    {
        if !self.has(count) {
            return Err(FormatError::Truncated { offset: self.pos, wanted: count as u64 });
        }
        let len: usize = self.data.len();
        let start: usize = self.pos as usize;
        let mut got: Vec<u8> = Vec::new();
        let mut i: usize = 0;
        while i < count
            invariant
                i <= count,
                start + count <= len,
                len == self.data@.len(),
                got@ == self.data@.subrange(start as int, start + i),
            decreases count - i,
        {
            got.push(self.data[start + i]);
            i += 1;
        }
        self.pos = self.pos + count as u64;
        Ok(got)
    }

    /// Reads four bytes as an unsigned 32-bit number, lowest byte first.
    pub fn read_u32_le(&mut self) -> (read: Result<u32, FormatError>)
        ensures
            final(self).bytes() == old(self).bytes(),
            match read {
                Ok(value) => {
                    &&& take(old(self).bytes(), old(self).position() as int, 4) is Ok
                    &&& value == le_u32(take(old(self).bytes(), old(self).position() as int, 4)->Ok_0)
                    &&& final(self).position() == old(self).position() + 4
                },
                Err(e) => {
                    &&& take(old(self).bytes(), old(self).position() as int, 4) == Err::<
                        Seq<u8>,
                        FormatError,
                    >(e)
                    &&& final(self).position() == old(self).position()
                },
            },
    {
        if !self.has(4) {
            return Err(FormatError::Truncated { offset: self.pos, wanted: 4 });
        }
        let len: usize = self.data.len();
        let at: usize = self.pos as usize;
        let b0: u32 = self.data[at] as u32;
        let b1: u32 = self.data[at + 1] as u32;
        let b2: u32 = self.data[at + 2] as u32;
        let b3: u32 = self.data[at + 3] as u32;
        self.pos = self.pos + 4;
        Ok(b0 + 256 * b1 + 65536 * b2 + 16777216 * b3)
    }
}

} // verus!
