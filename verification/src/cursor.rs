//! Little-endian reads over a borrowed byte slice.

use vstd::prelude::*;
use vstd::slice::slice_subrange;
use crate::error::WadError;

verus! {

/// The unsigned 16-bit value stored low byte first at `at`.
pub open spec fn le_u16(bytes: Seq<u8>, at: int) -> int {
    bytes[at] as int + 256 * (bytes[at + 1] as int)
}

/// The unsigned 32-bit value stored low byte first at `at`.
pub open spec fn le_u32(bytes: Seq<u8>, at: int) -> int {
    bytes[at] as int + 256 * (bytes[at + 1] as int) + 65536 * (bytes[at + 2] as int) + 16777216 * (
    bytes[at + 3] as int)
}

/// The signed 16-bit value stored low byte first at `at`, in two's complement.
pub open spec fn le_i16(bytes: Seq<u8>, at: int) -> int {
    if le_u16(bytes, at) < 32768 {
        le_u16(bytes, at)
    } else {
        le_u16(bytes, at) - 65536
    }
}

/// A read position over borrowed bytes. The bytes are never copied; every
/// read moves the position past what it consumed, and a failed read leaves
/// the position where it was.
pub struct ByteCursor<'a> {
    bytes: &'a [u8],
    pos: usize,
}

impl<'a> ByteCursor<'a> {
    /// The bytes under the cursor.
    pub closed spec fn data(&self) -> Seq<u8> {
        self.bytes@
    }

    /// The offset of the next byte to be read.
    pub closed spec fn position(&self) -> int {
        self.pos as int
    }

    #[verifier::type_invariant]
    spec fn within(&self) -> bool {
        self.pos <= self.bytes@.len()
    }

    /// How many bytes lie between the position and the end.
    pub open spec fn remaining(&self) -> int {
        self.data().len() - self.position()
    }

    /// A cursor at the start of `bytes`.
    pub fn new(bytes: &'a [u8]) -> (c: Self)
        ensures
            c.data() == bytes@,
            c.position() == 0,
            c.remaining() == bytes@.len(),
    {
        ByteCursor { bytes, pos: 0 }
    }

    /// The current offset.
    pub fn pos(&self) -> (p: usize)
        ensures
            p == self.position(),
            p <= self.data().len(),
    {
        proof {
            use_type_invariant(self);
        }
        self.pos
    }

    /// Moves to the absolute offset `offset`. An offset equal to the length
    /// is accepted: it is the position after the last byte.
    pub fn seek(&mut self, offset: u64) -> (r: Result<(), WadError>)
        ensures
            0 <= final(self).position() <= final(self).data().len(),
            final(self).data() == old(self).data(),
            offset <= old(self).data().len() ==> r is Ok && final(self).position() == offset,
            offset > old(self).data().len() ==> r == Err::<(), WadError>(WadError::OutOfRange)
                && final(self).position() == old(self).position(),
    {
        proof {
            use_type_invariant(&*self);
        }
        if offset > self.bytes.len() as u64 {
            return Err(WadError::OutOfRange);
        }
        self.pos = offset as usize;
        Ok(())
    }

    /// Reads one byte.
    pub fn read_u8(&mut self) -> (r: Result<u8, WadError>)
        ensures
            0 <= final(self).position() <= final(self).data().len(),
            final(self).data() == old(self).data(),
            old(self).remaining() >= 1 ==> r == Ok::<u8, WadError>(
                old(self).data()[old(self).position()],
            ) && final(self).position() == old(self).position() + 1,
            old(self).remaining() < 1 ==> r == Err::<u8, WadError>(WadError::Truncated)
                && final(self).position() == old(self).position(),
    {
        proof {
            use_type_invariant(&*self);
        }
        if self.bytes.len() - self.pos < 1 {
            return Err(WadError::Truncated);
        }
        let b: u8 = self.bytes[self.pos];
        self.pos = self.pos + 1;
        Ok(b)
    }

    /// Reads an unsigned 16-bit value, low byte first.
    pub fn read_u16(&mut self) -> (r: Result<u16, WadError>)
        ensures
            0 <= final(self).position() <= final(self).data().len(),
            final(self).data() == old(self).data(),
            old(self).remaining() >= 2 ==> r is Ok && r->Ok_0 == le_u16(
                old(self).data(),
                old(self).position(),
            ) && final(self).position() == old(self).position() + 2,
            old(self).remaining() < 2 ==> r == Err::<u16, WadError>(WadError::Truncated)
                && final(self).position() == old(self).position(),
    {
        proof {
            use_type_invariant(&*self);
        }
        if self.bytes.len() - self.pos < 2 {
            return Err(WadError::Truncated);
        }
        let lo: u16 = self.bytes[self.pos] as u16;
        let hi: u16 = self.bytes[self.pos + 1] as u16;
        self.pos = self.pos + 2;
        Ok(lo + 256 * hi)
    }

    /// Reads a signed 16-bit value, low byte first.
    pub fn read_i16(&mut self) -> (r: Result<i16, WadError>)
        ensures
            0 <= final(self).position() <= final(self).data().len(),
            final(self).data() == old(self).data(),
            old(self).remaining() >= 2 ==> r is Ok && r->Ok_0 == le_i16(
                old(self).data(),
                old(self).position(),
            ) && final(self).position() == old(self).position() + 2,
            old(self).remaining() < 2 ==> r == Err::<i16, WadError>(WadError::Truncated)
                && final(self).position() == old(self).position(),
    {
        match self.read_u16() {
            Ok(u) => {
                if u < 32768 {
                    Ok(u as i16)
                } else {
                    Ok((u as i32 - 65536) as i16)
                }
            },
            Err(e) => Err(e),
        }
    }

    /// Reads an unsigned 32-bit value, low byte first.
    pub fn read_u32(&mut self) -> (r: Result<u32, WadError>)
        ensures
            0 <= final(self).position() <= final(self).data().len(),
            final(self).data() == old(self).data(),
            old(self).remaining() >= 4 ==> r is Ok && r->Ok_0 == le_u32(
                old(self).data(),
                old(self).position(),
            ) && final(self).position() == old(self).position() + 4,
            old(self).remaining() < 4 ==> r == Err::<u32, WadError>(WadError::Truncated)
                && final(self).position() == old(self).position(),
    {
        proof {
            use_type_invariant(&*self);
        }
        if self.bytes.len() - self.pos < 4 {
            return Err(WadError::Truncated);
        }
        let b0: u32 = self.bytes[self.pos] as u32;
        let b1: u32 = self.bytes[self.pos + 1] as u32;
        let b2: u32 = self.bytes[self.pos + 2] as u32;
        let b3: u32 = self.bytes[self.pos + 3] as u32;
        self.pos = self.pos + 4;
        Ok(b0 + 256 * b1 + 65536 * b2 + 16777216 * b3)
    }

    /// Borrows the next `n` bytes.
    pub fn read_bytes(&mut self, n: usize) -> (r: Result<&'a [u8], WadError>)
        ensures
            0 <= final(self).position() <= final(self).data().len(),
            final(self).data() == old(self).data(),
            old(self).remaining() >= n ==> r is Ok && r->Ok_0@ == old(self).data().subrange(
                old(self).position(),
                old(self).position() + n,
            ) && final(self).position() == old(self).position() + n,
            old(self).remaining() < n ==> r is Err && r->Err_0 == WadError::Truncated
                && final(self).position() == old(self).position(),
    {
        proof {
            use_type_invariant(&*self);
        }
        if self.bytes.len() - self.pos < n {
            return Err(WadError::Truncated);
        }
        let out: &'a [u8] = slice_subrange(self.bytes, self.pos, self.pos + n);
        self.pos = self.pos + n;
        Ok(out)
    }
}

} // verus!
