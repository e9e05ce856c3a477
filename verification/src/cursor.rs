//! The byte cursor: a positioned, bounds-checked view over one received
//! buffer, with little-endian word reads and their byte-level meaning.

use vstd::prelude::*;
use vstd::bytes::{spec_u32_from_le_bytes, spec_u64_from_le_bytes, u32_from_le_bytes, u64_from_le_bytes};
use vstd::slice::{slice_subrange, slice_to_vec};
use crate::error::DecodeError;

verus! {

/// True when `n` bytes can be read at position `p` of the buffer `d`.
pub open spec fn can_read(d: Seq<u8>, p: int, n: int) -> bool {
    0 <= p && 0 <= n && p + n <= d.len()
}

/// `x` reinterpreted as a two's-complement signed 32-bit value.
pub open spec fn to_i32(x: u32) -> i32 {
    if x < 0x8000_0000 {
        x as i32
    } else {
        (x as int - 0x1_0000_0000) as i32
    }
}

/// `x` reinterpreted as a two's-complement signed 64-bit value.
pub open spec fn to_i64(x: u64) -> i64 {
    if x < 0x8000_0000_0000_0000 {
        x as i64
    } else {
        (x as int - 0x1_0000_0000_0000_0000) as i64
    }
}

/// The unsigned little-endian 32-bit word starting at byte offset `p` of `d`.
pub open spec fn spec_u32_at(d: Seq<u8>, p: int) -> u32 {
    spec_u32_from_le_bytes(d.subrange(p, p + 4))
}

/// The signed little-endian 32-bit word starting at byte offset `p` of `d`.
pub open spec fn spec_i32_at(d: Seq<u8>, p: int) -> i32 {
    to_i32(spec_u32_at(d, p))
}

/// The unsigned little-endian 64-bit word starting at byte offset `p` of `d`.
pub open spec fn spec_u64_at(d: Seq<u8>, p: int) -> u64 {
    spec_u64_from_le_bytes(d.subrange(p, p + 8))
}

/// The signed little-endian 64-bit word starting at byte offset `p` of `d`.
pub open spec fn spec_i64_at(d: Seq<u8>, p: int) -> i64 {
    to_i64(spec_u64_at(d, p))
}

fn i32_from_u32(x: u32) -> (r: i32)
    ensures
        r == to_i32(x),
{
    if x < 0x8000_0000 {
        x as i32
    } else {
        ((x as i64) - 0x1_0000_0000i64) as i32
    }
}

fn i64_from_u64(x: u64) -> (r: i64)
    ensures
        r == to_i64(x),
{
    if x < 0x8000_0000_0000_0000 {
        x as i64
    } else {
        ((x as i128) - 0x1_0000_0000_0000_0000i128) as i64
    }
}

/// A positioned view over an already-received, immutable byte buffer: the
/// byte cursor that every decoding step consumes. Reads are bounds-checked;
/// an underrun surfaces as `DecodeError::Truncated` and leaves the position
/// where it was.
pub struct Cursor {
    data: Vec<u8>,
    pos: usize,
}

impl Cursor {
    /// The bytes under the cursor.
    pub closed spec fn data(&self) -> Seq<u8> {
        self.data@
    }

    /// The current read position, in bytes from the start of the buffer.
    pub closed spec fn pos(&self) -> int {
        self.pos as int
    }

    /// The position never passes the end of the buffer.
    pub closed spec fn wf(&self) -> bool {
        self.pos <= self.data@.len()
    }

    pub fn new(data: Vec<u8>) -> (c: Cursor)
        ensures
            c.data() == data@,
            c.pos() == 0,
            c.wf(),
    {
        Cursor { data, pos: 0 }
    }

    pub fn position(&self) -> (p: usize)
        ensures
            p == self.pos(),
    {
        self.pos
    }

    pub fn data_size(&self) -> (n: usize)
        ensures
            n == self.data().len(),
    {
        self.data.len()
    }

    /// How many bytes remain between the position and the end of the buffer.
    pub fn remaining_size(&self) -> (n: usize)
        requires
            self.wf(),
        ensures
            n == self.data().len() - self.pos(),
    {
        self.data.len() - self.pos
    }

    /// Read `n` raw bytes and advance past them.
    pub fn read_bytes(&mut self, n: usize) -> (r: Result<Vec<u8>, DecodeError>)
        requires
            old(self).wf(),
        ensures
            final(self).data() == old(self).data(),
            final(self).wf(),
            can_read(old(self).data(), old(self).pos(), n as int) ==> {
                &&& r matches Ok(v) && v@ == old(self).data().subrange(
                    old(self).pos(),
                    old(self).pos() + n,
                )
                &&& final(self).pos() == old(self).pos() + n
            },
            !can_read(old(self).data(), old(self).pos(), n as int) ==> {
                &&& r == Err::<Vec<u8>, DecodeError>(DecodeError::Truncated)
                &&& final(self).pos() == old(self).pos()
            },
    {
        if n <= self.data.len() - self.pos {
            let s = slice_subrange(self.data.as_slice(), self.pos, self.pos + n);
            let v = slice_to_vec(s);
            self.pos = self.pos + n;
            Ok(v)
        } else {
            Err(DecodeError::Truncated)
        }
    }

    /// Read one unsigned little-endian 32-bit word.
    pub fn read_u32(&mut self) -> (r: Result<u32, DecodeError>)
        requires
            old(self).wf(),
        ensures
            final(self).data() == old(self).data(),
            final(self).wf(),
            can_read(old(self).data(), old(self).pos(), 4) ==> {
                &&& r == Ok::<u32, DecodeError>(spec_u32_at(old(self).data(), old(self).pos()))
                &&& final(self).pos() == old(self).pos() + 4
            },
            !can_read(old(self).data(), old(self).pos(), 4) ==> {
                &&& r == Err::<u32, DecodeError>(DecodeError::Truncated)
                &&& final(self).pos() == old(self).pos()
            },
    {
        if 4 <= self.data.len() - self.pos {
            let s = slice_subrange(self.data.as_slice(), self.pos, self.pos + 4);
            let v = u32_from_le_bytes(s);
            self.pos = self.pos + 4;
            Ok(v)
        } else {
            Err(DecodeError::Truncated)
        }
    }

    /// Read one signed little-endian 32-bit word.
    pub fn read_i32(&mut self) -> (r: Result<i32, DecodeError>)
        requires
            old(self).wf(),
        ensures
            final(self).data() == old(self).data(),
            final(self).wf(),
            can_read(old(self).data(), old(self).pos(), 4) ==> {
                &&& r == Ok::<i32, DecodeError>(spec_i32_at(old(self).data(), old(self).pos()))
                &&& final(self).pos() == old(self).pos() + 4
            },
            !can_read(old(self).data(), old(self).pos(), 4) ==> {
                &&& r == Err::<i32, DecodeError>(DecodeError::Truncated)
                &&& final(self).pos() == old(self).pos()
            },
    {
        match self.read_u32() {
            Ok(v) => Ok(i32_from_u32(v)),
            Err(e) => Err(e),
        }
    }

    /// Read one signed little-endian 64-bit word.
    pub fn read_i64(&mut self) -> (r: Result<i64, DecodeError>)
        requires
            old(self).wf(),
        ensures
            final(self).data() == old(self).data(),
            final(self).wf(),
            can_read(old(self).data(), old(self).pos(), 8) ==> {
                &&& r == Ok::<i64, DecodeError>(spec_i64_at(old(self).data(), old(self).pos()))
                &&& final(self).pos() == old(self).pos() + 8
            },
            !can_read(old(self).data(), old(self).pos(), 8) ==> {
                &&& r == Err::<i64, DecodeError>(DecodeError::Truncated)
                &&& final(self).pos() == old(self).pos()
            },
    {
        if 8 <= self.data.len() - self.pos {
            let s = slice_subrange(self.data.as_slice(), self.pos, self.pos + 8);
            let v = u64_from_le_bytes(s);
            self.pos = self.pos + 8;
            Ok(i64_from_u64(v))
        } else {
            Err(DecodeError::Truncated)
        }
    }
}

} // verus!
