//! Reading a container's bytes: a cursor over a byte slice, and the
//! little-endian integers of the wire format.

use crate::report::ExtractError;
use byteorder::{ByteOrder, LittleEndian};
use vstd::prelude::*;
use vstd::slice::slice_subrange;

verus! {

/// The number that two bytes stand for, least significant byte first.
pub open spec fn le_u16(b: Seq<u8>) -> int
    recommends
        b.len() >= 2,
{
    b[0] + 0x100 * b[1]
}

/// The number that four bytes stand for, least significant byte first.
pub open spec fn le_u32(b: Seq<u8>) -> int
    recommends
        b.len() >= 4,
{
    b[0] + 0x100 * b[1] + 0x1_0000 * b[2] + 0x100_0000 * b[3]
}

/// `data` holds `n` bytes from `pos` on.
pub open spec fn has_bytes(data: Seq<u8>, pos: int, n: int) -> bool {
    0 <= pos && 0 <= n && pos + n <= data.len()
}

/// The `n` bytes of `data` from `pos` on.
pub open spec fn bytes_at(data: Seq<u8>, pos: int, n: int) -> Seq<u8>
    recommends
        has_bytes(data, pos, n),
{
    data.subrange(pos, pos + n)
}

/// The bytes of `data` from `pos` on, at most `limit` of them. Past the end there are none.
pub open spec fn window(data: Seq<u8>, pos: int, limit: int) -> Seq<u8>
    recommends
        0 <= pos,
        0 <= limit,
{
    if pos >= data.len() {
        Seq::empty()
    } else if pos + limit >= data.len() {
        data.skip(pos)
    } else {
        data.subrange(pos, pos + limit)
    }
}

/// Reads an unsigned 16-bit integer with `byteorder`'s
/// `LittleEndian::read_u16`: the first two bytes of `buf`, least significant first.
#[verifier::external_body]
fn decode_u16(buf: &[u8]) -> (value: u16)
    requires
        buf@.len() >= 2,
    ensures
        value == le_u16(buf@),
{
    LittleEndian::read_u16(buf)
}

/// Reads an unsigned 32-bit integer with `byteorder`'s
/// `LittleEndian::read_u32`: the first four bytes of `buf`, least significant first.
#[verifier::external_body]
fn decode_u32(buf: &[u8]) -> (value: u32)
    requires
        buf@.len() >= 4,
    ensures
        value == le_u32(buf@),
{
    LittleEndian::read_u32(buf)
}

/// Tells whether two byte slices hold the same bytes.
pub fn bytes_eq(a: &[u8], b: &[u8]) -> (same: bool)
    ensures
        same == (a@ == b@),
{
    if a.len() != b.len() {
        return false;
    }
    let mut i: usize = 0;
    while i < a.len()
        invariant
            i <= a@.len(),
            a@.len() == b@.len(),
            a@.take(i as int) == b@.take(i as int),
        decreases a@.len() - i,
    {
        if a[i] != b[i] {
            return false;
        }
        i += 1;
    }
    assert(a@.take(a@.len() as int) == a@);
    assert(b@.take(b@.len() as int) == b@);
    true
}

/// A cursor over the bytes of a container.
pub struct ByteReader<'a> {
    data: &'a [u8],
    pos: usize,
}

impl<'a> ByteReader<'a> {
    /// The bytes that the cursor moves over.
    pub closed spec fn source(&self) -> Seq<u8> {
        self.data@
    }

    /// How many bytes lie before the cursor.
    pub closed spec fn position(&self) -> int {
        self.pos as int
    }

    /// The cursor lies inside its bytes or at their end.
    pub open spec fn wf(&self) -> bool {
        0 <= self.position() <= self.source().len()
    }

    /// The bytes from the cursor on.
    pub open spec fn remaining(&self) -> Seq<u8> {
        self.source().skip(self.position())
    }

    /// A cursor at the start of `data`.
    pub fn new(data: &'a [u8]) -> (reader: ByteReader<'a>)
        ensures
            reader.wf(),
            reader.source() == data@,
            reader.position() == 0,
    {
        ByteReader { data, pos: 0 }
    }

    /// Moves the cursor to `offset`, or to the end where `offset` lies beyond it:
    /// there is nothing to read from either place.
    pub fn seek(&mut self, offset: u64)
        requires
            old(self).wf(),
        ensures
            final(self).wf(),
            final(self).source() == old(self).source(),
            final(self).position() == if offset <= old(self).source().len() {
                offset as int
            } else {
                old(self).source().len() as int
            },
    {
        if offset <= self.data.len() as u64 {
            self.pos = offset as usize;
        } else {
            self.pos = self.data.len();
        }
    }

    /// The next `n` bytes, with the cursor moved behind them. Where fewer
    /// are left, nothing is read.
    pub fn read_exact(&mut self, n: usize) -> (bytes: Result<&'a [u8], ExtractError>)
        requires
            old(self).wf(),
        ensures
            final(self).wf(),
            final(self).source() == old(self).source(),
            bytes is Ok <==> n <= old(self).remaining().len(),
            bytes matches Ok(b) ==> b@ == bytes_at(old(self).source(), old(self).position(), n as int)
                && final(self).position() == old(self).position() + n,
            bytes matches Err(e) ==> e == ExtractError::UnexpectedEof && final(self).position()
                == old(self).position(),
    {
        if n > self.data.len() - self.pos {
            return Err(ExtractError::UnexpectedEof);
        }
        let bytes = slice_subrange(self.data, self.pos, self.pos + n);
        self.pos = self.pos + n;
        Ok(bytes)
    }

    /// The next byte.
    pub fn read_u8(&mut self) -> (value: Result<u8, ExtractError>)
        requires
            old(self).wf(),
        ensures
            final(self).wf(),
            final(self).source() == old(self).source(),
            value is Ok <==> 1 <= old(self).remaining().len(),
            value matches Ok(v) ==> v == old(self).source()[old(self).position()]
                && final(self).position() == old(self).position() + 1,
            value matches Err(e) ==> e == ExtractError::UnexpectedEof && final(self).position()
                == old(self).position(),
    {
        match self.read_exact(1) {
            Ok(bytes) => Ok(bytes[0]),
            Err(e) => Err(e),
        }
    }

    /// The next two bytes as a little-endian integer.
    pub fn read_u16(&mut self) -> (value: Result<u16, ExtractError>)
        requires
            old(self).wf(),
        ensures
            final(self).wf(),
            final(self).source() == old(self).source(),
            value is Ok <==> 2 <= old(self).remaining().len(),
            value matches Ok(v) ==> v == le_u16(
                bytes_at(old(self).source(), old(self).position(), 2),
            ) && final(self).position() == old(self).position() + 2,
            value matches Err(e) ==> e == ExtractError::UnexpectedEof && final(self).position()
                == old(self).position(),
    {
        match self.read_exact(2) {
            Ok(bytes) => Ok(decode_u16(bytes)),
            Err(e) => Err(e),
        }
    }

    /// The next four bytes as a little-endian integer.
    pub fn read_u32(&mut self) -> (value: Result<u32, ExtractError>)
        requires
            old(self).wf(),
        ensures
            final(self).wf(),
            final(self).source() == old(self).source(),
            value is Ok <==> 4 <= old(self).remaining().len(),
            value matches Ok(v) ==> v == le_u32(
                bytes_at(old(self).source(), old(self).position(), 4),
            ) && final(self).position() == old(self).position() + 4,
            value matches Err(e) ==> e == ExtractError::UnexpectedEof && final(self).position()
                == old(self).position(),
    {
        match self.read_exact(4) {
            Ok(bytes) => Ok(decode_u32(bytes)),
            Err(e) => Err(e),
        }
    }

    /// The next bytes, at most `limit` of them, with the cursor moved behind
    /// them. Nothing comes back only where `limit` is zero or nothing is left.
    pub fn read(&mut self, limit: usize) -> (bytes: &'a [u8])
        requires
            old(self).wf(),
        ensures
            final(self).wf(),
            final(self).source() == old(self).source(),
            bytes@ == window(old(self).source(), old(self).position(), limit as int),
            final(self).position() == old(self).position() + bytes@.len(),
    {
        let left: usize = self.data.len() - self.pos;
        let count: usize = if limit < left {
            limit
        } else {
            left
        };
        let bytes = slice_subrange(self.data, self.pos, self.pos + count);
        self.pos = self.pos + count;
        bytes
    }

    /// The bytes from the cursor on, at most `limit` of them. The cursor stays.
    pub fn take(&self, limit: u64) -> (bytes: &'a [u8])
        requires
            self.wf(),
        ensures
            bytes@ == window(self.source(), self.position(), limit as int),
    {
        let left: usize = self.data.len() - self.pos;
        if limit >= left as u64 {
            let bytes = slice_subrange(self.data, self.pos, self.data.len());
            bytes
        } else {
            slice_subrange(self.data, self.pos, self.pos + limit as usize)
        }
    }
}

} // verus!
