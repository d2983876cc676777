use vstd::prelude::*;
use vstd::slice::{slice_subrange, slice_to_vec};
use crate::error::ErrorKind;

verus! {

/// The little-endian unsigned 16-bit integer stored at `p`.
pub open spec fn le16(s: Seq<u8>, p: int) -> u16 {
    (s[p] as int + s[p + 1] as int * 0x100) as u16
}

/// The little-endian unsigned 32-bit integer stored at `p`.
pub open spec fn le32(s: Seq<u8>, p: int) -> u32 {
    (s[p] as int + s[p + 1] as int * 0x100 + s[p + 2] as int * 0x1_0000 + s[p + 3] as int
        * 0x100_0000) as u32
}

/// The little-endian unsigned 64-bit integer stored at `p`.
pub open spec fn le64(s: Seq<u8>, p: int) -> u64 {
    (le32(s, p) as int + le32(s, p + 4) as int * 0x1_0000_0000) as u64
}

/// A 32-bit value read as two's complement.
pub open spec fn as_signed(v: u32) -> i32 {
    if v < 0x8000_0000 {
        v as i32
    } else {
        (v as int - 0x1_0000_0000) as i32
    }
}

/// The little-endian signed 32-bit integer stored at `p`.
pub open spec fn le_i32(s: Seq<u8>, p: int) -> i32 {
    as_signed(le32(s, p))
}

/// A read position over a byte buffer that the cursor does not own: reads are
/// allowed in `[pos, end)`.
#[derive(Debug, Clone, Copy, PartialEq, Eq, Structural)]
pub struct Cursor {
    pub pos: usize,
    pub end: usize,
}

/// Reads the little-endian `u16` at `p`.
pub fn u16_at(buf: &[u8], p: usize) -> (r: u16)
    requires
        p + 2 <= buf@.len(),
    ensures
        r == le16(buf@, p as int),
{
    buf[p] as u16 + (buf[p + 1] as u16) * 0x100
}

/// Reads the little-endian `u32` at `p`.
pub fn u32_at(buf: &[u8], p: usize) -> (r: u32)
    requires
        p + 4 <= buf@.len(),
    ensures
        r == le32(buf@, p as int),
{
    buf[p] as u32 + (buf[p + 1] as u32) * 0x100 + (buf[p + 2] as u32) * 0x1_0000 + (buf[p
        + 3] as u32) * 0x100_0000
}

/// Reads the little-endian `u64` at `p`.
pub fn u64_at(buf: &[u8], p: usize) -> (r: u64)
    requires
        p + 8 <= buf@.len(),
    ensures
        r == le64(buf@, p as int),
{
    let len = buf.len();
    assert(p + 4 <= len);
    let lo = u32_at(buf, p) as u64;
    let hi = u32_at(buf, p + 4) as u64;
    lo + hi * 0x1_0000_0000
}

/// Reads the little-endian two's complement `i32` at `p`.
pub fn i32_at(buf: &[u8], p: usize) -> (r: i32)
    requires
        p + 4 <= buf@.len(),
    ensures
        r == le_i32(buf@, p as int),
{
    let v = u32_at(buf, p);
    if v < 0x8000_0000 {
        v as i32
    } else {
        let below: u32 = 0xFFFF_FFFF - v;
        -(below as i32) - 1
    }
}

impl Cursor {
    /// A cursor over `[pos, end)`.
    pub open spec fn wf(&self, buf: Seq<u8>) -> bool {
        self.pos <= self.end <= buf.len()
    }

    /// Number of bytes still readable.
    pub fn remaining(&self) -> (r: usize)
        requires
            self.pos <= self.end,
        ensures
            r == self.end - self.pos,
    {
        self.end - self.pos
    }

    /// Moves past `n` bytes without reading them.
    pub fn skip(&mut self, buf: &[u8], n: usize) -> (r: Result<(), ErrorKind>)
        requires
            old(self).wf(buf@),
        ensures
            final(self).wf(buf@),
            final(self).end == old(self).end,
            r is Ok <==> old(self).pos + n <= old(self).end,
            r is Ok ==> final(self).pos == old(self).pos + n,
            r is Err ==> final(self).pos == old(self).pos && r->Err_0 == ErrorKind::UnexpectedEnd,
    {
        if n > self.end - self.pos {
            Err(ErrorKind::UnexpectedEnd)
        } else {
            self.pos = self.pos + n;
            Ok(())
        }
    }

    /// Reads one byte.
    pub fn read_u8(&mut self, buf: &[u8]) -> (r: Result<u8, ErrorKind>)
        requires
            old(self).wf(buf@),
        ensures
            final(self).wf(buf@),
            final(self).end == old(self).end,
            r is Ok <==> old(self).pos + 1 <= old(self).end,
            r is Ok ==> final(self).pos == old(self).pos + 1 && r->Ok_0 == buf@[old(self).pos as int],
            r is Err ==> final(self).pos == old(self).pos && r->Err_0 == ErrorKind::UnexpectedEnd,
    {
        if self.end - self.pos < 1 {
            Err(ErrorKind::UnexpectedEnd)
        } else {
            let v = buf[self.pos];
            self.pos = self.pos + 1;
            Ok(v)
        }
    }

    /// Reads a little-endian `u16`.
    pub fn read_u16(&mut self, buf: &[u8]) -> (r: Result<u16, ErrorKind>)
        requires
            old(self).wf(buf@),
        ensures
            final(self).wf(buf@),
            final(self).end == old(self).end,
            r is Ok <==> old(self).pos + 2 <= old(self).end,
            r is Ok ==> final(self).pos == old(self).pos + 2 && r->Ok_0 == le16(buf@, old(self).pos as int),
            r is Err ==> final(self).pos == old(self).pos && r->Err_0 == ErrorKind::UnexpectedEnd,
    {
        if self.end - self.pos < 2 {
            Err(ErrorKind::UnexpectedEnd)
        } else {
            let v = u16_at(buf, self.pos);
            self.pos = self.pos + 2;
            Ok(v)
        }
    }

    /// Reads a little-endian `u32`.
    pub fn read_u32(&mut self, buf: &[u8]) -> (r: Result<u32, ErrorKind>)
        requires
            old(self).wf(buf@),
        ensures
            final(self).wf(buf@),
            final(self).end == old(self).end,
            r is Ok <==> old(self).pos + 4 <= old(self).end,
            r is Ok ==> final(self).pos == old(self).pos + 4 && r->Ok_0 == le32(buf@, old(self).pos as int),
            r is Err ==> final(self).pos == old(self).pos && r->Err_0 == ErrorKind::UnexpectedEnd,
    {
        if self.end - self.pos < 4 {
            Err(ErrorKind::UnexpectedEnd)
        } else {
            let v = u32_at(buf, self.pos);
            self.pos = self.pos + 4;
            Ok(v)
        }
    }

    /// Reads a little-endian two's complement `i32`.
    pub fn read_i32(&mut self, buf: &[u8]) -> (r: Result<i32, ErrorKind>)
        requires
            old(self).wf(buf@),
        ensures
            final(self).wf(buf@),
            final(self).end == old(self).end,
            r is Ok <==> old(self).pos + 4 <= old(self).end,
            r is Ok ==> final(self).pos == old(self).pos + 4 && r->Ok_0 == le_i32(buf@, old(self).pos as int),
            r is Err ==> final(self).pos == old(self).pos && r->Err_0 == ErrorKind::UnexpectedEnd,
    {
        if self.end - self.pos < 4 {
            Err(ErrorKind::UnexpectedEnd)
        } else {
            let v = i32_at(buf, self.pos);
            self.pos = self.pos + 4;
            Ok(v)
        }
    }

    /// Reads a little-endian `u64`.
    pub fn read_u64(&mut self, buf: &[u8]) -> (r: Result<u64, ErrorKind>)
        requires
            old(self).wf(buf@),
        ensures
            final(self).wf(buf@),
            final(self).end == old(self).end,
            r is Ok <==> old(self).pos + 8 <= old(self).end,
            r is Ok ==> final(self).pos == old(self).pos + 8 && r->Ok_0 == le64(buf@, old(self).pos as int),
            r is Err ==> final(self).pos == old(self).pos && r->Err_0 == ErrorKind::UnexpectedEnd,
    {
        if self.end - self.pos < 8 {
            Err(ErrorKind::UnexpectedEnd)
        } else {
            let v = u64_at(buf, self.pos);
            self.pos = self.pos + 8;
            Ok(v)
        }
    }

    /// Reads `n` raw bytes.
    pub fn read_bytes(&mut self, buf: &[u8], n: usize) -> (r: Result<Vec<u8>, ErrorKind>)
        requires
            old(self).wf(buf@),
        ensures
            final(self).wf(buf@),
            final(self).end == old(self).end,
            r is Ok <==> old(self).pos + n <= old(self).end,
            r is Ok ==> final(self).pos == old(self).pos + n && r->Ok_0@ == buf@.subrange(
                old(self).pos as int,
                old(self).pos + n,
            ),
            r is Err ==> final(self).pos == old(self).pos && r->Err_0 == ErrorKind::UnexpectedEnd,
    {
        if n > self.end - self.pos {
            Err(ErrorKind::UnexpectedEnd)
        } else {
            let v = slice_to_vec(slice_subrange(buf, self.pos, self.pos + n));
            self.pos = self.pos + n;
            Ok(v)
        }
    }
}

} // verus!
