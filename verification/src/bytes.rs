use vstd::prelude::*;

verus! {

/// Big-endian 16-bit value of two bytes.
pub open spec fn be_u16(b0: u8, b1: u8) -> int {
    b0 as int * 256 + b1 as int
}

/// Big-endian 32-bit value of four bytes.
pub open spec fn be_u32(b0: u8, b1: u8, b2: u8, b3: u8) -> int {
    b0 as int * 16777216 + b1 as int * 65536 + b2 as int * 256 + b3 as int
}

/// Two's complement reading of a 32-bit unsigned value.
pub open spec fn as_signed32(u: int) -> int {
    if u >= 0x8000_0000 {
        u - 0x1_0000_0000
    } else {
        u
    }
}

/// Big-endian 16-bit value stored at `p` in `d`.
pub open spec fn be_u16_at(d: Seq<u8>, p: int) -> int {
    be_u16(d[p], d[p + 1])
}

/// Big-endian 32-bit value stored at `p` in `d`.
pub open spec fn be_u32_at(d: Seq<u8>, p: int) -> int {
    be_u32(d[p], d[p + 1], d[p + 2], d[p + 3])
}

/// Why a scan of PSD bytes stopped.
#[derive(Debug, Clone, Copy, PartialEq, Eq)]
pub enum ScanError {
    /// A read or a move went past the end of the bytes.
    UnexpectedEnd,
    /// The file does not start with `8BPS`.
    InvalidSignature,
    /// The file version is not 1.
    UnsupportedVersion,
    /// A layer record's blend signature is not `8BIM` (layer record scan).
    InvalidRecordBlendSignature,
    /// A layer record's blend signature is not `8BIM` (layer metadata scan).
    InvalidLayerBlendSignature,
    /// An additional layer information block signature is neither `8BIM` nor `8B64`.
    InvalidAdditionalInfoSignature,
}

/// The description of a scan error.
pub open spec fn spec_scan_message(e: ScanError) -> Seq<char> {
    match e {
        ScanError::UnexpectedEnd => "unexpected end of stream"@,
        ScanError::InvalidSignature => "invalid PSD signature"@,
        ScanError::UnsupportedVersion => "only standard PSD files are supported"@,
        ScanError::InvalidRecordBlendSignature => "invalid blend mode signature in layer record scan"@,
        ScanError::InvalidLayerBlendSignature => "invalid layer blend signature"@,
        ScanError::InvalidAdditionalInfoSignature => "invalid additional layer info signature"@,
    }
}

impl ScanError {
    /// What went wrong, in words.
    pub fn message(&self) -> (r: &'static str)
        ensures
            r@ == spec_scan_message(*self),
    {
        match self {
            ScanError::UnexpectedEnd => "unexpected end of stream",
            ScanError::InvalidSignature => "invalid PSD signature",
            ScanError::UnsupportedVersion => "only standard PSD files are supported",
            ScanError::InvalidRecordBlendSignature => "invalid blend mode signature in layer record scan",
            ScanError::InvalidLayerBlendSignature => "invalid layer blend signature",
            ScanError::InvalidAdditionalInfoSignature => "invalid additional layer info signature",
        }
    }
}

/// A read position over a byte slice.
pub struct SliceCursor<'a> {
    buf: &'a [u8],
    pos: usize,
}

impl<'a> SliceCursor<'a> {
    /// The bytes the cursor reads.
    pub closed spec fn data(&self) -> Seq<u8> {
        self.buf@
    }

    /// The current read position.
    pub closed spec fn pos(&self) -> int {
        self.pos as int
    }

    /// The read position never passes the end of the bytes, which (as for
    /// any Rust slice) number at most `isize::MAX`.
    pub closed spec fn wf(&self) -> bool {
        self.pos <= self.buf@.len() <= isize::MAX
    }

    /// What a well-formed cursor says of its position and bytes.
    pub proof fn lemma_bounds(&self)
        requires
            self.wf(),
        ensures
            0 <= self.pos() <= self.data().len() <= isize::MAX,
    {
    }

    /// A cursor at the start of `buf`.
    pub fn new(buf: &'a [u8]) -> (c: Self)
        requires
            buf@.len() <= isize::MAX,
        ensures
            c.wf(),
            c.data() == buf@,
            c.pos() == 0,
    {
        SliceCursor { buf, pos: 0 }
    }

    pub fn position(&self) -> (p: u64)
        requires
            self.wf(),
        ensures
            p == self.pos(),
    {
        self.pos as u64
    }

    /// Moves to `pos`; fails, leaving the cursor unchanged, when `pos` lies
    /// past the end of the bytes.
    pub fn set_position(&mut self, pos: u64) -> (r: Result<(), ScanError>)
        requires
            old(self).wf(),
        ensures
            final(self).wf(),
            final(self).data() == old(self).data(),
            r is Ok <==> pos <= old(self).data().len(),
            r is Ok ==> final(self).pos() == pos,
            r is Err ==> r->Err_0 == ScanError::UnexpectedEnd && final(self).pos() == old(self).pos(),
    {
        if pos > self.buf.len() as u64 {
            return Err(ScanError::UnexpectedEnd);
        }
        self.pos = pos as usize;
        Ok(())
    }

    /// Advances by `len` bytes; fails, leaving the cursor unchanged, when that
    /// passes the end of the bytes.
    pub fn skip(&mut self, len: u64) -> (r: Result<(), ScanError>)
        requires
            old(self).wf(),
        ensures
            final(self).wf(),
            final(self).data() == old(self).data(),
            r is Ok <==> old(self).pos() + len <= old(self).data().len(),
            r is Ok ==> final(self).pos() == old(self).pos() + len,
            r is Err ==> r->Err_0 == ScanError::UnexpectedEnd && final(self).pos() == old(self).pos(),
    {
        let here = self.pos as u64;
        let _total = self.buf.len();
        if len > u64::MAX - here {
            return Err(ScanError::UnexpectedEnd);
        }
        self.set_position(here + len)
    }

    /// Number of bytes left after the read position.
    pub fn remaining(&self) -> (n: usize)
        requires
            self.wf(),
        ensures
            n == self.data().len() - self.pos(),
    {
        self.buf.len() - self.pos
    }

    /// Reads `n` bytes; fails, leaving the cursor unchanged, when fewer remain.
    pub fn read_bytes(&mut self, n: usize) -> (r: Result<Vec<u8>, ScanError>)
        requires
            old(self).wf(),
        ensures
            final(self).wf(),
            final(self).data() == old(self).data(),
            r is Ok <==> old(self).pos() + n <= old(self).data().len(),
            r matches Ok(v) ==> v@ == old(self).data().subrange(old(self).pos(), old(self).pos() + n)
                && final(self).pos() == old(self).pos() + n,
            r is Err ==> r->Err_0 == ScanError::UnexpectedEnd && final(self).pos() == old(self).pos(),
    {
        if self.remaining() < n {
            return Err(ScanError::UnexpectedEnd);
        }
        let start = self.pos;
        let _total = self.buf.len();
        let mut out: Vec<u8> = Vec::new();
        let mut i: usize = 0;
        while i < n
            invariant
                self.wf(),
                start + n <= self.buf@.len(),
                self.buf@.len() <= usize::MAX,
                self.pos == start,
                i <= n,
                out@ == self.buf@.subrange(start as int, start + i),
            decreases n - i,
        {
            out.push(self.buf[start + i]);
            i = i + 1;
        }
        self.pos = start + n;
        Ok(out)
    }

    /// A cursor over the next `len` bytes, which this cursor then passes over.
    pub fn take(&mut self, len: u64) -> (r: Result<SliceCursor<'a>, ScanError>)
        requires
            old(self).wf(),
        ensures
            final(self).wf(),
            final(self).data() == old(self).data(),
            r is Ok <==> old(self).pos() + len <= old(self).data().len(),
            r matches Ok(c) ==> c.wf() && c.pos() == 0 && c.data() == old(self).data().subrange(
                old(self).pos(),
                old(self).pos() + len,
            ) && final(self).pos() == old(self).pos() + len,
            r is Err ==> r->Err_0 == ScanError::UnexpectedEnd && final(self).pos() == old(self).pos(),
    {
        if (self.remaining() as u64) < len {
            return Err(ScanError::UnexpectedEnd);
        }
        let start = self.pos;
        let _total = self.buf.len();
        let end = start + len as usize;
        let slice = vstd::slice::slice_subrange(self.buf, start, end);
        self.pos = end;
        Ok(SliceCursor::new(slice))
    }

    /// Reads one byte.
    pub fn read_u8(&mut self) -> (r: Result<u8, ScanError>)
        requires
            old(self).wf(),
        ensures
            final(self).wf(),
            final(self).data() == old(self).data(),
            r is Ok <==> old(self).pos() + 1 <= old(self).data().len(),
            r matches Ok(v) ==> v == old(self).data()[old(self).pos()] && final(self).pos()
                == old(self).pos() + 1,
            r is Err ==> r->Err_0 == ScanError::UnexpectedEnd && final(self).pos() == old(self).pos(),
    {
        if self.remaining() < 1 {
            return Err(ScanError::UnexpectedEnd);
        }
        let b = self.buf[self.pos];
        self.pos = self.pos + 1;
        Ok(b)
    }

    /// Reads a big-endian 16-bit value.
    pub fn read_u16(&mut self) -> (r: Result<u16, ScanError>)
        requires
            old(self).wf(),
        ensures
            final(self).wf(),
            final(self).data() == old(self).data(),
            r is Ok <==> old(self).pos() + 2 <= old(self).data().len(),
            r matches Ok(v) ==> v == be_u16_at(old(self).data(), old(self).pos())
                && final(self).pos() == old(self).pos() + 2,
            r is Err ==> r->Err_0 == ScanError::UnexpectedEnd && final(self).pos() == old(self).pos(),
    {
        if self.remaining() < 2 {
            return Err(ScanError::UnexpectedEnd);
        }
        let p = self.pos;
        let v = (self.buf[p] as u16) * 256 + self.buf[p + 1] as u16;
        self.pos = p + 2;
        Ok(v)
    }

    /// Reads a big-endian 32-bit value.
    pub fn read_u32(&mut self) -> (r: Result<u32, ScanError>)
        requires
            old(self).wf(),
        ensures
            final(self).wf(),
            final(self).data() == old(self).data(),
            r is Ok <==> old(self).pos() + 4 <= old(self).data().len(),
            r matches Ok(v) ==> v == be_u32_at(old(self).data(), old(self).pos())
                && final(self).pos() == old(self).pos() + 4,
            r is Err ==> r->Err_0 == ScanError::UnexpectedEnd && final(self).pos() == old(self).pos(),
    {
        if self.remaining() < 4 {
            return Err(ScanError::UnexpectedEnd);
        }
        let p = self.pos;
        let v = (self.buf[p] as u32) * 16777216 + (self.buf[p + 1] as u32) * 65536
            + (self.buf[p + 2] as u32) * 256 + self.buf[p + 3] as u32;
        self.pos = p + 4;
        Ok(v)
    }

    /// Reads a big-endian two's complement 32-bit value.
    pub fn read_i32(&mut self) -> (r: Result<i32, ScanError>)
        requires
            old(self).wf(),
        ensures
            final(self).wf(),
            final(self).data() == old(self).data(),
            r is Ok <==> old(self).pos() + 4 <= old(self).data().len(),
            r matches Ok(v) ==> v == as_signed32(be_u32_at(old(self).data(), old(self).pos()))
                && final(self).pos() == old(self).pos() + 4,
            r is Err ==> r->Err_0 == ScanError::UnexpectedEnd && final(self).pos() == old(self).pos(),
    {
        let u = self.read_u32()?;
        Ok(signed_from_u32(u))
    }

    /// Reads four raw bytes.
    pub fn read_b4(&mut self) -> (r: Result<[u8; 4], ScanError>)
        requires
            old(self).wf(),
        ensures
            final(self).wf(),
            final(self).data() == old(self).data(),
            r is Ok <==> old(self).pos() + 4 <= old(self).data().len(),
            r matches Ok(v) ==> v@ == old(self).data().subrange(old(self).pos(), old(self).pos() + 4)
                && final(self).pos() == old(self).pos() + 4,
            r is Err ==> r->Err_0 == ScanError::UnexpectedEnd && final(self).pos() == old(self).pos(),
    {
        if self.remaining() < 4 {
            return Err(ScanError::UnexpectedEnd);
        }
        let p = self.pos;
        let v = [self.buf[p], self.buf[p + 1], self.buf[p + 2], self.buf[p + 3]];
        self.pos = p + 4;
        assert(v@ =~= self.buf@.subrange(p as int, p + 4));
        Ok(v)
    }
}

/// Two's complement reinterpretation of a 32-bit value.
pub fn signed_from_u32(u: u32) -> (v: i32)
    ensures
        v == as_signed32(u as int),
{
    if u >= 0x8000_0000 {
        let low = (u - 0x8000_0000) as i32;
        low + i32::MIN
    } else {
        u as i32
    }
}

} // verus!
