//! An in-memory seekable byte source and the little-endian integer layout.

use vstd::prelude::*;
use crate::error::IoError;

verus! {

/// The 16-bit value stored little-endian at index `i` of `s`.
pub open spec fn le_u16_at(s: Seq<u8>, i: int) -> u16 {
    (s[i] as int + 256 * (s[i + 1] as int)) as u16
}

/// The 32-bit value stored little-endian at index `i` of `s`.
pub open spec fn le_u32_at(s: Seq<u8>, i: int) -> u32 {
    (s[i] as int + 256 * (s[i + 1] as int) + 65536 * (s[i + 2] as int) + 16777216 * (s[i + 3] as int)) as u32
}

/// The two bytes that store `v` little-endian.
pub open spec fn le_u16_bytes(v: u16) -> Seq<u8> {
    seq![(v % 256) as u8, (v / 256) as u8]
}

/// The four bytes that store `v` little-endian.
pub open spec fn le_u32_bytes(v: u32) -> Seq<u8> {
    seq![(v % 256) as u8, (v / 256 % 256) as u8, (v / 65536 % 256) as u8, (v / 16777216) as u8]
}

/// Appends the little-endian bytes of `v` to `w`.
pub fn put_le_u16(w: &mut Vec<u8>, v: u16)
    ensures
        final(w)@ == old(w)@ + le_u16_bytes(v),
{
    w.push((v % 256) as u8);
    w.push((v / 256) as u8);
    assert(w@ =~= old(w)@ + le_u16_bytes(v));
}

/// Appends the little-endian bytes of `v` to `w`.
pub fn put_le_u32(w: &mut Vec<u8>, v: u32)
    ensures
        final(w)@ == old(w)@ + le_u32_bytes(v),
{
    w.push((v % 256) as u8);
    w.push((v / 256 % 256) as u8);
    w.push((v / 65536 % 256) as u8);
    w.push((v / 16777216) as u8);
    assert(w@ =~= old(w)@ + le_u32_bytes(v));
}

/// Appends `bytes` to `w`.
pub fn put_bytes(w: &mut Vec<u8>, bytes: &[u8])
    ensures
        final(w)@ == old(w)@ + bytes@,
{
    let mut i: usize = 0;
    while i < bytes.len()
        invariant
            i <= bytes.len(),
            w@ == old(w)@ + bytes@.subrange(0, i as int),
        decreases bytes.len() - i,
    {
        w.push(bytes[i]);
        i += 1;
        assert(w@ =~= old(w)@ + bytes@.subrange(0, i as int));
    }
    assert(bytes@.subrange(0, i as int) =~= bytes@);
}

/// Whether two byte slices hold the same bytes.
pub fn bytes_equal(a: &[u8], b: &[u8]) -> (res: bool)
    ensures
        res == (a@ == b@),
{
    if a.len() != b.len() {
        return false;
    }
    let mut i: usize = 0;
    while i < a.len()
        invariant
            i <= a.len(),
            a.len() == b.len(),
            a@.subrange(0, i as int) == b@.subrange(0, i as int),
        decreases a.len() - i,
    {
        if a[i] != b[i] {
            return false;
        }
        i += 1;
        assert(a@.subrange(0, i as int) =~= a@.subrange(0, i - 1).push(a@[i - 1]));
        assert(b@.subrange(0, i as int) =~= b@.subrange(0, i - 1).push(b@[i - 1]));
    }
    assert(a@ =~= a@.subrange(0, i as int));
    assert(b@ =~= b@.subrange(0, i as int));
    true
}

/// How one byte sequence stands to another in the order of a dictionary.
#[derive(PartialEq, Eq, Structural, Clone, Copy, Debug)]
pub enum ByteOrder {
    Less,
    Equal,
    Greater,
}

/// The order of a dictionary: the first byte that differs decides, and a
/// sequence comes before every longer one that starts with it.
pub open spec fn lex_order(a: Seq<u8>, b: Seq<u8>) -> ByteOrder
    decreases a.len(),
{
    if a.len() == 0 {
        if b.len() == 0 {
            ByteOrder::Equal
        } else {
            ByteOrder::Less
        }
    } else if b.len() == 0 {
        ByteOrder::Greater
    } else if a[0] < b[0] {
        ByteOrder::Less
    } else if a[0] > b[0] {
        ByteOrder::Greater
    } else {
        lex_order(a.skip(1), b.skip(1))
    }
}

/// Two sequences are equal in the order of a dictionary exactly where they
/// are the same sequence.
pub proof fn lemma_lex_order_equal(a: Seq<u8>, b: Seq<u8>)
    ensures
        lex_order(a, b) == ByteOrder::Equal <==> a == b,
    decreases a.len(),
{
    if a.len() > 0 && b.len() > 0 {
        lemma_lex_order_equal(a.skip(1), b.skip(1));
        if a[0] == b[0] && a.skip(1) == b.skip(1) {
            assert(a =~= seq![a[0]] + a.skip(1));
            assert(b =~= seq![b[0]] + b.skip(1));
        }
    } else if a.len() == 0 && b.len() == 0 {
        assert(a =~= b);
    }
}

/// Compares two byte slices in the order of a dictionary.
pub fn compare_bytes(a: &[u8], b: &[u8]) -> (res: ByteOrder)
    ensures
        res == lex_order(a@, b@),
{
    let mut i: usize = 0;
    assert(a@.skip(0) =~= a@ && b@.skip(0) =~= b@);
    while i < a.len() && i < b.len()
        invariant
            i <= a.len(),
            i <= b.len(),
            lex_order(a@, b@) == lex_order(a@.skip(i as int), b@.skip(i as int)),
        decreases a.len() - i,
    {
        if a[i] < b[i] {
            return ByteOrder::Less;
        }
        if a[i] > b[i] {
            return ByteOrder::Greater;
        }
        assert(a@.skip(i as int).skip(1) =~= a@.skip(i + 1));
        assert(b@.skip(i as int).skip(1) =~= b@.skip(i + 1));
        i += 1;
    }
    if i < b.len() {
        ByteOrder::Less
    } else if i < a.len() {
        ByteOrder::Greater
    } else {
        ByteOrder::Equal
    }
}

/// A seekable reader over a byte buffer that it owns.
///
/// The position may lie beyond the end of the buffer: a read there fails
/// with `IoError::EndOfFile`. A read that fails moves nothing.
#[derive(Debug)]
pub struct ByteReader {
    pub data: Vec<u8>,
    pub pos: u64,
}

impl ByteReader {
    /// Whether `n` bytes are left at the current position.
    pub open spec fn can_read(&self, n: int) -> bool {
        self.pos + n <= self.data@.len()
    }

    pub fn new(data: Vec<u8>) -> (r: ByteReader)
        ensures
            r.data == data,
            r.pos == 0,
    {
        ByteReader { data, pos: 0 }
    }

    /// The number of bytes in the buffer.
    pub fn len(&self) -> (n: u64)
        ensures
            n == self.data@.len(),
    {
        self.data.len() as u64
    }

    /// The current position.
    pub fn tell(&self) -> (p: u64)
        ensures
            p == self.pos,
    {
        self.pos
    }

    /// Moves to the absolute position `pos`.
    pub fn seek(&mut self, pos: u64)
        ensures
            final(self).data == old(self).data,
            final(self).pos == pos,
    {
        self.pos = pos;
    }

    /// Gives the buffer back.
    pub fn into_inner(self) -> (data: Vec<u8>)
        ensures
            data == self.data,
    {
        self.data
    }

    fn has(&self, n: u64) -> (b: bool)
        ensures
            b == self.can_read(n as int),
            self.data@.len() <= usize::MAX,
    {
        let len: u64 = self.data.len() as u64;
        self.pos <= len && len - self.pos >= n
    }

    /// Reads a 16-bit little-endian integer and moves past it.
    pub fn read_le_u16(&mut self) -> (res: Result<u16, IoError>)
        ensures
            final(self).data == old(self).data,
            match res {
                Ok(v) => old(self).can_read(2) && v == le_u16_at(old(self).data@, old(self).pos as int)
                    && final(self).pos == old(self).pos + 2,
                Err(e) => !old(self).can_read(2) && e == IoError::EndOfFile && final(self).pos == old(self).pos,
            },
    {
        if !self.has(2) {
            return Err(IoError::EndOfFile);
        }
        let p: usize = self.pos as usize;
        let b0: u16 = self.data[p] as u16;
        let b1: u16 = self.data[p + 1] as u16;
        self.pos = self.pos + 2;
        Ok(b0 + 256 * b1)
    }

    /// Reads a 32-bit little-endian integer and moves past it.
    pub fn read_le_u32(&mut self) -> (res: Result<u32, IoError>)
        ensures
            final(self).data == old(self).data,
            match res {
                Ok(v) => old(self).can_read(4) && v == le_u32_at(old(self).data@, old(self).pos as int)
                    && final(self).pos == old(self).pos + 4,
                Err(e) => !old(self).can_read(4) && e == IoError::EndOfFile && final(self).pos == old(self).pos,
            },
    {
        if !self.has(4) {
            return Err(IoError::EndOfFile);
        }
        let p: usize = self.pos as usize;
        let b0: u32 = self.data[p] as u32;
        let b1: u32 = self.data[p + 1] as u32;
        let b2: u32 = self.data[p + 2] as u32;
        let b3: u32 = self.data[p + 3] as u32;
        self.pos = self.pos + 4;
        Ok(b0 + 256 * b1 + 65536 * b2 + 16777216 * b3)
    }

    /// Reads exactly `len` bytes and moves past them.
    pub fn read_exact(&mut self, len: usize) -> (res: Result<Vec<u8>, IoError>)
        ensures
            final(self).data == old(self).data,
            match res {
                Ok(v) => old(self).can_read(len as int)
                    && v@ == old(self).data@.subrange(old(self).pos as int, old(self).pos + len)
                    && final(self).pos == old(self).pos + len,
                Err(e) => !old(self).can_read(len as int) && e == IoError::EndOfFile
                    && final(self).pos == old(self).pos,
            },
    {
        if !self.has(len as u64) {
            return Err(IoError::EndOfFile);
        }
        let start: usize = self.pos as usize;
        let mut out: Vec<u8> = Vec::new();
        let mut i: usize = 0;
        while i < len
            invariant
                i <= len,
                start + len <= self.data@.len() <= usize::MAX,
                out@ == self.data@.subrange(start as int, start + i),
            decreases len - i,
        {
            out.push(self.data[start + i]);
            i += 1;
            assert(out@ =~= self.data@.subrange(start as int, start + i));
        }
        self.pos = self.pos + len as u64;
        Ok(out)
    }
}

} // verus!
