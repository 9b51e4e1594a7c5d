//! Fixed-capacity byte cursor over one 512-byte datagram.
//!
//! Every accessor is bounds-checked against the legacy UDP DNS size limit of
//! 512 bytes: an operation whose touched index would reach or exceed the bound
//! fails with [`DnsError::BufferBounds`] and the multi-byte operations fail
//! without a partial read or write.

use vstd::prelude::*;

use crate::DnsError;

verus! {

/// The fixed capacity of a DNS datagram buffer.
pub const BUF_SIZE: usize = 512;

/// A fixed 512-byte buffer with a cursor, holding one inbound or outbound
/// datagram.
pub struct DnsBuffer {
    /// The datagram bytes; always exactly 512 of them.
    pub buf: Vec<u8>,
    /// The cursor; advanced by reads and writes, repositioned by `seek` and
    /// `step`.  It may point past the end, where every access fails.
    pub pos: usize,
}

impl DnsBuffer {
    /// The buffer holds exactly its fixed capacity of bytes.
    pub open spec fn wf(&self) -> bool {
        self.buf@.len() == BUF_SIZE
    }

    /// A zeroed buffer with the cursor at the start.
    pub fn new() -> (b: DnsBuffer)
        ensures
            b.wf(),
            b.pos == 0,
            b.buf@ =~= Seq::new(BUF_SIZE as nat, |i: int| 0u8),
    {
        let mut buf: Vec<u8> = Vec::new();
        let mut i: usize = 0;
        while i < BUF_SIZE
            invariant
                i <= BUF_SIZE,
                buf@ =~= Seq::new(i as nat, |j: int| 0u8),
            decreases BUF_SIZE - i,
        {
            buf.push(0u8);
            i = i + 1;
        }
        DnsBuffer { buf, pos: 0 }
    }

    /// Moves the cursor forward by `steps` positions.
    pub fn step(&mut self, steps: usize) -> (r: Result<(), DnsError>)
        requires
            old(self).pos + steps <= usize::MAX,
        ensures
            r is Ok,
            final(self).buf@ == old(self).buf@,
            final(self).pos == old(self).pos + steps,
    {
        self.pos += steps;
        Ok(())
    }

    /// Repositions the cursor to `pos`.
    pub fn seek(&mut self, pos: usize) -> (r: Result<(), DnsError>)
        ensures
            r is Ok,
            final(self).buf@ == old(self).buf@,
            final(self).pos == pos,
    {
        self.pos = pos;
        Ok(())
    }

    /// Reads the byte at the cursor and advances the cursor by one.
    pub fn read(&mut self) -> (r: Result<u8, DnsError>)
        requires
            old(self).wf(),
        ensures
            final(self).buf@ == old(self).buf@,
            old(self).pos < BUF_SIZE ==> r == Ok::<u8, DnsError>(old(self).buf@[old(self).pos as int])
                && final(self).pos == old(self).pos + 1,
            old(self).pos >= BUF_SIZE ==> r == Err::<u8, DnsError>(DnsError::BufferBounds)
                && final(self).pos == old(self).pos,
    {
        if self.pos >= BUF_SIZE {
            return Err(DnsError::BufferBounds);
        }
        let res = self.buf[self.pos];
        self.pos += 1;
        Ok(res)
    }

    /// Returns the byte at `pos` without moving the cursor.
    pub fn get(&self, pos: usize) -> (r: Result<u8, DnsError>)
        requires
            self.wf(),
        ensures
            pos < BUF_SIZE ==> r == Ok::<u8, DnsError>(self.buf@[pos as int]),
            pos >= BUF_SIZE ==> r == Err::<u8, DnsError>(DnsError::BufferBounds),
    {
        if pos >= BUF_SIZE {
            return Err(DnsError::BufferBounds);
        }
        Ok(self.buf[pos])
    }

    /// Returns a copy of the `len` bytes starting at `start`, without moving
    /// the cursor.  Fails when `start + len` reaches the bound.
    pub fn get_range(&self, start: usize, len: usize) -> (r: Result<Vec<u8>, DnsError>)
        requires
            self.wf(),
        ensures
            start + len < BUF_SIZE ==> r is Ok
                && r->Ok_0@ == self.buf@.subrange(start as int, start + len),
            start + len >= BUF_SIZE ==> r is Err && r->Err_0 == DnsError::BufferBounds,
    {
        if start >= BUF_SIZE || len >= BUF_SIZE || start + len >= BUF_SIZE {
            return Err(DnsError::BufferBounds);
        }
        let mut out: Vec<u8> = Vec::new();
        let mut i: usize = 0;
        while i < len
            invariant
                i <= len,
                start + len < BUF_SIZE,
                self.wf(),
                out@ =~= self.buf@.subrange(start as int, start + i),
            decreases len - i,
        {
            out.push(self.buf[start + i]);
            i = i + 1;
        }
        Ok(out)
    }

    /// Reads two bytes at the cursor as a big-endian 16-bit value.
    pub fn read_u16(&mut self) -> (r: Result<u16, DnsError>)
        requires
            old(self).wf(),
        ensures
            final(self).buf@ == old(self).buf@,
            old(self).pos + 2 <= BUF_SIZE ==> r == Ok::<u16, DnsError>(
                spec_u16_of(
                    old(self).buf@[old(self).pos as int],
                    old(self).buf@[old(self).pos + 1],
                ),
            ) && final(self).pos == old(self).pos + 2,
            old(self).pos + 2 > BUF_SIZE ==> r == Err::<u16, DnsError>(DnsError::BufferBounds)
                && final(self).pos == old(self).pos,
    {
        if self.pos >= BUF_SIZE - 1 {
            return Err(DnsError::BufferBounds);
        }
        let hi = self.buf[self.pos];
        let lo = self.buf[self.pos + 1];
        self.pos += 2;
        let res = ((hi as u16) << 8) | (lo as u16);
        proof {
            assert(((hi as u16) << 8) | (lo as u16) == (hi as u16) * 256 + (lo as u16))
                by (bit_vector);
        }
        Ok(res)
    }

    /// Reads four bytes at the cursor as a big-endian 32-bit value.
    pub fn read_u32(&mut self) -> (r: Result<u32, DnsError>)
        requires
            old(self).wf(),
        ensures
            final(self).buf@ == old(self).buf@,
            old(self).pos + 4 <= BUF_SIZE ==> r == Ok::<u32, DnsError>(
                spec_u32_of(
                    old(self).buf@[old(self).pos as int],
                    old(self).buf@[old(self).pos + 1],
                    old(self).buf@[old(self).pos + 2],
                    old(self).buf@[old(self).pos + 3],
                ),
            ) && final(self).pos == old(self).pos + 4,
            old(self).pos + 4 > BUF_SIZE ==> r == Err::<u32, DnsError>(DnsError::BufferBounds)
                && final(self).pos == old(self).pos,
    {
        if self.pos >= BUF_SIZE - 3 {
            return Err(DnsError::BufferBounds);
        }
        let b0 = self.buf[self.pos];
        let b1 = self.buf[self.pos + 1];
        let b2 = self.buf[self.pos + 2];
        let b3 = self.buf[self.pos + 3];
        self.pos += 4;
        let res = ((b0 as u32) << 24) | ((b1 as u32) << 16) | ((b2 as u32) << 8) | (b3 as u32);
        proof {
            assert(((b0 as u32) << 24) | ((b1 as u32) << 16) | ((b2 as u32) << 8) | (b3 as u32)
                == (b0 as u32) * 0x1000000 + (b1 as u32) * 0x10000 + (b2 as u32) * 0x100
                    + (b3 as u32)) by (bit_vector);
        }
        Ok(res)
    }

    /// Writes one byte at the cursor and advances the cursor by one.
    pub fn write(&mut self, byte: u8) -> (r: Result<(), DnsError>)
        requires
            old(self).wf(),
        ensures
            final(self).wf(),
            old(self).pos < BUF_SIZE ==> r is Ok
                && final(self).buf@ == old(self).buf@.update(old(self).pos as int, byte)
                && final(self).pos == old(self).pos + 1,
            old(self).pos >= BUF_SIZE ==> r == Err::<(), DnsError>(DnsError::BufferBounds)
                && final(self).buf@ == old(self).buf@
                && final(self).pos == old(self).pos,
    {
        if self.pos >= BUF_SIZE {
            return Err(DnsError::BufferBounds);
        }
        self.buf.set(self.pos, byte);
        self.pos += 1;
        Ok(())
    }

    /// Writes a big-endian 16-bit value at the cursor, high byte first.
    pub fn write_u16(&mut self, val: u16) -> (r: Result<(), DnsError>)
        requires
            old(self).wf(),
        ensures
            final(self).wf(),
            old(self).pos + 2 <= BUF_SIZE ==> r is Ok
                && final(self).buf@ == old(self).buf@
                    .update(old(self).pos as int, spec_u16_hi(val))
                    .update(old(self).pos + 1, spec_u16_lo(val))
                && final(self).pos == old(self).pos + 2,
            old(self).pos + 2 > BUF_SIZE ==> r == Err::<(), DnsError>(DnsError::BufferBounds)
                && final(self).buf@ == old(self).buf@
                && final(self).pos == old(self).pos,
    {
        if self.pos >= BUF_SIZE - 1 {
            return Err(DnsError::BufferBounds);
        }
        self.buf.set(self.pos, (val >> 8) as u8);
        self.buf.set(self.pos + 1, (val & 0xFF) as u8);
        self.pos += 2;
        Ok(())
    }

    /// Writes a big-endian 32-bit value at the cursor, high byte first.
    pub fn write_u32(&mut self, val: u32) -> (r: Result<(), DnsError>)
        requires
            old(self).wf(),
        ensures
            final(self).wf(),
            old(self).pos + 4 <= BUF_SIZE ==> r is Ok
                && final(self).buf@ == old(self).buf@
                    .update(old(self).pos as int, spec_u32_byte(val, 0))
                    .update(old(self).pos + 1, spec_u32_byte(val, 1))
                    .update(old(self).pos + 2, spec_u32_byte(val, 2))
                    .update(old(self).pos + 3, spec_u32_byte(val, 3))
                && final(self).pos == old(self).pos + 4,
            old(self).pos + 4 > BUF_SIZE ==> r == Err::<(), DnsError>(DnsError::BufferBounds)
                && final(self).buf@ == old(self).buf@
                && final(self).pos == old(self).pos,
    {
        if self.pos >= BUF_SIZE - 3 {
            return Err(DnsError::BufferBounds);
        }
        self.buf.set(self.pos, ((val >> 24) & 0xFF) as u8);
        self.buf.set(self.pos + 1, ((val >> 16) & 0xFF) as u8);
        self.buf.set(self.pos + 2, ((val >> 8) & 0xFF) as u8);
        self.buf.set(self.pos + 3, (val & 0xFF) as u8);
        self.pos += 4;
        Ok(())
    }
}

impl DnsBuffer {
    /// Writes all of `bytes` at the cursor, or fails without touching the
    /// buffer when they would not fit.
    #[verifier::loop_isolation(false)]
    pub fn write_bytes(&mut self, bytes: &Vec<u8>) -> (r: Result<(), DnsError>)
        requires
            old(self).wf(),
        ensures
            final(self).wf(),
            old(self).pos + bytes@.len() <= BUF_SIZE ==> r is Ok
                && final(self).buf@ =~= spec_splice(old(self).buf@, old(self).pos as int, bytes@)
                && final(self).pos == old(self).pos + bytes@.len(),
            old(self).pos + bytes@.len() > BUF_SIZE ==> r == Err::<(), DnsError>(
                DnsError::BufferBounds,
            ) && final(self).buf@ == old(self).buf@ && final(self).pos == old(self).pos,
    {
        if self.pos > BUF_SIZE || bytes.len() > BUF_SIZE || self.pos + bytes.len() > BUF_SIZE {
            return Err(DnsError::BufferBounds);
        }
        let ghost start = self.pos as int;
        let ghost data0 = self.buf@;
        let mut i: usize = 0;
        proof {
            assert(self.buf@ =~= spec_splice(data0, start, bytes@.take(0)));
        }
        while i < bytes.len()
            invariant
                i <= bytes@.len(),
                self.pos == start + i,
                self.buf@ =~= spec_splice(data0, start, bytes@.take(i as int)),
            decreases bytes@.len() - i,
        {
            let _ = self.write(bytes[i]);
            i += 1;
            proof {
                assert(self.buf@ =~= spec_splice(data0, start, bytes@.take(i as int)));
            }
        }
        proof {
            assert(bytes@.take(bytes@.len() as int) =~= bytes@);
        }
        Ok(())
    }
}

/// `data` with the bytes starting at `at` replaced by `bytes`.
pub open spec fn spec_splice(data: Seq<u8>, at: int, bytes: Seq<u8>) -> Seq<u8> {
    data.take(at) + bytes + data.skip(at + bytes.len())
}

/// The high byte of a big-endian 16-bit value.
pub open spec fn spec_u16_hi(val: u16) -> u8 {
    (val >> 8) as u8
}

/// The low byte of a big-endian 16-bit value.
pub open spec fn spec_u16_lo(val: u16) -> u8 {
    (val & 0xFF) as u8
}

/// The 16-bit value with big-endian bytes `hi`, `lo`.
pub open spec fn spec_u16_of(hi: u8, lo: u8) -> u16 {
    (hi as u16 * 256 + lo as u16) as u16
}

/// Byte `i` (0 = most significant) of a big-endian 32-bit value.
pub open spec fn spec_u32_byte(val: u32, i: int) -> u8 {
    if i == 0 {
        ((val >> 24) & 0xFF) as u8
    } else if i == 1 {
        ((val >> 16) & 0xFF) as u8
    } else if i == 2 {
        ((val >> 8) & 0xFF) as u8
    } else {
        (val & 0xFF) as u8
    }
}

/// The 32-bit value with big-endian bytes `b0` (most significant) to `b3`.
pub open spec fn spec_u32_of(b0: u8, b1: u8, b2: u8, b3: u8) -> u32 {
    (b0 as u32 * 0x1000000 + b1 as u32 * 0x10000 + b2 as u32 * 0x100 + b3 as u32) as u32
}

/// Composing the two big-endian bytes of a 16-bit value gives it back.
pub broadcast proof fn lemma_u16_bytes_round_trip(val: u16)
    ensures
        #[trigger] spec_u16_of(spec_u16_hi(val), spec_u16_lo(val)) == val,
{
    assert(((val >> 8) as u8) as u16 * 256 + ((val & 0xFF) as u8) as u16 == val)
        by (bit_vector);
}

} // verus!
