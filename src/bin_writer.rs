use vstd::prelude::*;
use vstd::utf8::*;
use crate::wire::{fits_str, le_u16, le_u32, str_bytes};

verus! {

/// A fixed-capacity output buffer with a write cursor.
pub struct BinWriter {
    buffer: Vec<u8>,
    position: usize,
}

impl BinWriter {
    /// The bytes written since creation or the last `clear`.
    pub closed spec fn written(&self) -> Seq<u8> {
        self.buffer@.subrange(0, self.position as int)
    }

    /// How many bytes the buffer can hold.
    pub closed spec fn capacity(&self) -> nat {
        self.buffer@.len()
    }

    pub closed spec fn wf(&self) -> bool {
        self.position <= self.buffer@.len()
    }

    /// How many more bytes fit.
    pub open spec fn room(&self) -> int {
        self.capacity() - self.written().len()
    }

    pub fn with_capacity(size: usize) -> (r: BinWriter)
        ensures
            r.wf(),
            r.written() == Seq::<u8>::empty(),
            r.capacity() == size,
    {
        BinWriter { buffer: vec![0u8; size], position: 0 }
    }

    fn put(&mut self, value: u8)
        requires
            old(self).wf(),
            old(self).room() >= 1,
        ensures
            final(self).wf(),
            final(self).capacity() == old(self).capacity(),
            final(self).written() == old(self).written().push(value),
    {
        let p = self.position;
        let n = self.buffer.len();
        assert(self.written().len() == p as int);
        assert(p < n);
        self.buffer[p] = value;
        self.position = p + 1;
        assert(self.written() =~= old(self).written().push(value));
    }

    pub fn write_u8(&mut self, value: u8)
        requires
            old(self).wf(),
            old(self).room() >= 1,
        ensures
            final(self).wf(),
            final(self).capacity() == old(self).capacity(),
            final(self).written() == old(self).written().push(value),
    {
        self.put(value);
    }

    pub fn write_u16(&mut self, value: u16)
        requires
            old(self).wf(),
            old(self).room() >= 2,
        ensures
            final(self).wf(),
            final(self).capacity() == old(self).capacity(),
            final(self).written() == old(self).written() + le_u16(value),
    {
        self.put((value % 256) as u8);
        self.put((value / 256) as u8);
        assert(self.written() =~= old(self).written() + le_u16(value));
    }

    pub fn write_u32(&mut self, value: u32)
        requires
            old(self).wf(),
            old(self).room() >= 4,
        ensures
            final(self).wf(),
            final(self).capacity() == old(self).capacity(),
            final(self).written() == old(self).written() + le_u32(value),
    {
        self.put((value % 256) as u8);
        self.put(((value / 256) % 256) as u8);
        self.put(((value / 65536) % 256) as u8);
        self.put((value / 16777216) as u8);
        assert(self.written() =~= old(self).written() + le_u32(value));
    }

    pub fn write_str(&mut self, s: &str)
        requires
            old(self).wf(),
            fits_str(s@),
            old(self).room() >= 2 + encode_utf8(s@).len(),
        ensures
            final(self).wf(),
            final(self).capacity() == old(self).capacity(),
            final(self).written() == old(self).written() + str_bytes(s@),
    {
        let bytes = s.as_bytes();
        let len = bytes.len();
        self.write_u16(len as u16);
        let ghost start = self.written();
        let mut i: usize = 0;
        while i < len
            invariant
                self.wf(),
                self.capacity() == old(self).capacity(),
                bytes@ == encode_utf8(s@),
                len == bytes@.len(),
                i <= len,
                start.len() + len <= self.capacity(),
                self.written() == start + bytes@.subrange(0, i as int),
            decreases len - i,
        {
            self.put(bytes[i]);
            assert(bytes@.subrange(0, i + 1) =~= bytes@.subrange(0, i as int).push(bytes@[i as int]));
            i = i + 1;
        }
        assert(bytes@.subrange(0, len as int) =~= bytes@);
        assert(self.written() =~= old(self).written() + str_bytes(s@));
    }

    pub fn clone_data(&self) -> (r: Vec<u8>)
        requires
            self.wf(),
        ensures
            r@ == self.written(),
    {
        let mut out: Vec<u8> = Vec::with_capacity(self.position);
        let mut i: usize = 0;
        while i < self.position
            invariant
                self.wf(),
                i <= self.position,
                out@ == self.buffer@.subrange(0, i as int),
            decreases self.position - i,
        {
            out.push(self.buffer[i]);
            assert(self.buffer@.subrange(0, i + 1) =~= self.buffer@.subrange(0, i as int).push(self.buffer@[i as int]));
            i = i + 1;
        }
        out
    }

    pub fn len(&self) -> (r: usize)
        requires
            self.wf(),
        ensures
            r == self.written().len(),
    {
        self.position
    }

    pub fn clear(&mut self)
        ensures
            final(self).wf(),
            final(self).capacity() == old(self).capacity(),
            final(self).written() == Seq::<u8>::empty(),
    {
        self.position = 0;
    }
}

} // verus!
