use vstd::prelude::*;
use vstd::utf8::*;
use crate::wire::{from_le_u16, from_le_u32};

verus! {

/// Why a value could not be read.
#[derive(Debug, Clone, Copy, PartialEq, Eq, Structural)]
pub enum DecodeError {
    /// The value runs past the end of the buffer.
    OutOfBounds,
    /// A string's bytes are not valid UTF-8.
    InvalidUtf8,
}

/// The string at the front of `rest`, and the number of bytes it takes, if one is there.
pub open spec fn decode_str(rest: Seq<u8>) -> Result<(Seq<char>, int), DecodeError> {
    if rest.len() < 2 {
        Err(DecodeError::OutOfBounds)
    } else {
        let n = from_le_u16(rest[0], rest[1]) as int;
        if rest.len() < 2 + n {
            Err(DecodeError::OutOfBounds)
        } else if !valid_utf8(rest.subrange(2, 2 + n)) {
            Err(DecodeError::InvalidUtf8)
        } else {
            Ok((decode_utf8(rest.subrange(2, 2 + n)), 2 + n))
        }
    }
}

/// Relies on String::from_utf8: it succeeds exactly on valid UTF-8, with the text those bytes encode.
#[verifier::external_body]
fn string_from_utf8(b: &[u8]) -> (r: Option<String>)
    ensures
        r is Some <==> valid_utf8(b@),
        r matches Some(s) ==> s@ == decode_utf8(b@),
{
    String::from_utf8(b.to_vec()).ok()
}

/// A read cursor over one message's bytes.
pub struct BinReader<'a> {
    buffer: &'a [u8],
    position: usize,
}

impl<'a> BinReader<'a> {
    /// The bytes not read yet.
    pub closed spec fn rest(&self) -> Seq<u8> {
        self.buffer@.subrange(self.position as int, self.buffer@.len() as int)
    }

    pub closed spec fn wf(&self) -> bool {
        self.position <= self.buffer@.len()
    }

    pub fn from_bytes(bytes: &'a [u8]) -> (r: BinReader<'a>)
        ensures
            r.wf(),
            r.rest() == bytes@,
    {
        let r = BinReader { buffer: bytes, position: 0 };
        assert(r.rest() =~= bytes@);
        r
    }

    /// How many bytes are left.
    pub fn remaining(&self) -> (r: usize)
        requires
            self.wf(),
        ensures
            r == self.rest().len(),
    {
        self.buffer.len() - self.position
    }

    fn take(&mut self) -> (v: u8)
        requires
            old(self).wf(),
            old(self).rest().len() >= 1,
        ensures
            final(self).wf(),
            v == old(self).rest()[0],
            final(self).rest() == old(self).rest().subrange(1, old(self).rest().len() as int),
    {
        let v = self.buffer[self.position];
        self.position = self.position + 1;
        assert(self.rest() =~= old(self).rest().subrange(1, old(self).rest().len() as int));
        v
    }

    pub fn read_u8(&mut self) -> (r: Result<u8, DecodeError>)
        requires
            old(self).wf(),
        ensures
            final(self).wf(),
            old(self).rest().len() >= 1 ==> r == Ok::<u8, DecodeError>(old(self).rest()[0])
                && final(self).rest() == old(self).rest().subrange(1, old(self).rest().len() as int),
            old(self).rest().len() < 1 ==> r == Err::<u8, DecodeError>(DecodeError::OutOfBounds)
                && final(self).rest() == old(self).rest(),
    {
        if self.remaining() < 1 {
            return Err(DecodeError::OutOfBounds);
        }
        Ok(self.take())
    }

    pub fn read_u16(&mut self) -> (r: Result<u16, DecodeError>)
        requires
            old(self).wf(),
        ensures
            final(self).wf(),
            old(self).rest().len() >= 2 ==> r == Ok::<u16, DecodeError>(
                from_le_u16(old(self).rest()[0], old(self).rest()[1]),
            ) && final(self).rest() == old(self).rest().subrange(2, old(self).rest().len() as int),
            old(self).rest().len() < 2 ==> r == Err::<u16, DecodeError>(DecodeError::OutOfBounds)
                && final(self).rest() == old(self).rest(),
    {
        if self.remaining() < 2 {
            return Err(DecodeError::OutOfBounds);
        }
        let b0 = self.take();
        let b1 = self.take();
        assert(self.rest() =~= old(self).rest().subrange(2, old(self).rest().len() as int));
        Ok((b0 as u16) + 256 * (b1 as u16))
    }

    pub fn read_u32(&mut self) -> (r: Result<u32, DecodeError>)
        requires
            old(self).wf(),
        ensures
            final(self).wf(),
            old(self).rest().len() >= 4 ==> r == Ok::<u32, DecodeError>(
                from_le_u32(
                    old(self).rest()[0],
                    old(self).rest()[1],
                    old(self).rest()[2],
                    old(self).rest()[3],
                ),
            ) && final(self).rest() == old(self).rest().subrange(4, old(self).rest().len() as int),
            old(self).rest().len() < 4 ==> r == Err::<u32, DecodeError>(DecodeError::OutOfBounds)
                && final(self).rest() == old(self).rest(),
    {
        if self.remaining() < 4 {
            return Err(DecodeError::OutOfBounds);
        }
        let b0 = self.take();
        let b1 = self.take();
        let b2 = self.take();
        let b3 = self.take();
        assert(self.rest() =~= old(self).rest().subrange(4, old(self).rest().len() as int));
        Ok((b0 as u32) + 256 * (b1 as u32) + 65536 * (b2 as u32) + 16777216 * (b3 as u32))
    }

    pub fn read_str(&mut self) -> (r: Result<String, DecodeError>)
        requires
            old(self).wf(),
        ensures
            final(self).wf(),
            match decode_str(old(self).rest()) {
                Ok((s, n)) => r matches Ok(t) && t@ == s
                    && final(self).rest() == old(self).rest().subrange(n, old(self).rest().len() as int),
                Err(e) => r == Err::<String, DecodeError>(e) && final(self).rest() == old(self).rest(),
            },
    {
        if self.remaining() < 2 {
            return Err(DecodeError::OutOfBounds);
        }
        let start = self.position;
        let n0 = self.buffer[start];
        let n1 = self.buffer[start + 1];
        let len = (n0 as usize) + 256 * (n1 as usize);
        if self.remaining() - 2 < len {
            return Err(DecodeError::OutOfBounds);
        }
        let from = start + 2;
        let slice = vstd::slice::slice_subrange(self.buffer, from, from + len);
        assert(slice@ =~= old(self).rest().subrange(2, 2 + len as int));
        match string_from_utf8(slice) {
            Some(s) => {
                self.position = from + len;
                assert(self.rest() =~= old(self).rest().subrange(2 + len as int, old(self).rest().len() as int));
                Ok(s)
            },
            None => Err(DecodeError::InvalidUtf8),
        }
    }
}

/// A length-prefixed string reads back as itself, whatever follows it.
pub proof fn law_str_round_trip(s: Seq<char>, tail: Seq<u8>)
    requires
        crate::wire::fits_str(s),
    ensures
        decode_str(crate::wire::str_bytes(s) + tail) == Ok::<(Seq<char>, int), DecodeError>(
            (s, 2 + encode_utf8(s).len() as int),
        ),
{
    let b = encode_utf8(s);
    let n = b.len() as u16;
    let all = crate::wire::str_bytes(s) + tail;
    crate::wire::law_u16_round_trip(n);
    assert(all[0] == crate::wire::le_u16(n)[0] && all[1] == crate::wire::le_u16(n)[1]);
    assert(all.subrange(2, 2 + b.len() as int) =~= b);
    encode_utf8_valid_utf8(s);
    encode_utf8_decode_utf8(s);
}

} // verus!
