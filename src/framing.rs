use vstd::prelude::*;
use crate::wire::{from_le_u16, le_u16, MAX_PACKET_LENGTH};

verus! {

/// Why a byte stream cannot be framed.
#[derive(Debug, Clone, Copy, PartialEq, Eq, Structural)]
pub enum FrameError {
    /// A frame declares, or would need, more than `MAX_PACKET_LENGTH` payload bytes.
    TooLong,
}

/// The payload length that the 2-byte prefix at the front of `b` declares.
pub open spec fn declared_len(b: Seq<u8>) -> int {
    from_le_u16(b[0], b[1]) as int
}

/// What reading one frame off the front of `b` gives: nothing yet while fewer than 2 bytes
/// or less than the declared payload are there, an error when the declared length is over
/// the maximum, else the payload.
pub open spec fn frame_result(b: Seq<u8>) -> Result<Option<Seq<u8>>, FrameError> {
    if b.len() < 2 {
        Ok(None)
    } else if declared_len(b) > MAX_PACKET_LENGTH {
        Err(FrameError::TooLong)
    } else if b.len() < 2 + declared_len(b) {
        Ok(None)
    } else {
        Ok(Some(b.subrange(2, 2 + declared_len(b))))
    }
}

/// What stays buffered after reading one frame off `b`: all of it unless a whole frame was taken.
pub open spec fn frame_rest(b: Seq<u8>) -> Seq<u8> {
    if frame_result(b) matches Ok(Some(_)) {
        b.subrange(2 + declared_len(b), b.len() as int)
    } else {
        b
    }
}

pub open spec fn result_view(r: Result<Option<Vec<u8>>, FrameError>) -> Result<Option<Seq<u8>>, FrameError> {
    match r {
        Ok(Some(f)) => Ok(Some(f@)),
        Ok(None) => Ok(None),
        Err(e) => Err(e),
    }
}

/// Relies on tokio_util's LengthDelimitedCodec (2-byte little-endian length, at most
/// `MAX_PACKET_LENGTH`), decoding with a fresh codec: fewer than 2 bytes or a frame not
/// yet complete gives `None`, a declared length over the maximum is an error, and a
/// complete frame is split off the front of the buffer.
#[verifier::external_body]
fn codec_decode(buf: &mut Vec<u8>) -> (r: Result<Option<Vec<u8>>, FrameError>)
    ensures
        result_view(r) == frame_result(old(buf)@),
        final(buf)@ == frame_rest(old(buf)@),
{
    let mut codec = tokio_util::codec::LengthDelimitedCodec::builder()
        .length_field_type::<u16>()
        .little_endian()
        .max_frame_length(MAX_PACKET_LENGTH)
        .new_codec();
    let mut src = tokio_util::bytes::BytesMut::from(&buf[..]);
    match tokio_util::codec::Decoder::decode(&mut codec, &mut src) {
        Ok(Some(frame)) => {
            *buf = src.to_vec();
            Ok(Some(frame.to_vec()))
        },
        Ok(None) => Ok(None),
        Err(_) => Err(FrameError::TooLong),
    }
}

/// Relies on tokio_util's LengthDelimitedCodec: a payload of at most `MAX_PACKET_LENGTH`
/// bytes is written after its length as a 2-byte little-endian prefix; a longer one is an error.
#[verifier::external_body]
fn codec_encode(payload: &[u8]) -> (r: Result<Vec<u8>, FrameError>)
    ensures
        r is Ok <==> payload@.len() <= MAX_PACKET_LENGTH,
        r matches Ok(b) ==> b@ == le_u16(payload@.len() as u16) + payload@,
        r matches Err(e) ==> e == FrameError::TooLong,
{
    let mut codec = tokio_util::codec::LengthDelimitedCodec::builder()
        .length_field_type::<u16>()
        .little_endian()
        .max_frame_length(MAX_PACKET_LENGTH)
        .new_codec();
    let mut dst = tokio_util::bytes::BytesMut::new();
    match tokio_util::codec::Encoder::<&[u8]>::encode(&mut codec, payload, &mut dst) {
        Ok(()) => Ok(dst.to_vec()),
        Err(_) => Err(FrameError::TooLong),
    }
}

/// One frame for the wire: the payload after its 2-byte little-endian length.
pub fn encode_frame(payload: &[u8]) -> (r: Result<Vec<u8>, FrameError>)
    ensures
        r is Ok <==> payload@.len() <= MAX_PACKET_LENGTH,
        r matches Ok(b) ==> b@ == le_u16(payload@.len() as u16) + payload@,
        r matches Err(e) ==> e == FrameError::TooLong,
{
    codec_encode(payload)
}

/// Bytes received on a connection that do not make a whole frame yet.
pub struct FrameReader {
    pending: Vec<u8>,
}

impl FrameReader {
    pub closed spec fn pending(&self) -> Seq<u8> {
        self.pending@
    }

    pub fn new() -> (r: FrameReader)
        ensures
            r.pending() == Seq::<u8>::empty(),
    {
        FrameReader { pending: Vec::new() }
    }

    /// Appends bytes as they came off the socket.
    pub fn push_bytes(&mut self, data: &[u8])
        ensures
            final(self).pending() == old(self).pending() + data@,
    {
        let mut i: usize = 0;
        while i < data.len()
            invariant
                i <= data@.len(),
                self.pending() == old(self).pending() + data@.subrange(0, i as int),
            decreases data@.len() - i,
        {
            self.pending.push(data[i]);
            assert(data@.subrange(0, i + 1) =~= data@.subrange(0, i as int).push(data@[i as int]));
            i = i + 1;
        }
        assert(data@.subrange(0, data@.len() as int) =~= data@);
    }

    /// Takes the next whole frame's payload off the front. A frame that declares more than
    /// `MAX_PACKET_LENGTH` bytes is an error, and none of its bytes are taken or handed on.
    pub fn next_frame(&mut self) -> (r: Result<Option<Vec<u8>>, FrameError>)
        ensures
            result_view(r) == frame_result(old(self).pending()),
            final(self).pending() == frame_rest(old(self).pending()),
    {
        codec_decode(&mut self.pending)
    }
}

/// A frame written by `encode_frame` reads back whole, with its payload unchanged,
/// whatever bytes follow it on the stream.
pub proof fn law_frame_round_trip(payload: Seq<u8>, tail: Seq<u8>)
    requires
        payload.len() <= MAX_PACKET_LENGTH,
    ensures
        ({
            let b = le_u16(payload.len() as u16) + payload + tail;
            &&& declared_len(b) == payload.len()
            &&& b.subrange(2, 2 + declared_len(b)) == payload
            &&& b.subrange(2 + declared_len(b), b.len() as int) == tail
        }),
{
    let b = le_u16(payload.len() as u16) + payload + tail;
    crate::wire::law_u16_round_trip(payload.len() as u16);
    assert(b[0] == le_u16(payload.len() as u16)[0] && b[1] == le_u16(payload.len() as u16)[1]);
    assert(b.subrange(2, 2 + payload.len() as int) =~= payload);
    assert(b.subrange(2 + payload.len() as int, b.len() as int) =~= tail);
}

/// A frame that declares more than `MAX_PACKET_LENGTH` payload bytes is refused
/// before any of it is handed on: the error comes back and the buffer is left as it was.
pub proof fn law_oversized_frame_refused(b: Seq<u8>)
    requires
        b.len() >= 2,
        declared_len(b) > MAX_PACKET_LENGTH,
    ensures
        frame_result(b) == Err::<Option<Seq<u8>>, FrameError>(FrameError::TooLong),
        frame_rest(b) == b,
{
}

} // verus!
