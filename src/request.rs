use vstd::prelude::*;
use vstd::utf8::*;
use crate::bin_reader::{decode_str, BinReader};
use crate::message::ClientMessage;
use crate::wire::{from_le_u32, ClientId};

verus! {

/// A decoded client request.
#[derive(Debug, Clone, PartialEq, Eq)]
pub enum Request {
    Authorization(String),
    ListOfOpponents,
    RequestMatch(ClientId, String),
    SendHint(String),
    SendAttempt(String),
}

/// A client request as a value.
pub enum RequestView {
    Authorization(Seq<char>),
    ListOfOpponents,
    RequestMatch(ClientId, Seq<char>),
    SendHint(Seq<char>),
    SendAttempt(Seq<char>),
}

/// Why a request could not be decoded.
#[derive(Debug, Clone, Copy, PartialEq, Eq, Structural)]
pub enum ProtocolError {
    /// The first byte names no client opcode.
    UnknownOpcode,
    /// The message is empty, too short for its fields, or holds invalid UTF-8.
    Malformed,
}

impl Request {
    pub open spec fn view(&self) -> RequestView {
        match self {
            Request::Authorization(s) => RequestView::Authorization(s@),
            Request::ListOfOpponents => RequestView::ListOfOpponents,
            Request::RequestMatch(id, s) => RequestView::RequestMatch(*id, s@),
            Request::SendHint(s) => RequestView::SendHint(s@),
            Request::SendAttempt(s) => RequestView::SendAttempt(s@),
        }
    }
}

/// The string field at the front of `rest`, as a request, or `Malformed`.
pub open spec fn str_field(rest: Seq<u8>, f: spec_fn(Seq<char>) -> RequestView) -> Result<RequestView, ProtocolError> {
    match decode_str(rest) {
        Ok((s, _)) => Ok(f(s)),
        Err(_) => Err(ProtocolError::Malformed),
    }
}

/// What a message's bytes ask for: an opcode byte, then that opcode's fields.
/// Bytes after the last field are ignored.
pub open spec fn request_of(b: Seq<u8>) -> Result<RequestView, ProtocolError> {
    if b.len() == 0 {
        Err(ProtocolError::Malformed)
    } else {
        let rest = b.subrange(1, b.len() as int);
        if b[0] == 0 {
            str_field(rest, |s: Seq<char>| RequestView::Authorization(s))
        } else if b[0] == 1 {
            Ok(RequestView::ListOfOpponents)
        } else if b[0] == 2 {
            if rest.len() < 4 {
                Err(ProtocolError::Malformed)
            } else {
                let id = from_le_u32(rest[0], rest[1], rest[2], rest[3]);
                str_field(rest.subrange(4, rest.len() as int), |s: Seq<char>| RequestView::RequestMatch(id, s))
            }
        } else if b[0] == 3 {
            str_field(rest, |s: Seq<char>| RequestView::SendHint(s))
        } else if b[0] == 4 {
            str_field(rest, |s: Seq<char>| RequestView::SendAttempt(s))
        } else {
            Err(ProtocolError::UnknownOpcode)
        }
    }
}

fn read_text(reader: &mut BinReader) -> (r: Result<String, ProtocolError>)
    requires
        old(reader).wf(),
    ensures
        final(reader).wf(),
        match decode_str(old(reader).rest()) {
            Ok((s, _)) => r matches Ok(t) && t@ == s,
            Err(_) => r == Err::<String, ProtocolError>(ProtocolError::Malformed),
        },
{
    match reader.read_str() {
        Ok(s) => Ok(s),
        Err(_) => Err(ProtocolError::Malformed),
    }
}

/// Decodes one client message.
pub fn decode_request(payload: &[u8]) -> (r: Result<Request, ProtocolError>)
    ensures
        match request_of(payload@) {
            Ok(q) => r matches Ok(t) && t.view() == q,
            Err(e) => r matches Err(f) && f == e,
        },
{
    let mut reader = BinReader::from_bytes(payload);
    let op = match reader.read_u8() {
        Ok(v) => v,
        Err(_) => return Err(ProtocolError::Malformed),
    };
    let ghost rest = payload@.subrange(1, payload@.len() as int);
    assert(reader.rest() == rest);
    match ClientMessage::try_from_u8(op) {
        None => Err(ProtocolError::UnknownOpcode),
        Some(ClientMessage::Authorization) => {
            let s = read_text(&mut reader)?;
            Ok(Request::Authorization(s))
        },
        Some(ClientMessage::ListOfOpponents) => Ok(Request::ListOfOpponents),
        Some(ClientMessage::RequestMatch) => {
            let id = match reader.read_u32() {
                Ok(v) => v,
                Err(_) => return Err(ProtocolError::Malformed),
            };
            let s = read_text(&mut reader)?;
            Ok(Request::RequestMatch(id, s))
        },
        Some(ClientMessage::SendHint) => {
            let s = read_text(&mut reader)?;
            Ok(Request::SendHint(s))
        },
        Some(ClientMessage::SendAttempt) => {
            let s = read_text(&mut reader)?;
            Ok(Request::SendAttempt(s))
        },
    }
}

/// Every string a request carries decodes from bytes that fit a `u16` length.
pub open spec fn fields_fit(q: RequestView) -> bool {
    match q {
        RequestView::Authorization(s) => encode_utf8(s).len() <= u16::MAX,
        RequestView::ListOfOpponents => true,
        RequestView::RequestMatch(_, s) => encode_utf8(s).len() <= u16::MAX,
        RequestView::SendHint(s) => encode_utf8(s).len() <= u16::MAX,
        RequestView::SendAttempt(s) => encode_utf8(s).len() <= u16::MAX,
    }
}

} // verus!
