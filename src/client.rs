use vstd::prelude::*;
use vstd::utf8::*;
use crate::bin_reader::{decode_str, BinReader};
use crate::bin_writer::BinWriter;
use crate::message::{ClientMessage, ServerMessage};
use crate::wire::{fits_str, from_le_u16, from_le_u32, le_u32, str_bytes, ClientId};

verus! {

/// A message the server pushes to a client outside any request of its own.
#[derive(Debug, Clone, PartialEq)]
pub enum StreamedMessage {
    Challenged,
    Hint(String),
    Attempt(bool, String),
}

pub enum StreamedView {
    Challenged,
    Hint(Seq<char>),
    Attempt(bool, Seq<char>),
}

impl StreamedMessage {
    pub open spec fn view(&self) -> StreamedView {
        match self {
            StreamedMessage::Challenged => StreamedView::Challenged,
            StreamedMessage::Hint(s) => StreamedView::Hint(s@),
            StreamedMessage::Attempt(v, s) => StreamedView::Attempt(*v, s@),
        }
    }
}

/// Why a server reply could not be used.
#[derive(Debug, Clone, Copy, PartialEq, Eq, Structural)]
pub enum ClientError {
    /// The reply is too short for its fields, or holds invalid UTF-8.
    Malformed,
    /// The reply's opcode is not one expected here.
    Unexpected,
    /// The server answered with `Failure`.
    Refused,
}

/// Bytes of a request that carries one string.
pub open spec fn text_request_bytes(m: ClientMessage, s: Seq<char>) -> Seq<u8> {
    seq![m.code()] + str_bytes(s)
}

fn text_request(m: ClientMessage, s: &str) -> (r: Vec<u8>)
    requires
        fits_str(s@),
    ensures
        r@ == text_request_bytes(m, s@),
{
    let mut w = BinWriter::with_capacity(3 + s.len());
    w.write_u8(m.to_u8());
    w.write_str(s);
    assert(w.written() =~= text_request_bytes(m, s@));
    w.clone_data()
}

pub fn authorization_request(password: &str) -> (r: Vec<u8>)
    requires
        fits_str(password@),
    ensures
        r@ == text_request_bytes(ClientMessage::Authorization, password@),
{
    text_request(ClientMessage::Authorization, password)
}

pub fn list_of_opponents_request() -> (r: Vec<u8>)
    ensures
        r@ == seq![ClientMessage::ListOfOpponents.code()],
{
    let mut w = BinWriter::with_capacity(1);
    w.write_u8(ClientMessage::ListOfOpponents.to_u8());
    assert(w.written() =~= seq![ClientMessage::ListOfOpponents.code()]);
    w.clone_data()
}

pub fn request_match_request(opponent_id: ClientId, word: &str) -> (r: Vec<u8>)
    requires
        fits_str(word@),
    ensures
        r@ == seq![ClientMessage::RequestMatch.code()] + le_u32(opponent_id) + str_bytes(word@),
{
    let mut w = BinWriter::with_capacity(7 + word.len());
    w.write_u8(ClientMessage::RequestMatch.to_u8());
    w.write_u32(opponent_id);
    w.write_str(word);
    assert(w.written() =~= seq![ClientMessage::RequestMatch.code()] + le_u32(opponent_id) + str_bytes(word@));
    w.clone_data()
}

pub fn send_hint_request(hint: &str) -> (r: Vec<u8>)
    requires
        fits_str(hint@),
    ensures
        r@ == text_request_bytes(ClientMessage::SendHint, hint@),
{
    text_request(ClientMessage::SendHint, hint)
}

pub fn send_attempt_request(word: &str) -> (r: Vec<u8>)
    requires
        fits_str(word@),
    ensures
        r@ == text_request_bytes(ClientMessage::SendAttempt, word@),
{
    text_request(ClientMessage::SendAttempt, word)
}

/// The opcode byte of a reply, if it has one.
pub open spec fn opcode_of(b: Seq<u8>) -> Option<u8> {
    if b.len() == 0 { None } else { Some(b[0]) }
}

/// The id the server assigns in answer to a good password: the reply's first four bytes.
pub fn parse_client_id(payload: &[u8]) -> (r: Result<ClientId, ClientError>)
    ensures
        payload@.len() < 4 ==> r == Err::<ClientId, ClientError>(ClientError::Malformed),
        payload@.len() >= 4 ==> r == Ok::<ClientId, ClientError>(
            from_le_u32(payload@[0], payload@[1], payload@[2], payload@[3]),
        ),
{
    let mut reader = BinReader::from_bytes(payload);
    match reader.read_u32() {
        Ok(v) => Ok(v),
        Err(_) => Err(ClientError::Malformed),
    }
}

/// The `n` little-endian `u32`s at the front of `b`.
pub open spec fn u32s_at(b: Seq<u8>, n: nat) -> Seq<u32>
    decreases n,
{
    if n == 0 {
        Seq::empty()
    } else {
        let k = 4 * (n - 1);
        u32s_at(b, (n - 1) as nat).push(from_le_u32(b[k], b[k + 1], b[k + 2], b[k + 3]))
    }
}

/// The ids of an opponent list reply: opcode, a `u16` count, then that many `u32`s.
pub fn parse_opponents(payload: &[u8]) -> (r: Result<Vec<ClientId>, ClientError>)
    ensures
        payload@.len() == 0 ==> r == Err::<Vec<ClientId>, ClientError>(ClientError::Malformed),
        payload@.len() > 0 && payload@[0] != ServerMessage::ListOfOpponents.code()
            ==> r == Err::<Vec<ClientId>, ClientError>(ClientError::Unexpected),
        payload@.len() > 0 && payload@[0] == ServerMessage::ListOfOpponents.code() ==> {
            if payload@.len() < 3 || payload@.len() < 3 + 4 * from_le_u16(payload@[1], payload@[2]) {
                r == Err::<Vec<ClientId>, ClientError>(ClientError::Malformed)
            } else {
                r matches Ok(ids) && ids@ == u32s_at(
                    payload@.subrange(3, payload@.len() as int),
                    from_le_u16(payload@[1], payload@[2]) as nat,
                )
            }
        },
{
    let mut reader = BinReader::from_bytes(payload);
    let op = match reader.read_u8() {
        Ok(v) => v,
        Err(_) => return Err(ClientError::Malformed),
    };
    if op != ServerMessage::ListOfOpponents.to_u8() {
        return Err(ClientError::Unexpected);
    }
    let n = match reader.read_u16() {
        Ok(v) => v as usize,
        Err(_) => return Err(ClientError::Malformed),
    };
    let ghost body = payload@.subrange(3, payload@.len() as int);
    assert(reader.rest() =~= body);
    if reader.remaining() / 4 < n {
        return Err(ClientError::Malformed);
    }
    let mut ids: Vec<ClientId> = Vec::with_capacity(n);
    let mut i: usize = 0;
    while i < n
        invariant
            reader.wf(),
            i <= n,
            body.len() >= 4 * n,
            reader.rest() == body.subrange(4 * i as int, body.len() as int),
            ids@ == u32s_at(body, i as nat),
        decreases n - i,
    {
        let v = reader.read_u32();
        match v {
            Ok(x) => ids.push(x),
            Err(_) => return Err(ClientError::Malformed),
        }
        assert(reader.rest() =~= body.subrange(4 * (i + 1) as int, body.len() as int));
        i = i + 1;
    }
    Ok(ids)
}

/// Whether a match request was taken: `Success`, `Failure`, or something else.
pub fn parse_match_response(payload: &[u8]) -> (r: Result<(), ClientError>)
    ensures
        opcode_of(payload@) == Some(ServerMessage::Success.code()) ==> r is Ok,
        opcode_of(payload@) == Some(ServerMessage::Failure.code())
            ==> r == Err::<(), ClientError>(ClientError::Refused),
        opcode_of(payload@) is None ==> r == Err::<(), ClientError>(ClientError::Malformed),
        opcode_of(payload@) matches Some(op) && op != ServerMessage::Success.code()
            && op != ServerMessage::Failure.code() ==> r == Err::<(), ClientError>(ClientError::Unexpected),
{
    let mut reader = BinReader::from_bytes(payload);
    match reader.read_u8() {
        Ok(0) => Ok(()),
        Ok(1) => Err(ClientError::Refused),
        Ok(_) => Err(ClientError::Unexpected),
        Err(_) => Err(ClientError::Malformed),
    }
}

/// The verdict in an attempt-result reply: its second byte is non-zero for a right guess.
pub fn parse_attempt_result(payload: &[u8]) -> (r: Result<bool, ClientError>)
    ensures
        opcode_of(payload@) is None ==> r == Err::<bool, ClientError>(ClientError::Malformed),
        opcode_of(payload@) matches Some(op) && op != ServerMessage::AttemptResult.code()
            ==> r == Err::<bool, ClientError>(ClientError::Unexpected),
        opcode_of(payload@) == Some(ServerMessage::AttemptResult.code()) ==> if payload@.len() < 2 {
            r == Err::<bool, ClientError>(ClientError::Malformed)
        } else {
            r == Ok::<bool, ClientError>(payload@[1] > 0)
        },
{
    let mut reader = BinReader::from_bytes(payload);
    let op = match reader.read_u8() {
        Ok(v) => v,
        Err(_) => return Err(ClientError::Malformed),
    };
    if op != ServerMessage::AttemptResult.to_u8() {
        return Err(ClientError::Unexpected);
    }
    match reader.read_u8() {
        Ok(v) => Ok(v > 0),
        Err(_) => Err(ClientError::Malformed),
    }
}

/// What a pushed message says: `Challenged`, a hint, or an opponent's attempt.
pub open spec fn streamed_of(b: Seq<u8>) -> Result<StreamedView, ClientError> {
    if b.len() == 0 {
        Err(ClientError::Malformed)
    } else if b[0] == ServerMessage::Challenged.code() {
        Ok(StreamedView::Challenged)
    } else if b[0] == ServerMessage::Hint.code() {
        match decode_str(b.subrange(1, b.len() as int)) {
            Ok((s, _)) => Ok(StreamedView::Hint(s)),
            Err(_) => Err(ClientError::Malformed),
        }
    } else if b[0] == ServerMessage::Attempt.code() {
        if b.len() < 2 {
            Err(ClientError::Malformed)
        } else {
            match decode_str(b.subrange(2, b.len() as int)) {
                Ok((s, _)) => Ok(StreamedView::Attempt(b[1] > 0, s)),
                Err(_) => Err(ClientError::Malformed),
            }
        }
    } else {
        Err(ClientError::Unexpected)
    }
}

pub fn parse_streamed_message(payload: &[u8]) -> (r: Result<StreamedMessage, ClientError>)
    ensures
        match streamed_of(payload@) {
            Ok(v) => r matches Ok(m) && m.view() == v,
            Err(e) => r matches Err(f) && f == e,
        },
{
    let mut reader = BinReader::from_bytes(payload);
    let op = match reader.read_u8() {
        Ok(v) => v,
        Err(_) => return Err(ClientError::Malformed),
    };
    assert(reader.rest() =~= payload@.subrange(1, payload@.len() as int));
    match ServerMessage::try_from_u8(op) {
        Some(ServerMessage::Challenged) => Ok(StreamedMessage::Challenged),
        Some(ServerMessage::Hint) => match reader.read_str() {
            Ok(s) => Ok(StreamedMessage::Hint(s)),
            Err(_) => Err(ClientError::Malformed),
        },
        Some(ServerMessage::Attempt) => {
            let valid = match reader.read_u8() {
                Ok(v) => v > 0,
                Err(_) => return Err(ClientError::Malformed),
            };
            assert(reader.rest() =~= payload@.subrange(2, payload@.len() as int));
            match reader.read_str() {
                Ok(s) => Ok(StreamedMessage::Attempt(valid, s)),
                Err(_) => Err(ClientError::Malformed),
            }
        },
        _ => Err(ClientError::Unexpected),
    }
}

} // verus!
