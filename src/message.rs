use vstd::prelude::*;

verus! {

/// Opcodes of the messages a client sends.
#[derive(Debug, Clone, Copy, PartialEq, Eq, Structural)]
pub enum ClientMessage {
    Authorization,
    ListOfOpponents,
    RequestMatch,
    SendHint,
    SendAttempt,
}

/// Opcodes of the messages the server sends.
#[derive(Debug, Clone, Copy, PartialEq, Eq, Structural)]
pub enum ServerMessage {
    Success,
    Failure,
    RequestAuthorization,
    MatchBegan,
    Challenged,
    Hint,
    ListOfOpponents,
    Attempt,
    AttemptResult,
}

impl ClientMessage {
    pub open spec fn code(self) -> u8 {
        match self {
            ClientMessage::Authorization => 0,
            ClientMessage::ListOfOpponents => 1,
            ClientMessage::RequestMatch => 2,
            ClientMessage::SendHint => 3,
            ClientMessage::SendAttempt => 4,
        }
    }

    pub fn to_u8(self) -> (r: u8)
        ensures
            r == self.code(),
    {
        match self {
            ClientMessage::Authorization => 0,
            ClientMessage::ListOfOpponents => 1,
            ClientMessage::RequestMatch => 2,
            ClientMessage::SendHint => 3,
            ClientMessage::SendAttempt => 4,
        }
    }

    /// The opcode whose byte is `v`, if any.
    pub fn try_from_u8(v: u8) -> (r: Option<ClientMessage>)
        ensures
            r matches Some(m) ==> m.code() == v,
            r is None <==> v >= 5,
    {
        match v {
            0 => Some(ClientMessage::Authorization),
            1 => Some(ClientMessage::ListOfOpponents),
            2 => Some(ClientMessage::RequestMatch),
            3 => Some(ClientMessage::SendHint),
            4 => Some(ClientMessage::SendAttempt),
            _ => None,
        }
    }
}

impl ServerMessage {
    pub open spec fn code(self) -> u8 {
        match self {
            ServerMessage::Success => 0,
            ServerMessage::Failure => 1,
            ServerMessage::RequestAuthorization => 2,
            ServerMessage::MatchBegan => 3,
            ServerMessage::Challenged => 4,
            ServerMessage::Hint => 5,
            ServerMessage::ListOfOpponents => 6,
            ServerMessage::Attempt => 7,
            ServerMessage::AttemptResult => 8,
        }
    }

    pub fn to_u8(self) -> (r: u8)
        ensures
            r == self.code(),
    {
        match self {
            ServerMessage::Success => 0,
            ServerMessage::Failure => 1,
            ServerMessage::RequestAuthorization => 2,
            ServerMessage::MatchBegan => 3,
            ServerMessage::Challenged => 4,
            ServerMessage::Hint => 5,
            ServerMessage::ListOfOpponents => 6,
            ServerMessage::Attempt => 7,
            ServerMessage::AttemptResult => 8,
        }
    }

    /// The opcode whose byte is `v`, if any.
    pub fn try_from_u8(v: u8) -> (r: Option<ServerMessage>)
        ensures
            r matches Some(m) ==> m.code() == v,
            r is None <==> v >= 9,
    {
        match v {
            0 => Some(ServerMessage::Success),
            1 => Some(ServerMessage::Failure),
            2 => Some(ServerMessage::RequestAuthorization),
            3 => Some(ServerMessage::MatchBegan),
            4 => Some(ServerMessage::Challenged),
            5 => Some(ServerMessage::Hint),
            6 => Some(ServerMessage::ListOfOpponents),
            7 => Some(ServerMessage::Attempt),
            8 => Some(ServerMessage::AttemptResult),
            _ => None,
        }
    }
}

} // verus!
