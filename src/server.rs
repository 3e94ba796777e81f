use vstd::prelude::*;
use vstd::utf8::*;
use crate::bin_reader::decode_str;
use crate::bin_writer::BinWriter;
use crate::game::{begin_match_error, eq_ignore_ascii_case, Game, PlayerState};
use crate::message::ServerMessage;
use crate::request::{decode_request, fields_fit, request_of, ProtocolError, Request, RequestView};
use crate::wire::{le_u16, le_u32, str_bytes, ClientId};

verus! {

broadcast use vstd::utf8::decode_utf8_encode_utf8;

/// Most ids that one opponent list carries: the list then fits one frame.
pub const MAX_LISTED: usize = 255;

/// What the server asks of the connection layer.
#[derive(Debug, Clone, PartialEq, Eq)]
pub enum Outgoing {
    /// Queue `payload` as one frame to the client.
    Send(ClientId, Vec<u8>),
    /// Close the client's connection.
    Disconnect(ClientId),
}

pub open spec fn sends(o: Outgoing, to: ClientId, bytes: Seq<u8>) -> bool {
    match o {
        Outgoing::Send(t, b) => t == to && b@ == bytes,
        Outgoing::Disconnect(_) => false,
    }
}

pub open spec fn closes(o: Outgoing, to: ClientId) -> bool {
    match o {
        Outgoing::Disconnect(t) => t == to,
        Outgoing::Send(_, _) => false,
    }
}

/// The little-endian bytes of each id, in order.
pub open spec fn ids_bytes(ids: Seq<u32>) -> Seq<u8>
    decreases ids.len(),
{
    if ids.len() == 0 {
        Seq::empty()
    } else {
        ids_bytes(ids.drop_last()) + le_u32(ids.last())
    }
}

pub open spec fn op_bytes(m: ServerMessage) -> Seq<u8> {
    seq![m.code()]
}

pub open spec fn opponents_bytes(ids: Seq<u32>) -> Seq<u8> {
    op_bytes(ServerMessage::ListOfOpponents) + le_u16(ids.len() as u16) + ids_bytes(ids)
}

pub open spec fn hint_bytes(hint: Seq<char>) -> Seq<u8> {
    op_bytes(ServerMessage::Hint) + str_bytes(hint)
}

pub open spec fn flag(b: bool) -> u8 {
    if b { 1 } else { 0 }
}

pub open spec fn attempt_bytes(valid: bool, word: Seq<char>) -> Seq<u8> {
    op_bytes(ServerMessage::Attempt) + seq![flag(valid)] + str_bytes(word)
}

pub open spec fn attempt_result_bytes(valid: bool) -> Seq<u8> {
    op_bytes(ServerMessage::AttemptResult) + seq![flag(valid)]
}

fn op_message(m: ServerMessage) -> (r: Vec<u8>)
    ensures
        r@ == op_bytes(m),
{
    let mut w = BinWriter::with_capacity(1);
    w.write_u8(m.to_u8());
    assert(w.written() =~= op_bytes(m));
    w.clone_data()
}

/// The handshake's first message, sent to each client as it connects.
pub fn request_authorization() -> (r: Vec<u8>)
    ensures
        r@ == op_bytes(ServerMessage::RequestAuthorization),
{
    op_message(ServerMessage::RequestAuthorization)
}

fn client_id_message(id: ClientId) -> (r: Vec<u8>)
    ensures
        r@ == le_u32(id),
{
    let mut w = BinWriter::with_capacity(4);
    w.write_u32(id);
    assert(w.written() =~= le_u32(id));
    w.clone_data()
}

fn opponents_message(ids: &Vec<u32>) -> (r: Vec<u8>)
    requires
        ids@.len() <= MAX_LISTED,
    ensures
        r@ == opponents_bytes(ids@),
{
    let n = ids.len();
    let mut w = BinWriter::with_capacity(3 + 4 * n);
    w.write_u8(ServerMessage::ListOfOpponents.to_u8());
    w.write_u16(n as u16);
    let ghost head = w.written();
    assert(head =~= op_bytes(ServerMessage::ListOfOpponents) + le_u16(n as u16));
    let mut i: usize = 0;
    while i < n
        invariant
            w.wf(),
            n == ids@.len(),
            n <= MAX_LISTED,
            i <= n,
            w.capacity() == 3 + 4 * n,
            head.len() == 3,
            w.written() == head + ids_bytes(ids@.subrange(0, i as int)),
        decreases n - i,
    {
        let ghost pre = ids@.subrange(0, i as int);
        assert(ids@.subrange(0, i + 1).drop_last() =~= pre);
        proof { lemma_ids_bytes_len(pre); }
        w.write_u32(ids[i]);
        assert(w.written() =~= head + ids_bytes(ids@.subrange(0, i + 1)));
        i = i + 1;
    }
    assert(ids@.subrange(0, n as int) =~= ids@);
    w.clone_data()
}

proof fn lemma_ids_bytes_len(ids: Seq<u32>)
    ensures
        ids_bytes(ids).len() == 4 * ids.len(),
    decreases ids.len(),
{
    if ids.len() > 0 {
        lemma_ids_bytes_len(ids.drop_last());
    }
}

fn hint_message(hint: &str) -> (r: Vec<u8>)
    requires
        encode_utf8(hint@).len() <= u16::MAX,
    ensures
        r@ == hint_bytes(hint@),
{
    let mut w = BinWriter::with_capacity(3 + hint.len());
    w.write_u8(ServerMessage::Hint.to_u8());
    w.write_str(hint);
    assert(w.written() =~= hint_bytes(hint@));
    w.clone_data()
}

fn attempt_message(valid: bool, word: &str) -> (r: Vec<u8>)
    requires
        encode_utf8(word@).len() <= u16::MAX,
    ensures
        r@ == attempt_bytes(valid, word@),
{
    let mut w = BinWriter::with_capacity(4 + word.len());
    w.write_u8(ServerMessage::Attempt.to_u8());
    w.write_u8(if valid { 1 } else { 0 });
    w.write_str(word);
    assert(w.written() =~= attempt_bytes(valid, word@));
    w.clone_data()
}

fn attempt_result_message(valid: bool) -> (r: Vec<u8>)
    ensures
        r@ == attempt_result_bytes(valid),
{
    let mut w = BinWriter::with_capacity(2);
    w.write_u8(ServerMessage::AttemptResult.to_u8());
    w.write_u8(if valid { 1 } else { 0 });
    assert(w.written() =~= attempt_result_bytes(valid));
    w.clone_data()
}

/// `post` holds the same players, matches and secret as `pre`.
pub open spec fn unchanged(pre: Game, post: Game) -> bool {
    &&& post.players_view() == pre.players_view()
    &&& post.matches_view() == pre.matches_view()
    &&& post.secret() == pre.secret()
}

pub open spec fn available_other(g: Game, me: ClientId, x: ClientId) -> bool {
    g.players_view().contains_key(x) && g.players_view()[x] == PlayerState::Available && x != me
}

/// `ids` lists available players other than `me`, each once: all of them, or the first `MAX_LISTED`.
pub open spec fn listed(g: Game, me: ClientId, ids: Seq<u32>) -> bool {
    &&& ids.no_duplicates()
    &&& ids.len() <= MAX_LISTED
    &&& forall|x: ClientId| #[trigger] ids.contains(x) ==> available_other(g, me, x)
    &&& ids.len() < MAX_LISTED ==> forall|x: ClientId| available_other(g, me, x) ==> #[trigger] ids.contains(x)
}

pub open spec fn fails(out: Seq<Outgoing>, me: ClientId) -> bool {
    out.len() == 1 && sends(out[0], me, op_bytes(ServerMessage::Failure))
}

/// How the server answers request `q` from client `me`: the game before and after, and what goes out.
pub open spec fn answered(pre: Game, post: Game, me: ClientId, q: RequestView, out: Seq<Outgoing>) -> bool {
    match q {
        RequestView::Authorization(password) => unchanged(pre, post) && out.len() == 1 && if password == pre.secret() {
            sends(out[0], me, le_u32(me))
        } else {
            closes(out[0], me)
        },
        RequestView::ListOfOpponents => unchanged(pre, post) && out.len() == 1 && exists|ids: Seq<u32>|
            #[trigger] listed(pre, me, ids) && sends(out[0], me, opponents_bytes(ids)),
        RequestView::RequestMatch(opponent, word) => match begin_match_error(pre.players_view(), me, opponent) {
            Some(_) => unchanged(pre, post) && fails(out, me),
            None => {
                &&& post.players_view() == pre.players_view().insert(me, PlayerState::InMatch).insert(
                    opponent,
                    PlayerState::InMatch,
                )
                &&& post.matches_view() == pre.matches_view().push((me, opponent, word))
                &&& post.secret() == pre.secret()
                &&& out.len() == 2
                &&& sends(out[0], opponent, op_bytes(ServerMessage::Challenged))
                &&& sends(out[1], me, op_bytes(ServerMessage::Success))
            },
        },
        RequestView::SendHint(hint) => unchanged(pre, post) && if !pre.is_challenger(me) {
            fails(out, me)
        } else {
            out.len() == 1 && exists|k: int| 0 <= k < pre.matches_view().len() && (#[trigger] pre.matches_view()[k]).0 == me
                && sends(out[0], pre.matches_view()[k].1, hint_bytes(hint))
        },
        RequestView::SendAttempt(word) => unchanged(pre, post) && if !pre.is_opponent(me) {
            fails(out, me)
        } else {
            out.len() == 2 && exists|k: int| 0 <= k < pre.matches_view().len() && (#[trigger] pre.matches_view()[k]).1 == me && {
                let valid = eq_ignore_ascii_case(encode_utf8(word), encode_utf8(pre.matches_view()[k].2));
                &&& sends(out[0], pre.matches_view()[k].0, attempt_bytes(valid, word))
                &&& sends(out[1], me, attempt_result_bytes(valid))
            }
        },
    }
}

proof fn lemma_fields_fit(b: Seq<u8>)
    requires
        request_of(b) is Ok,
    ensures
        fields_fit(request_of(b)->Ok_0),
{
    let rest = b.subrange(1, b.len() as int);
    if b[0] == 2 {
        let r2 = rest.subrange(4, rest.len() as int);
        let n = crate::wire::from_le_u16(r2[0], r2[1]) as int;
        assert(encode_utf8(decode_utf8(r2.subrange(2, 2 + n))) == r2.subrange(2, 2 + n));
    } else if b[0] != 1 {
        let n = crate::wire::from_le_u16(rest[0], rest[1]) as int;
        assert(encode_utf8(decode_utf8(rest.subrange(2, 2 + n))) == rest.subrange(2, 2 + n));
    }
}

/// The server's decisions: who is connected, which matches run, which id comes next.
/// The connection layer hands it each event and carries out what it returns.
pub struct Server {
    game: Game,
    next_id: ClientId,
}

impl Server {
    pub closed spec fn game(&self) -> Game {
        self.game
    }

    /// The id the next accepted connection gets.
    pub closed spec fn next_id(&self) -> ClientId {
        self.next_id
    }

    /// Every connected player has an id below the next one to hand out, and none is 0.
    pub closed spec fn wf(&self) -> bool {
        &&& self.game.wf()
        &&& self.next_id > 0
        &&& forall|id: ClientId| #[trigger] self.game.players_view().contains_key(id) ==> 0 < id < self.next_id
    }

    pub fn new(password: &str) -> (r: Server)
        ensures
            r.wf(),
            r.next_id() == 1,
            r.game().players_view() == Map::<ClientId, PlayerState>::empty(),
            r.game().matches_view() == Seq::<crate::game::MatchView>::empty(),
            r.game().secret() == password@,
    {
        Server { game: Game::new(password), next_id: 1 }
    }

    /// Registers a new connection under the next id, as an available player.
    /// Gives `None`, and changes nothing, once the ids have run out.
    pub fn accept(&mut self) -> (r: Option<ClientId>)
        requires
            old(self).wf(),
        ensures
            final(self).wf(),
            old(self).next_id() == u32::MAX ==> r is None && *final(self) == *old(self),
            old(self).next_id() < u32::MAX ==> {
                &&& r == Some(old(self).next_id())
                &&& final(self).next_id() == old(self).next_id() + 1
                &&& !old(self).game().players_view().contains_key(old(self).next_id())
                &&& final(self).game().players_view() == old(self).game().players_view().insert(
                    old(self).next_id(),
                    PlayerState::Available,
                )
                &&& final(self).game().matches_view() == old(self).game().matches_view()
                &&& final(self).game().secret() == old(self).game().secret()
            },
    {
        if self.next_id == u32::MAX {
            return None;
        }
        let id = self.next_id;
        self.game.add_player(id);
        self.next_id = id + 1;
        Some(id)
    }

    /// Forgets a closed connection: its player and every match it took part in.
    pub fn disconnect(&mut self, id: ClientId)
        requires
            old(self).wf(),
        ensures
            final(self).wf(),
            final(self).next_id() == old(self).next_id(),
            Game::after_removal(old(self).game(), final(self).game(), id),
    {
        self.game.remove_player(id);
    }

    fn dispatch(&mut self, me: ClientId, q: Request) -> (r: Vec<Outgoing>)
        requires
            old(self).wf(),
            fields_fit(q.view()),
        ensures
            final(self).wf(),
            final(self).next_id() == old(self).next_id(),
            answered(old(self).game(), final(self).game(), me, q.view(), r@),
    {
        let mut out: Vec<Outgoing> = Vec::new();
        match q {
            Request::Authorization(password) => {
                if self.game.authorize(password.as_str()) {
                    out.push(Outgoing::Send(me, client_id_message(me)));
                } else {
                    out.push(Outgoing::Disconnect(me));
                }
            },
            Request::ListOfOpponents => {
                let ids = self.list_for(me);
                out.push(Outgoing::Send(me, opponents_message(&ids)));
                assert(listed(self.game(), me, ids@));
            },
            Request::RequestMatch(opponent, word) => {
                match self.game.begin_match(me, opponent, word.as_str()) {
                    Ok(()) => {
                        out.push(Outgoing::Send(opponent, op_message(ServerMessage::Challenged)));
                        out.push(Outgoing::Send(me, op_message(ServerMessage::Success)));
                    },
                    Err(_) => {
                        out.push(Outgoing::Send(me, op_message(ServerMessage::Failure)));
                    },
                }
                proof {
                    assert forall|id: ClientId| #[trigger] self.game.players_view().contains_key(id)
                        implies 0 < id < self.next_id by {
                        assert(old(self).game.players_view().contains_key(id));
                    }
                }
            },
            Request::SendHint(hint) => {
                match self.game.opponents_id(me) {
                    Ok(opponent) => {
                        out.push(Outgoing::Send(opponent, hint_message(hint.as_str())));
                        let ghost k = choose|k: int| 0 <= k < self.game.matches_view().len()
                            && (#[trigger] self.game.matches_view()[k]).0 == me;
                        assert(sends(out@[0], self.game.matches_view()[k].1, hint_bytes(hint@)));
                    },
                    Err(_) => {
                        out.push(Outgoing::Send(me, op_message(ServerMessage::Failure)));
                    },
                }
            },
            Request::SendAttempt(word) => {
                match self.game.validate_word(me, word.as_str()) {
                    Ok(valid) => {
                        let challenger = match self.game.challenger_id(me) {
                            Ok(c) => c,
                            Err(_) => me,
                        };
                        out.push(Outgoing::Send(challenger, attempt_message(valid, word.as_str())));
                        out.push(Outgoing::Send(me, attempt_result_message(valid)));
                        let ghost k = choose|k: int| 0 <= k < self.game.matches_view().len()
                            && (#[trigger] self.game.matches_view()[k]).1 == me;
                        assert(sends(out@[0], self.game.matches_view()[k].0, attempt_bytes(valid, word@)));
                        assert(sends(out@[1], me, attempt_result_bytes(valid)));
                    },
                    Err(_) => {
                        out.push(Outgoing::Send(me, op_message(ServerMessage::Failure)));
                    },
                }
            },
        }
        out
    }

    /// Handles one message from client `me`: a request is answered, an unknown opcode gets a
    /// `Failure` reply, and a malformed message closes the connection. No request is held back
    /// until the client has authorized.
    pub fn handle_message(&mut self, me: ClientId, payload: &[u8]) -> (r: Vec<Outgoing>)
        requires
            old(self).wf(),
        ensures
            final(self).wf(),
            final(self).next_id() == old(self).next_id(),
            match request_of(payload@) {
                Ok(q) => answered(old(self).game(), final(self).game(), me, q, r@),
                Err(ProtocolError::UnknownOpcode) => unchanged(old(self).game(), final(self).game())
                    && fails(r@, me),
                Err(ProtocolError::Malformed) => unchanged(old(self).game(), final(self).game())
                    && r@.len() == 1 && closes(r@[0], me),
            },
    {
        match decode_request(payload) {
            Ok(q) => {
                proof { lemma_fields_fit(payload@); }
                self.dispatch(me, q)
            },
            Err(ProtocolError::UnknownOpcode) => {
                let mut out: Vec<Outgoing> = Vec::new();
                out.push(Outgoing::Send(me, op_message(ServerMessage::Failure)));
                out
            },
            Err(ProtocolError::Malformed) => {
                let mut out: Vec<Outgoing> = Vec::new();
                out.push(Outgoing::Disconnect(me));
                out
            },
        }
    }

    fn list_for(&self, me: ClientId) -> (r: Vec<ClientId>)
        requires
            self.wf(),
        ensures
            listed(self.game(), me, r@),
    {
        let all = self.game.list_of_opponents();
        let mut r: Vec<ClientId> = Vec::new();
        let mut i: usize = 0;
        while i < all.len() && r.len() < MAX_LISTED
            invariant
                self.wf(),
                i <= all@.len(),
                all@.no_duplicates(),
                forall|id: ClientId| all@.contains(id) <==> self.game.players_view().contains_key(id)
                    && self.game.players_view()[id] == PlayerState::Available,
                r@.len() <= MAX_LISTED,
                r@.no_duplicates(),
                forall|x: ClientId| #[trigger] r@.contains(x) ==> available_other(self.game, me, x)
                    && exists|j: int| 0 <= j < i && all@[j] == x,
                r@.len() < MAX_LISTED ==> forall|j: int| 0 <= j < i && all@[j] != me ==> r@.contains(#[trigger] all@[j]),
            decreases all@.len() - i,
        {
            let x = all[i];
            assert(all@.contains(x));
            if x != me {
                let ghost before = r@;
                assert(!before.contains(x)) by {
                    if before.contains(x) {
                        let j = choose|j: int| 0 <= j < i && all@[j] == x;
                    }
                }
                r.push(x);
                assert forall|y: ClientId| #[trigger] r@.contains(y) implies available_other(self.game, me, y)
                    && exists|j: int| 0 <= j < i + 1 && all@[j] == y by {
                    let k = choose|k: int| 0 <= k < r@.len() && r@[k] == y;
                    if k < before.len() {
                        assert(before[k] == y);
                        assert(before.contains(y));
                    }
                }
                assert forall|j: int| 0 <= j < i + 1 && all@[j] != me && r@.len() < MAX_LISTED implies r@.contains(#[trigger] all@[j]) by {
                    if j < i {
                        let k = choose|k: int| 0 <= k < before.len() && before[k] == all@[j];
                        assert(r@[k] == all@[j]);
                    } else {
                        assert(r@[before.len() as int] == x);
                    }
                }
            }
            i = i + 1;
        }
        assert forall|x: ClientId| r@.len() < MAX_LISTED && available_other(self.game, me, x) implies #[trigger] r@.contains(x) by {
            assert(all@.contains(x));
            let j = choose|j: int| 0 <= j < all@.len() && all@[j] == x;
        }
        r
    }
}

} // verus!
