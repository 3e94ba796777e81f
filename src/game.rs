use vstd::prelude::*;
use vstd::utf8::*;
use crate::wire::ClientId;

verus! {

/// Where a connected player stands.
#[derive(Debug, Clone, Copy, PartialEq, Eq, Structural)]
pub enum PlayerState {
    Available,
    InMatch,
}

#[derive(Debug, Clone, Copy, PartialEq, Eq, Structural)]
pub struct Player {
    pub id: ClientId,
    pub state: PlayerState,
}

/// One live pairing: the challenger picked `word`, the opponent guesses it.
pub struct Match {
    pub challenger_id: ClientId,
    pub opponent_id: ClientId,
    pub word: String,
}

/// A match as a value: challenger, opponent, secret word.
pub type MatchView = (ClientId, ClientId, Seq<char>);

impl Match {
    pub open spec fn view(&self) -> MatchView {
        (self.challenger_id, self.opponent_id, self.word@)
    }

    pub fn new(challenger_id: ClientId, opponent_id: ClientId, word: String) -> (r: Match)
        ensures
            r.view() == (challenger_id, opponent_id, word@),
    {
        Match { challenger_id, opponent_id, word }
    }
}

/// Why a game operation was refused.
#[derive(Debug, Clone, Copy, PartialEq, Eq, Structural)]
pub enum GameError {
    PlayerNotFound,
    PlayerUnavailable,
    MatchNotFound,
}

/// ASCII upper-case letters mapped to lower case; every other byte kept.
pub open spec fn ascii_lower(b: u8) -> u8 {
    if 65 <= b && b <= 90 {
        (b + 32) as u8
    } else {
        b
    }
}

/// Byte-wise equality up to ASCII case.
pub open spec fn eq_ignore_ascii_case(a: Seq<u8>, b: Seq<u8>) -> bool {
    a.len() == b.len() && forall|i: int| 0 <= i < a.len() ==> ascii_lower(#[trigger] a[i]) == ascii_lower(b[i])
}

/// Whether `m` has `id` in either role.
pub open spec fn involves(m: MatchView, id: ClientId) -> bool {
    m.0 == id || m.1 == id
}

/// The error `begin_match` gives on these player states, or `None` where it succeeds.
pub open spec fn begin_match_error(
    states: Map<ClientId, PlayerState>,
    challenger_id: ClientId,
    opponent_id: ClientId,
) -> Option<GameError> {
    if !states.contains_key(challenger_id) {
        Some(GameError::PlayerNotFound)
    } else if states[challenger_id] != PlayerState::Available {
        Some(GameError::PlayerUnavailable)
    } else if !states.contains_key(opponent_id) {
        Some(GameError::PlayerNotFound)
    } else if states[opponent_id] != PlayerState::Available || challenger_id == opponent_id {
        Some(GameError::PlayerUnavailable)
    } else {
        None
    }
}

/// Compares two strings byte by byte, ignoring ASCII case.
pub fn str_eq_ignore_ascii_case(a: &str, b: &str) -> (r: bool)
    ensures
        r == eq_ignore_ascii_case(encode_utf8(a@), encode_utf8(b@)),
{
    let x = a.as_bytes();
    let y = b.as_bytes();
    if x.len() != y.len() {
        return false;
    }
    let mut i: usize = 0;
    while i < x.len()
        invariant
            x@ == encode_utf8(a@),
            y@ == encode_utf8(b@),
            x@.len() == y@.len(),
            i <= x@.len(),
            forall|j: int| 0 <= j < i ==> ascii_lower(#[trigger] x@[j]) == ascii_lower(y@[j]),
        decreases x@.len() - i,
    {
        let p = x[i];
        let q = y[i];
        let lp = if 65 <= p && p <= 90 { p + 32 } else { p };
        let lq = if 65 <= q && q <= 90 { q + 32 } else { q };
        if lp != lq {
            assert(ascii_lower(x@[i as int]) != ascii_lower(y@[i as int]));
            return false;
        }
        i = i + 1;
    }
    true
}


/// No player takes part in two matches of `s`.
pub open spec fn pairwise_disjoint(s: Seq<MatchView>) -> bool {
    forall|k: int, l: int| 0 <= k < s.len() && 0 <= l < s.len() && k != l
        ==> Game::disjoint(#[trigger] s[k], #[trigger] s[l])
}

/// The matches in which `id` takes no part.
pub open spec fn without(s: Seq<MatchView>, id: ClientId) -> Seq<MatchView> {
    s.filter(|m: MatchView| !involves(m, id))
}

pub open spec fn views(ms: Seq<Match>) -> Seq<MatchView> {
    ms.map_values(|m: Match| m.view())
}

proof fn lemma_without_disjoint(s: Seq<MatchView>, id: ClientId)
    requires
        pairwise_disjoint(s),
    ensures
        pairwise_disjoint(without(s, id)),
        forall|m: MatchView| #[trigger] without(s, id).contains(m) <==> s.contains(m) && !involves(m, id),
    decreases s.len(),
{
    let p = |m: MatchView| !involves(m, id);
    reveal(Seq::filter);
    broadcast use vstd::seq_lib::group_filter_ensures;
    if s.len() > 0 {
        let rest = s.drop_last();
        assert(pairwise_disjoint(rest)) by {
            assert forall|k: int, l: int| 0 <= k < rest.len() && 0 <= l < rest.len() && k != l
                implies Game::disjoint(#[trigger] rest[k], #[trigger] rest[l]) by {
                assert(rest[k] == s[k] && rest[l] == s[l]);
            }
        }
        lemma_without_disjoint(rest, id);
        let f = without(rest, id);
        assert(without(s, id) == if p(s.last()) { f.push(s.last()) } else { f });
        if p(s.last()) {
            let g = f.push(s.last());
            assert forall|k: int, l: int| 0 <= k < g.len() && 0 <= l < g.len() && k != l
                implies Game::disjoint(#[trigger] g[k], #[trigger] g[l]) by {
                if k < f.len() && l < f.len() {
                    assert(g[k] == f[k] && g[l] == f[l]);
                } else if k < f.len() {
                    assert(f.contains(f[k]));
                    assert(rest.contains(g[k]));
                    let a = choose|a: int| 0 <= a < rest.len() && rest[a] == g[k];
                    assert(s[a] == g[k]);
                    assert(Game::disjoint(s[a], s[s.len() - 1]));
                } else {
                    assert(f.contains(f[l]));
                    assert(rest.contains(g[l]));
                    let a = choose|a: int| 0 <= a < rest.len() && rest[a] == g[l];
                    assert(s[a] == g[l]);
                    assert(Game::disjoint(s[s.len() - 1], s[a]));
                }
            }
        }
        assert forall|m: MatchView| #[trigger] without(s, id).contains(m) <==> s.contains(m) && !involves(m, id) by {
            if s.contains(m) && !involves(m, id) {
                let a = choose|a: int| 0 <= a < s.len() && s[a] == m;
                if a < s.len() - 1 {
                    assert(rest[a] == m);
                    assert(rest.contains(m));
                } else {
                    assert(without(s, id) == f.push(s.last()));
                    assert(without(s, id)[f.len() as int] == m);
                }
            }
            if without(s, id).contains(m) {
                let j = choose|j: int| 0 <= j < without(s, id).len() && without(s, id)[j] == m;
                if j < f.len() {
                    assert(f[j] == m);
                    assert(f.contains(m));
                    let a = choose|a: int| 0 <= a < rest.len() && rest[a] == m;
                    assert(s[a] == m);
                } else {
                    assert(s[s.len() - 1] == m);
                }
            }
        }
    }
}

/// The matches of `ms` that do not have `id` in either role, in their order.
fn matches_without(ms: &Vec<Match>, id: ClientId) -> (kept: Vec<Match>)
    ensures
        views(kept@) == without(views(ms@), id),
{
    let mut kept: Vec<Match> = Vec::new();
    let mut k: usize = 0;
    while k < ms.len()
        invariant
            k <= ms@.len(),
            views(kept@) == without(views(ms@).subrange(0, k as int), id),
        decreases ms@.len() - k,
    {
        let ghost before = views(kept@);
        let m = &ms[k];
        let ghost pre = views(ms@).subrange(0, k as int);
        let ghost cur = views(ms@).subrange(0, k + 1);
        assert(cur.drop_last() =~= pre);
        assert(cur.last() == m.view());
        proof { reveal(Seq::filter); }
        if m.challenger_id != id && m.opponent_id != id {
            kept.push(Match::new(m.challenger_id, m.opponent_id, m.word.clone()));
            assert(views(kept@) =~= before.push(m.view()));
        } else {
            assert(views(kept@) =~= before);
        }
        k = k + 1;
    }
    assert(views(ms@).subrange(0, k as int) =~= views(ms@));
    kept
}

/// The registry of connected players and live matches, with the shared secret.
pub struct Game {
    players: Vec<Player>,
    matches: Vec<Match>,
    password: String,
    states: Ghost<Map<ClientId, PlayerState>>,
}

impl Game {
    /// Each connected player's state, by id.
    pub closed spec fn players_view(&self) -> Map<ClientId, PlayerState> {
        self.states@
    }

    /// The live matches, oldest first.
    pub closed spec fn matches_view(&self) -> Seq<MatchView> {
        views(self.matches@)
    }

    /// The configured secret.
    pub closed spec fn secret(&self) -> Seq<char> {
        self.password@
    }

    pub open spec fn is_challenger(&self, id: ClientId) -> bool {
        exists|k: int| 0 <= k < self.matches_view().len() && (#[trigger] self.matches_view()[k]).0 == id
    }

    pub open spec fn is_opponent(&self, id: ClientId) -> bool {
        exists|k: int| 0 <= k < self.matches_view().len() && (#[trigger] self.matches_view()[k]).1 == id
    }

    /// The player list and the state map agree, ids are unique, and each player
    /// takes part in at most one match, as a player marked `InMatch`.
    pub closed spec fn wf(&self) -> bool {
        &&& forall|i: int, j: int|
            0 <= i < j < self.players@.len() ==> self.players@[i].id != self.players@[j].id
        &&& forall|i: int|
            0 <= i < self.players@.len() ==> self.states@.contains_key(#[trigger] self.players@[i].id)
                && self.states@[self.players@[i].id] == self.players@[i].state
        &&& forall|id: ClientId|
            #[trigger] self.states@.contains_key(id) ==> exists|i: int|
                0 <= i < self.players@.len() && (#[trigger] self.players@[i]).id == id
        &&& forall|k: int|
            0 <= k < self.matches@.len() ==> Game::match_ok(self.states@, #[trigger] self.matches@[k].view())
        &&& pairwise_disjoint(self.matches_view())
    }

    pub open spec fn match_ok(states: Map<ClientId, PlayerState>, m: MatchView) -> bool {
        &&& m.0 != m.1
        &&& states.contains_key(m.0) && states[m.0] == PlayerState::InMatch
        &&& states.contains_key(m.1) && states[m.1] == PlayerState::InMatch
    }

    pub open spec fn disjoint(m: MatchView, n: MatchView) -> bool {
        !involves(n, m.0) && !involves(n, m.1)
    }

    pub fn new(password: &str) -> (r: Game)
        ensures
            r.wf(),
            r.players_view() == Map::<ClientId, PlayerState>::empty(),
            r.matches_view() == Seq::<MatchView>::empty(),
            r.secret() == password@,
    {
        let r = Game {
            players: Vec::new(),
            matches: Vec::new(),
            password: password.to_owned(),
            states: Ghost(Map::empty()),
        };
        assert(r.matches_view() =~= Seq::<MatchView>::empty());
        r
    }

    /// Whether `password` is exactly the configured secret.
    pub fn authorize(&self, password: &str) -> (r: bool)
        ensures
            r == (password@ == self.secret()),
    {
        self.password == password.to_owned()
    }

    fn find_player(&self, id: ClientId) -> (r: Option<usize>)
        requires
            self.wf(),
        ensures
            r matches Some(i) ==> i < self.players@.len() && self.players@[i as int].id == id,
            r is None <==> !self.players_view().contains_key(id),
    {
        let mut i: usize = 0;
        while i < self.players.len()
            invariant
                self.wf(),
                i <= self.players@.len(),
                forall|j: int| 0 <= j < i ==> self.players@[j].id != id,
            decreases self.players@.len() - i,
        {
            if self.players[i].id == id {
                return Some(i);
            }
            i = i + 1;
        }
        None
    }

    /// Registers a newly connected player as `Available`.
    pub fn add_player(&mut self, id: ClientId)
        requires
            old(self).wf(),
            !old(self).players_view().contains_key(id),
        ensures
            final(self).wf(),
            final(self).players_view() == old(self).players_view().insert(id, PlayerState::Available),
            final(self).matches_view() == old(self).matches_view(),
            final(self).secret() == old(self).secret(),
    {
        self.players.push(Player { id, state: PlayerState::Available });
        self.states = Ghost(self.states@.insert(id, PlayerState::Available));
        assert(self.matches_view() =~= old(self).matches_view());
        assert forall|x: ClientId| #[trigger] self.states@.contains_key(x) implies exists|i: int|
            0 <= i < self.players@.len() && (#[trigger] self.players@[i]).id == x by {
            if x != id {
                let i = choose|i: int| 0 <= i < old(self).players@.len() && (#[trigger] old(self).players@[i]).id == x;
                assert(self.players@[i] == old(self).players@[i]);
            } else {
                assert(self.players@[old(self).players@.len() as int].id == x);
            }
        }
        assert forall|k: int| 0 <= k < self.matches@.len() implies Game::match_ok(self.states@, #[trigger] self.matches@[k].view()) by {
            assert(Game::match_ok(old(self).states@, old(self).matches@[k].view()));
        }
    }


    /// The opponent in the match that `challenger_id` leads.
    pub fn opponents_id(&self, challenger_id: ClientId) -> (r: Result<ClientId, GameError>)
        requires
            self.wf(),
        ensures
            r is Err <==> !self.is_challenger(challenger_id),
            r is Err ==> r == Err::<ClientId, GameError>(GameError::MatchNotFound),
            r matches Ok(o) ==> forall|k: int| 0 <= k < self.matches_view().len()
                && (#[trigger] self.matches_view()[k]).0 == challenger_id ==> self.matches_view()[k].1 == o,
    {
        let mut k: usize = 0;
        while k < self.matches.len()
            invariant
                self.wf(),
                k <= self.matches@.len(),
                forall|j: int| 0 <= j < k ==> self.matches@[j].challenger_id != challenger_id,
            decreases self.matches@.len() - k,
        {
            if self.matches[k].challenger_id == challenger_id {
                assert(self.matches_view()[k as int].0 == challenger_id);
                assert forall|j: int| 0 <= j < self.matches_view().len()
                    && (#[trigger] self.matches_view()[j]).0 == challenger_id implies
                    self.matches_view()[j].1 == self.matches@[k as int].opponent_id by {
                    if j != k {
                        assert(Game::disjoint(self.matches@[j].view(), self.matches@[k as int].view()));
                    }
                }
                return Ok(self.matches[k].opponent_id);
            }
            k = k + 1;
        }
        Err(GameError::MatchNotFound)
    }

    /// The challenger in the match where `opponent_id` guesses.
    pub fn challenger_id(&self, opponent_id: ClientId) -> (r: Result<ClientId, GameError>)
        requires
            self.wf(),
        ensures
            r is Err <==> !self.is_opponent(opponent_id),
            r is Err ==> r == Err::<ClientId, GameError>(GameError::MatchNotFound),
            r matches Ok(c) ==> forall|k: int| 0 <= k < self.matches_view().len()
                && (#[trigger] self.matches_view()[k]).1 == opponent_id ==> self.matches_view()[k].0 == c,
    {
        match self.find_opponent_match(opponent_id) {
            Some(k) => Ok(self.matches[k].challenger_id),
            None => Err(GameError::MatchNotFound),
        }
    }

    fn find_opponent_match(&self, opponent_id: ClientId) -> (r: Option<usize>)
        requires
            self.wf(),
        ensures
            r is None <==> !self.is_opponent(opponent_id),
            r matches Some(k) ==> k < self.matches@.len() && forall|j: int| 0 <= j < self.matches_view().len()
                && (#[trigger] self.matches_view()[j]).1 == opponent_id ==> j == k,
    {
        let mut k: usize = 0;
        while k < self.matches.len()
            invariant
                self.wf(),
                k <= self.matches@.len(),
                forall|j: int| 0 <= j < k ==> self.matches@[j].opponent_id != opponent_id,
            decreases self.matches@.len() - k,
        {
            if self.matches[k].opponent_id == opponent_id {
                assert(self.matches_view()[k as int].1 == opponent_id);
                assert forall|j: int| 0 <= j < self.matches_view().len()
                    && (#[trigger] self.matches_view()[j]).1 == opponent_id implies j == k by {
                    if j != k {
                        assert(Game::disjoint(self.matches@[j].view(), self.matches@[k as int].view()));
                    }
                }
                return Some(k);
            }
            k = k + 1;
        }
        None
    }

    /// Whether `word` is the secret of the match where `opponent_id` guesses, ignoring ASCII case.
    pub fn validate_word(&self, opponent_id: ClientId, word: &str) -> (r: Result<bool, GameError>)
        requires
            self.wf(),
        ensures
            r is Err <==> !self.is_opponent(opponent_id),
            r is Err ==> r == Err::<bool, GameError>(GameError::MatchNotFound),
            r matches Ok(b) ==> forall|k: int| 0 <= k < self.matches_view().len()
                && (#[trigger] self.matches_view()[k]).1 == opponent_id
                ==> b == eq_ignore_ascii_case(encode_utf8(word@), encode_utf8(self.matches_view()[k].2)),
    {
        match self.find_opponent_match(opponent_id) {
            Some(k) => Ok(str_eq_ignore_ascii_case(word, self.matches[k].word.as_str())),
            None => Err(GameError::MatchNotFound),
        }
    }


    fn set_in_match(&mut self, i: usize)
        requires
            i < old(self).players@.len(),
        ensures
            final(self).players@ == old(self).players@.update(i as int, Player { id: old(self).players@[i as int].id, state: PlayerState::InMatch }),
            final(self).states@ == old(self).states@.insert(old(self).players@[i as int].id, PlayerState::InMatch),
            final(self).matches@ == old(self).matches@,
            final(self).password == old(self).password,
    {
        let id = self.players[i].id;
        self.players[i] = Player { id, state: PlayerState::InMatch };
        self.states = Ghost(self.states@.insert(id, PlayerState::InMatch));
    }

    /// Pairs two `Available` players around `word`, marking both `InMatch`.
    /// Checks both players before changing either: on error nothing changes.
    pub fn begin_match(&mut self, challenger_id: ClientId, opponent_id: ClientId, word: &str) -> (r: Result<(), GameError>)
        requires
            old(self).wf(),
        ensures
            final(self).wf(),
            final(self).secret() == old(self).secret(),
            match begin_match_error(old(self).players_view(), challenger_id, opponent_id) {
                Some(e) => r == Err::<(), GameError>(e)
                    && final(self).players_view() == old(self).players_view()
                    && final(self).matches_view() == old(self).matches_view(),
                None => r is Ok
                    && final(self).players_view() == old(self).players_view()
                        .insert(challenger_id, PlayerState::InMatch)
                        .insert(opponent_id, PlayerState::InMatch)
                    && final(self).matches_view() == old(self).matches_view().push((challenger_id, opponent_id, word@)),
            },
    {
        let ci = match self.find_player(challenger_id) {
            Some(i) => i,
            None => return Err(GameError::PlayerNotFound),
        };
        if self.players[ci].state != PlayerState::Available {
            return Err(GameError::PlayerUnavailable);
        }
        let oi = match self.find_player(opponent_id) {
            Some(i) => i,
            None => return Err(GameError::PlayerNotFound),
        };
        if self.players[oi].state != PlayerState::Available || challenger_id == opponent_id {
            return Err(GameError::PlayerUnavailable);
        }
        let ghost g0 = *self;
        // neither player is in a match: match participants are all marked InMatch
        assert forall|k: int| 0 <= k < g0.matches@.len() implies
            !involves(#[trigger] g0.matches@[k].view(), challenger_id) && !involves(g0.matches@[k].view(), opponent_id) by {
            assert(Game::match_ok(g0.states@, g0.matches@[k].view()));
        }
        self.set_in_match(ci);
        self.set_in_match(oi);
        self.matches.push(Match::new(challenger_id, opponent_id, word.to_owned()));
        let ghost n = g0.matches@.len() as int;
        assert(self.matches_view() =~= g0.matches_view().push((challenger_id, opponent_id, word@)));
        assert forall|i: int| 0 <= i < self.players@.len() implies self.states@.contains_key(#[trigger] self.players@[i].id)
            && self.states@[self.players@[i].id] == self.players@[i].state by {
            assert(g0.states@.contains_key(g0.players@[i].id));
        }
        assert forall|x: ClientId| #[trigger] self.states@.contains_key(x) implies exists|i: int|
            0 <= i < self.players@.len() && (#[trigger] self.players@[i]).id == x by {
            let i = choose|i: int| 0 <= i < g0.players@.len() && (#[trigger] g0.players@[i]).id == x;
            assert(self.players@[i].id == x);
        }
        assert forall|k: int| 0 <= k < self.matches@.len() implies Game::match_ok(self.states@, #[trigger] self.matches@[k].view()) by {
            if k < n {
                assert(self.matches@[k] == g0.matches@[k]);
                assert(Game::match_ok(g0.states@, g0.matches@[k].view()));
            }
        }
        assert forall|k: int, l: int| 0 <= k < self.matches_view().len() && 0 <= l < self.matches_view().len() && k != l
            implies Game::disjoint(#[trigger] self.matches_view()[k], #[trigger] self.matches_view()[l]) by {
            if k < n {
                assert(self.matches_view()[k] == g0.matches_view()[k]);
            }
            if l < n {
                assert(self.matches_view()[l] == g0.matches_view()[l]);
            }
            if k >= n {
                assert(!involves(g0.matches@[l].view(), challenger_id));
            }
            if l >= n {
                assert(!involves(g0.matches@[k].view(), challenger_id));
            }
        }
        Ok(())
    }

    /// Whether `new` is `old` with player `id` and every match that has it taken out.
    pub open spec fn after_removal(old: Game, new: Game, id: ClientId) -> bool {
        &&& new.players_view() == old.players_view().remove(id)
        &&& forall|m: MatchView| #[trigger] new.matches_view().contains(m)
            <==> old.matches_view().contains(m) && !involves(m, id)
        &&& new.secret() == old.secret()
    }

    /// Takes a disconnected player out, with every match it was part of.
    pub fn remove_player(&mut self, id: ClientId)
        requires
            old(self).wf(),
        ensures
            final(self).wf(),
            Game::after_removal(*old(self), *final(self), id),
    {
        let ghost g0 = *self;
        if let Some(i) = self.find_player(id) {
            self.players.remove(i);
            self.states = Ghost(self.states@.remove(id));
            assert forall|x: ClientId| #[trigger] self.states@.contains_key(x) implies exists|j: int|
                0 <= j < self.players@.len() && (#[trigger] self.players@[j]).id == x by {
                let a = choose|a: int| 0 <= a < g0.players@.len() && (#[trigger] g0.players@[a]).id == x;
                if a < i {
                    assert(self.players@[a].id == x);
                } else {
                    assert(a != i);
                    assert(self.players@[a - 1].id == x);
                }
            }
        } else {
            self.states = Ghost(self.states@.remove(id));
            assert(self.states@ =~= g0.states@);
        }
        let kept = matches_without(&self.matches, id);
        self.matches = kept;
        proof {
            lemma_without_disjoint(g0.matches_view(), id);
        }
        assert forall|k: int| 0 <= k < self.matches@.len() implies Game::match_ok(self.states@, #[trigger] self.matches@[k].view()) by {
            let m = self.matches_view()[k];
            assert(self.matches_view().contains(m));
            let a = choose|a: int| 0 <= a < g0.matches_view().len() && g0.matches_view()[a] == m;
            assert(Game::match_ok(g0.states@, g0.matches@[a].view()));
        }
        assert(self.players_view() =~= g0.players_view().remove(id));
    }

    /// The id of every `Available` player, each once.
    pub fn list_of_opponents(&self) -> (r: Vec<ClientId>)
        requires
            self.wf(),
        ensures
            r@.no_duplicates(),
            forall|id: ClientId| r@.contains(id) <==> self.players_view().contains_key(id)
                && self.players_view()[id] == PlayerState::Available,
    {
        let mut r: Vec<ClientId> = Vec::new();
        let mut i: usize = 0;
        while i < self.players.len()
            invariant
                self.wf(),
                i <= self.players@.len(),
                r@.no_duplicates(),
                forall|id: ClientId| r@.contains(id) <==> exists|j: int|
                    0 <= j < i && (#[trigger] self.players@[j]).id == id
                        && self.players@[j].state == PlayerState::Available,
            decreases self.players@.len() - i,
        {
            let p = self.players[i];
            if p.state == PlayerState::Available {
                assert(!r@.contains(p.id));
                let ghost before = r@;
                r.push(p.id);
                assert forall|id: ClientId| r@.contains(id) <==> exists|j: int|
                    0 <= j < i + 1 && (#[trigger] self.players@[j]).id == id
                        && self.players@[j].state == PlayerState::Available by {
                    assert(r@ == before.push(p.id));
                    if r@.contains(id) {
                        let k = choose|k: int| 0 <= k < r@.len() && r@[k] == id;
                        if k < before.len() {
                            assert(before[k] == id);
                            assert(before.contains(id));
                        } else {
                            assert(self.players@[i as int].id == id);
                        }
                    }
                    if exists|j: int| 0 <= j < i + 1 && (#[trigger] self.players@[j]).id == id
                        && self.players@[j].state == PlayerState::Available {
                        let j = choose|j: int| 0 <= j < i + 1 && (#[trigger] self.players@[j]).id == id
                            && self.players@[j].state == PlayerState::Available;
                        if j == i {
                            assert(r@[before.len() as int] == id);
                        } else {
                            assert(before.contains(id));
                            let k = choose|k: int| 0 <= k < before.len() && before[k] == id;
                            assert(r@[k] == id);
                        }
                    }
                }
            } else {
                assert forall|id: ClientId| r@.contains(id) <==> exists|j: int|
                    0 <= j < i + 1 && (#[trigger] self.players@[j]).id == id
                        && self.players@[j].state == PlayerState::Available by {
                    if exists|j: int| 0 <= j < i + 1 && (#[trigger] self.players@[j]).id == id
                        && self.players@[j].state == PlayerState::Available {
                        let j = choose|j: int| 0 <= j < i + 1 && (#[trigger] self.players@[j]).id == id
                            && self.players@[j].state == PlayerState::Available;
                        assert(j != i);
                    }
                }
            }
            i = i + 1;
        }
        assert forall|id: ClientId| self.players_view().contains_key(id)
            && self.players_view()[id] == PlayerState::Available implies r@.contains(id) by {
            {
                let j = choose|j: int| 0 <= j < self.players@.len() && (#[trigger] self.players@[j]).id == id;
            }
        }
        r
    }
}

/// A match can begin only between two distinct players who are both `Available`.
pub proof fn law_match_needs_available_players(
    states: Map<ClientId, PlayerState>,
    challenger_id: ClientId,
    opponent_id: ClientId,
)
    requires
        begin_match_error(states, challenger_id, opponent_id) is None,
    ensures
        states.contains_key(challenger_id) && states[challenger_id] == PlayerState::Available,
        states.contains_key(opponent_id) && states[opponent_id] == PlayerState::Available,
        challenger_id != opponent_id,
{
}

/// Two guesses that differ only in ASCII case get the same verdict against any secret word.
pub proof fn law_guess_ignores_case(guess_a: Seq<u8>, guess_b: Seq<u8>, secret: Seq<u8>)
    requires
        eq_ignore_ascii_case(guess_a, guess_b),
    ensures
        eq_ignore_ascii_case(guess_a, secret) == eq_ignore_ascii_case(guess_b, secret),
{
    if eq_ignore_ascii_case(guess_a, secret) {
        assert forall|i: int| 0 <= i < guess_b.len() implies ascii_lower(#[trigger] guess_b[i]) == ascii_lower(secret[i]) by {
            assert(ascii_lower(guess_a[i]) == ascii_lower(guess_b[i]));
        }
    }
    if eq_ignore_ascii_case(guess_b, secret) {
        assert forall|i: int| 0 <= i < guess_a.len() implies ascii_lower(#[trigger] guess_a[i]) == ascii_lower(secret[i]) by {
            assert(ascii_lower(guess_a[i]) == ascii_lower(guess_b[i]));
        }
    }
}

/// Once a player is removed, whoever shared a match with it is in no match at all,
/// so its lookups as challenger or opponent find nothing.
pub proof fn law_removal_ends_partner_match(pre: Game, post: Game, id: ClientId, m: MatchView, partner: ClientId)
    requires
        pre.wf(),
        Game::after_removal(pre, post, id),
        pre.matches_view().contains(m),
        involves(m, id),
        involves(m, partner),
    ensures
        !post.is_challenger(partner),
        !post.is_opponent(partner),
{
    let a = choose|a: int| 0 <= a < pre.matches_view().len() && pre.matches_view()[a] == m;
    if post.is_challenger(partner) || post.is_opponent(partner) {
        let k = choose|k: int| 0 <= k < post.matches_view().len() && involves(#[trigger] post.matches_view()[k], partner);
        let n = post.matches_view()[k];
        assert(post.matches_view().contains(n));
        assert(pre.matches_view().contains(n) && !involves(n, id));
        let b = choose|b: int| 0 <= b < pre.matches_view().len() && pre.matches_view()[b] == n;
        assert(a != b);
        assert(Game::disjoint(pre.matches_view()[a], pre.matches_view()[b]));
    }
}

} // verus!
