use guess_game::game::{str_eq_ignore_ascii_case, Game, GameError};

fn game_with(ids: &[u32]) -> Game {
    let mut g = Game::new("secret");
    for id in ids {
        g.add_player(*id);
    }
    g
}

#[test]
fn authorize_is_exact() {
    let g = Game::new("password");
    assert!(g.authorize("password"));
    assert!(!g.authorize("Password"));
    assert!(!g.authorize("password "));
    assert!(!g.authorize(""));
}

#[test]
fn available_players_are_listed() {
    let mut g = game_with(&[1, 2, 3]);
    assert_eq!(g.list_of_opponents(), vec![1, 2, 3]);
    assert_eq!(g.begin_match(1, 2, "test"), Ok(()));
    assert_eq!(g.list_of_opponents(), vec![3]);
}

#[test]
fn begin_match_errors_leave_state_alone() {
    let mut g = game_with(&[1, 2, 3]);
    assert_eq!(g.begin_match(1, 9, "w"), Err(GameError::PlayerNotFound));
    assert_eq!(g.begin_match(9, 1, "w"), Err(GameError::PlayerNotFound));
    assert_eq!(g.begin_match(1, 1, "w"), Err(GameError::PlayerUnavailable));
    assert_eq!(g.list_of_opponents(), vec![1, 2, 3]);
    assert_eq!(g.begin_match(1, 2, "w"), Ok(()));
    // the challenger is free, the opponent is not: nothing changes
    assert_eq!(g.begin_match(3, 2, "x"), Err(GameError::PlayerUnavailable));
    assert_eq!(g.list_of_opponents(), vec![3]);
    assert_eq!(g.opponents_id(3), Err(GameError::MatchNotFound));
}

#[test]
fn lookups_by_role() {
    let mut g = game_with(&[1, 2]);
    assert_eq!(g.begin_match(1, 2, "test"), Ok(()));
    assert_eq!(g.opponents_id(1), Ok(2));
    assert_eq!(g.challenger_id(2), Ok(1));
    assert_eq!(g.opponents_id(2), Err(GameError::MatchNotFound));
    assert_eq!(g.challenger_id(1), Err(GameError::MatchNotFound));
}

#[test]
fn guess_is_case_insensitive() {
    let mut g = game_with(&[1, 2]);
    assert_eq!(g.begin_match(1, 2, "test"), Ok(()));
    assert_eq!(g.validate_word(2, "TEST"), Ok(true));
    assert_eq!(g.validate_word(2, "test"), Ok(true));
    assert_eq!(g.validate_word(2, "TeSt"), Ok(true));
    assert_eq!(g.validate_word(2, "tests"), Ok(false));
    assert_eq!(g.validate_word(2, "attempt1"), Ok(false));
    assert_eq!(g.validate_word(1, "test"), Err(GameError::MatchNotFound));
}

#[test]
fn ascii_case_folding_only() {
    assert!(str_eq_ignore_ascii_case("ABC", "abc"));
    assert!(!str_eq_ignore_ascii_case("É", "é"));
    assert!(!str_eq_ignore_ascii_case("a", "ab"));
    assert!(str_eq_ignore_ascii_case("", ""));
}

#[test]
fn disconnect_removes_matches() {
    let mut g = game_with(&[1, 2, 3, 4]);
    assert_eq!(g.begin_match(1, 2, "one"), Ok(()));
    assert_eq!(g.begin_match(3, 4, "two"), Ok(()));
    g.remove_player(1);
    assert_eq!(g.challenger_id(2), Err(GameError::MatchNotFound));
    assert_eq!(g.validate_word(2, "one"), Err(GameError::MatchNotFound));
    assert_eq!(g.opponents_id(3), Ok(4));
    g.remove_player(4);
    assert_eq!(g.opponents_id(3), Err(GameError::MatchNotFound));
    // players stay marked as in a match
    assert_eq!(g.list_of_opponents(), Vec::<u32>::new());
}
