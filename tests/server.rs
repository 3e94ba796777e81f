use guess_game::client::{
    authorization_request, list_of_opponents_request, parse_attempt_result, parse_client_id,
    parse_match_response, parse_opponents, parse_streamed_message, request_match_request,
    send_attempt_request, send_hint_request, ClientError, StreamedMessage,
};
use guess_game::request::{decode_request, ProtocolError, Request};
use guess_game::server::{request_authorization, Outgoing, Server};

const PASSWORD: &str = "password";

fn payload_to(out: &[Outgoing], to: u32) -> Vec<u8> {
    for o in out {
        if let Outgoing::Send(t, b) = o {
            if *t == to {
                return b.clone();
            }
        }
    }
    panic!("nothing sent to {}", to);
}

fn connected(server: &mut Server) -> u32 {
    let id = server.accept().unwrap();
    let out = server.handle_message(id, &authorization_request(PASSWORD));
    assert_eq!(out.len(), 1);
    assert_eq!(parse_client_id(&payload_to(&out, id)), Ok(id));
    id
}

#[test]
fn ids_start_at_one() {
    let mut server = Server::new(PASSWORD);
    assert_eq!(server.accept(), Some(1));
    assert_eq!(server.accept(), Some(2));
    assert_eq!(request_authorization(), vec![2]);
}

#[test]
fn wrong_password_disconnects() {
    let mut server = Server::new(PASSWORD);
    let id = server.accept().unwrap();
    let out = server.handle_message(id, &authorization_request("Password"));
    assert_eq!(out, vec![Outgoing::Disconnect(id)]);
}

#[test]
fn unknown_opcode_gets_failure() {
    let mut server = Server::new(PASSWORD);
    let id = connected(&mut server);
    assert_eq!(server.handle_message(id, &[42]), vec![Outgoing::Send(id, vec![1])]);
}

#[test]
fn malformed_message_disconnects() {
    let mut server = Server::new(PASSWORD);
    let id = connected(&mut server);
    assert_eq!(server.handle_message(id, &[]), vec![Outgoing::Disconnect(id)]);
    assert_eq!(server.handle_message(id, &[3, 9, 0, b'a']), vec![Outgoing::Disconnect(id)]);
    assert_eq!(server.handle_message(id, &[2, 1, 0]), vec![Outgoing::Disconnect(id)]);
}

#[test]
fn decode_each_request() {
    assert_eq!(decode_request(&authorization_request("pw")), Ok(Request::Authorization("pw".to_string())));
    assert_eq!(decode_request(&list_of_opponents_request()), Ok(Request::ListOfOpponents));
    assert_eq!(
        decode_request(&request_match_request(7, "w")),
        Ok(Request::RequestMatch(7, "w".to_string()))
    );
    assert_eq!(decode_request(&send_hint_request("h")), Ok(Request::SendHint("h".to_string())));
    assert_eq!(decode_request(&send_attempt_request("a")), Ok(Request::SendAttempt("a".to_string())));
    assert_eq!(decode_request(&[5]), Err(ProtocolError::UnknownOpcode));
    assert_eq!(decode_request(&[0, 2, 0, 0xC3, 0x28]), Err(ProtocolError::Malformed));
}

#[test]
fn match_with_absent_or_busy_player_fails() {
    let mut server = Server::new(PASSWORD);
    let a = connected(&mut server);
    let b = connected(&mut server);
    let c = connected(&mut server);
    let out = server.handle_message(a, &request_match_request(99, "w"));
    assert_eq!(parse_match_response(&payload_to(&out, a)), Err(ClientError::Refused));
    let out = server.handle_message(a, &request_match_request(b, "w"));
    assert_eq!(parse_match_response(&payload_to(&out, a)), Ok(()));
    let out = server.handle_message(c, &request_match_request(b, "x"));
    assert_eq!(out, vec![Outgoing::Send(c, vec![1])]);
    // c is still free to be listed
    let out = server.handle_message(c, &list_of_opponents_request());
    assert_eq!(parse_opponents(&payload_to(&out, c)), Ok(vec![]));
}

#[test]
fn hint_and_attempt_need_a_match() {
    let mut server = Server::new(PASSWORD);
    let a = connected(&mut server);
    assert_eq!(server.handle_message(a, &send_hint_request("h")), vec![Outgoing::Send(a, vec![1])]);
    assert_eq!(server.handle_message(a, &send_attempt_request("w")), vec![Outgoing::Send(a, vec![1])]);
}

#[test]
fn disconnect_ends_match() {
    let mut server = Server::new(PASSWORD);
    let a = connected(&mut server);
    let b = connected(&mut server);
    server.handle_message(a, &request_match_request(b, "test"));
    server.disconnect(a);
    assert_eq!(server.handle_message(b, &send_attempt_request("test")), vec![Outgoing::Send(b, vec![1])]);
}

#[test]
fn two_players_full_match() {
    let mut server = Server::new(PASSWORD);
    let a = connected(&mut server);
    let b = connected(&mut server);

    let out = server.handle_message(a, &list_of_opponents_request());
    assert_eq!(parse_opponents(&payload_to(&out, a)), Ok(vec![b]));

    let out = server.handle_message(a, &request_match_request(b, "test"));
    assert_eq!(out.len(), 2);
    assert_eq!(parse_streamed_message(&payload_to(&out, b)), Ok(StreamedMessage::Challenged));
    assert_eq!(parse_match_response(&payload_to(&out, a)), Ok(()));

    let out = server.handle_message(b, &send_attempt_request("attempt1"));
    assert_eq!(parse_attempt_result(&payload_to(&out, b)), Ok(false));
    assert_eq!(
        parse_streamed_message(&payload_to(&out, a)),
        Ok(StreamedMessage::Attempt(false, "attempt1".to_string()))
    );

    let out = server.handle_message(a, &send_hint_request("try test"));
    assert_eq!(out.len(), 1);
    assert_eq!(
        parse_streamed_message(&payload_to(&out, b)),
        Ok(StreamedMessage::Hint("try test".to_string()))
    );

    let out = server.handle_message(b, &send_attempt_request("test"));
    assert_eq!(parse_attempt_result(&payload_to(&out, b)), Ok(true));
    assert_eq!(
        parse_streamed_message(&payload_to(&out, a)),
        Ok(StreamedMessage::Attempt(true, "test".to_string()))
    );
}

#[test]
fn opponent_list_bytes() {
    let mut server = Server::new(PASSWORD);
    let a = connected(&mut server);
    let b = connected(&mut server);
    let c = connected(&mut server);
    let out = server.handle_message(a, &list_of_opponents_request());
    assert_eq!(out, vec![Outgoing::Send(a, vec![6, 2, 0, b as u8, 0, 0, 0, c as u8, 0, 0, 0])]);
}

#[test]
fn client_parsers_reject_bad_replies() {
    assert_eq!(parse_client_id(&[1, 2]), Err(ClientError::Malformed));
    assert_eq!(parse_client_id(&[1, 1, 0, 0]), Ok(257));
    assert_eq!(parse_opponents(&[]), Err(ClientError::Malformed));
    assert_eq!(parse_opponents(&[0]), Err(ClientError::Unexpected));
    assert_eq!(parse_opponents(&[6, 1, 0, 1]), Err(ClientError::Malformed));
    assert_eq!(parse_attempt_result(&[8]), Err(ClientError::Malformed));
    assert_eq!(parse_attempt_result(&[8, 3]), Ok(true));
    assert_eq!(parse_attempt_result(&[0, 1]), Err(ClientError::Unexpected));
    assert_eq!(parse_match_response(&[6]), Err(ClientError::Unexpected));
    assert_eq!(parse_streamed_message(&[0]), Err(ClientError::Unexpected));
    assert_eq!(parse_streamed_message(&[7, 1]), Err(ClientError::Malformed));
}
