use ipc_server::protocol::{Action, Event, Request, Response, SessionError};
use ipc_server::session::{Phase, Reply, Session};
use std::collections::HashMap;

type Ev = Event<String, u32>;
type Act = Action<String, u32>;

fn outputs() -> HashMap<String, u32> {
    let mut map = HashMap::new();
    map.insert(String::from("eDP-1"), 1);
    map.insert(String::from("HDMI-A-1"), 2);
    map
}

fn reading() -> Session {
    let mut session = Session::new();
    assert_eq!(session.step(Ev::Adapted), Some(Act::Read));
    session
}

fn parsed(line: &[u8]) -> Session {
    let mut session = reading();
    let text = String::from_utf8(line.to_vec()).unwrap();
    assert_eq!(session.step(Ev::Data(line.to_vec())), Some(Act::Decode(text)));
    session
}

fn all_events() -> Vec<Ev> {
    vec![
        Ev::Adapted,
        Ev::AdaptFailed,
        Ev::Data(b"x\n".to_vec()),
        Ev::Eof,
        Ev::ReadFailed,
        Ev::Decoded(Request::Outputs),
        Ev::Decoded(Request::Action(String::from("Quit"))),
        Ev::DecodeFailed,
        Ev::Snapshot(outputs()),
        Ev::Encoded(b"{}".to_vec()),
        Ev::EncodeFailed,
        Ev::Written,
        Ev::WriteFailed,
        Ev::Deferred,
        Ev::ConversionFailed,
    ]
}

#[test]
fn a_new_session_is_connected() {
    let session = Session::new();
    assert_eq!(session.phase(), Phase::Connected);
    assert!(!session.is_closed());
}

#[test]
fn a_query_is_answered_with_the_snapshot() {
    let mut session = Session::new();
    assert_eq!(session.step(Ev::Adapted), Some(Act::Read));
    assert_eq!(session.phase(), Phase::AwaitingLine);
    assert_eq!(
        session.step(Ev::Data(b"\"Outputs\"\n".to_vec())),
        Some(Act::Decode(String::from("\"Outputs\"\n")))
    );
    assert_eq!(session.phase(), Phase::Parsed);
    assert_eq!(session.step(Ev::Decoded(Request::Outputs)), Some(Act::Snapshot));
    assert_eq!(session.phase(), Phase::Responding(Reply::Snapshot));
    assert_eq!(
        session.step(Ev::Snapshot(outputs())),
        Some(Act::Encode(Response::Outputs(outputs())))
    );
    assert_eq!(session.phase(), Phase::Responding(Reply::Encode));
    let bytes = b"{\"Outputs\":{}}".to_vec();
    assert_eq!(session.step(Ev::Encoded(bytes.clone())), Some(Act::Write(bytes)));
    assert_eq!(session.phase(), Phase::Responding(Reply::Write));
    assert_eq!(session.step(Ev::Written), Some(Act::Close(Ok(()))));
    assert!(session.is_closed());
}

#[test]
fn the_reply_holds_the_outputs_of_the_moment_it_is_asked_for() {
    let mut session = parsed(b"\"Outputs\"\n");
    let mut source = outputs();
    assert_eq!(session.step(Ev::Decoded(Request::Outputs)), Some(Act::Snapshot));
    source.insert(String::from("DP-3"), 3);
    let taken = source.clone();
    source.remove("eDP-1");
    match session.step(Ev::Snapshot(taken.clone())) {
        Some(Act::Encode(Response::Outputs(sent))) => {
            assert_eq!(sent, taken);
            assert_eq!(sent.len(), 3);
            assert_ne!(sent, source);
        }
        other => panic!("unexpected action {:?}", other),
    }
}

#[test]
fn an_empty_snapshot_is_a_reply_too() {
    let mut session = parsed(b"\"Outputs\"\n");
    assert_eq!(session.step(Ev::Decoded(Request::Outputs)), Some(Act::Snapshot));
    assert_eq!(
        session.step(Ev::Snapshot(HashMap::new())),
        Some(Act::Encode(Response::Outputs(HashMap::new())))
    );
}

#[test]
fn an_action_is_deferred_and_nothing_is_written() {
    let mut session = parsed(b"{\"Action\":\"Quit\"}\n");
    let mut asked = Vec::new();
    asked.push(session.step(Ev::Decoded(Request::Action(String::from("Quit")))));
    assert_eq!(session.phase(), Phase::Dispatching);
    asked.push(session.step(Ev::Deferred));
    assert!(session.is_closed());
    assert_eq!(
        asked,
        vec![Some(Act::Defer(String::from("Quit"))), Some(Act::Close(Ok(())))]
    );
    for event in all_events() {
        assert_eq!(session.step(event), None);
    }
}

#[test]
fn an_action_the_host_cannot_take_closes_the_session() {
    let mut session = parsed(b"{\"Action\":\"Quit\"}\n");
    assert_eq!(
        session.step(Ev::Decoded(Request::Action(String::from("Quit")))),
        Some(Act::Defer(String::from("Quit")))
    );
    assert_eq!(
        session.step(Ev::ConversionFailed),
        Some(Act::Close(Err(SessionError::ActionConversion)))
    );
    assert!(session.is_closed());
}

#[test]
fn invalid_json_closes_without_a_reply() {
    let mut session = parsed(b"{not json\n");
    assert_eq!(session.step(Ev::DecodeFailed), Some(Act::Close(Err(SessionError::Parse))));
    assert!(session.is_closed());
    for event in all_events() {
        assert_eq!(session.step(event), None);
    }
}

#[test]
fn a_request_split_over_two_reads_is_one_line() {
    let mut session = reading();
    assert_eq!(session.step(Ev::Data(b"{\"Q".to_vec())), Some(Act::Read));
    assert_eq!(session.phase(), Phase::AwaitingLine);
    assert_eq!(
        session.step(Ev::Data(b"uery\"}\n".to_vec())),
        Some(Act::Decode(String::from("{\"Query\"}\n")))
    );
    assert_eq!(session.phase(), Phase::Parsed);
}

#[test]
fn every_split_of_a_request_gives_the_same_line() {
    let stream = "{\"Action\":{\"Spawn\":{\"command\":[\"é\"]}}}\nrest".as_bytes();
    let line = String::from("{\"Action\":{\"Spawn\":{\"command\":[\"é\"]}}}\n");
    for cut in 0..=stream.len() {
        let mut session = reading();
        let first = session.step(Ev::Data(stream[..cut].to_vec()));
        let last = if first == Some(Act::Read) {
            session.step(Ev::Data(stream[cut..].to_vec()))
        } else {
            first
        };
        assert_eq!(last, Some(Act::Decode(line.clone())));
        assert_eq!(session.phase(), Phase::Parsed);
    }
}

#[test]
fn bytes_behind_the_line_are_ignored() {
    let mut session = reading();
    assert_eq!(
        session.step(Ev::Data(b"\"Outputs\"\n\"Outputs\"\n".to_vec())),
        Some(Act::Decode(String::from("\"Outputs\"\n")))
    );
    assert_eq!(session.step(Ev::Data(b"more\n".to_vec())), None);
    assert_eq!(session.phase(), Phase::Parsed);
}

#[test]
fn the_line_is_decoded_as_utf8() {
    let mut session = reading();
    let bytes = vec![0x22, 0xC3, 0xA9, 0xE2, 0x82, 0xAC, 0xF0, 0x9F, 0x98, 0x80, 0x22, 0x0A];
    match session.step(Ev::Data(bytes)) {
        Some(Act::Decode(text)) => {
            assert_eq!(text, "\"é€😀\"\n");
            assert_eq!(text.chars().count(), 6);
        }
        other => panic!("unexpected action {:?}", other),
    }
}

#[test]
fn a_line_that_is_not_utf8_is_a_read_error() {
    let mut session = reading();
    assert_eq!(
        session.step(Ev::Data(vec![0x22, 0xFF, 0x22, 0x0A])),
        Some(Act::Close(Err(SessionError::Read)))
    );
    assert!(session.is_closed());
}

#[test]
fn a_truncated_utf8_sequence_is_a_read_error() {
    let mut session = reading();
    assert_eq!(session.step(Ev::Data(vec![0x22, 0xC3])), Some(Act::Read));
    assert_eq!(
        session.step(Ev::Data(vec![0x0A])),
        Some(Act::Close(Err(SessionError::Read)))
    );
}

#[test]
fn a_connection_closed_before_the_newline_is_a_read_error() {
    let mut session = reading();
    assert_eq!(session.step(Ev::Data(b"\"Outputs\"".to_vec())), Some(Act::Read));
    assert_eq!(session.step(Ev::Eof), Some(Act::Close(Err(SessionError::Read))));
    assert!(session.is_closed());
}

#[test]
fn a_failed_read_is_a_read_error() {
    let mut session = reading();
    assert_eq!(session.step(Ev::ReadFailed), Some(Act::Close(Err(SessionError::Read))));
    assert!(session.is_closed());
}

#[test]
fn a_connection_that_cannot_be_adapted_is_closed() {
    let mut session = Session::new();
    assert_eq!(
        session.step(Ev::AdaptFailed),
        Some(Act::Close(Err(SessionError::StreamAdapt)))
    );
    assert!(session.is_closed());
}

#[test]
fn a_response_that_cannot_be_encoded_closes_the_session() {
    let mut session = parsed(b"\"Outputs\"\n");
    assert_eq!(session.step(Ev::Decoded(Request::Outputs)), Some(Act::Snapshot));
    assert!(session.step(Ev::Snapshot(outputs())).is_some());
    assert_eq!(session.step(Ev::EncodeFailed), Some(Act::Close(Err(SessionError::Encode))));
    assert!(session.is_closed());
}

#[test]
fn a_failed_write_closes_the_session() {
    let mut session = parsed(b"\"Outputs\"\n");
    assert_eq!(session.step(Ev::Decoded(Request::Outputs)), Some(Act::Snapshot));
    assert!(session.step(Ev::Snapshot(outputs())).is_some());
    assert_eq!(session.step(Ev::Encoded(b"{}".to_vec())), Some(Act::Write(b"{}".to_vec())));
    assert_eq!(session.step(Ev::WriteFailed), Some(Act::Close(Err(SessionError::Write))));
    assert!(session.is_closed());
}

#[test]
fn events_that_answer_nothing_are_ignored() {
    let mut session = Session::new();
    assert_eq!(session.step(Ev::Data(b"\"Outputs\"\n".to_vec())), None);
    assert_eq!(session.step(Ev::Written), None);
    assert_eq!(session.phase(), Phase::Connected);

    let mut session = reading();
    assert_eq!(session.step(Ev::Adapted), None);
    assert_eq!(session.step(Ev::Decoded(Request::Outputs)), None);
    assert_eq!(session.step(Ev::Snapshot(outputs())), None);
    assert_eq!(session.phase(), Phase::AwaitingLine);

    let mut session = parsed(b"\"Outputs\"\n");
    assert_eq!(session.step(Ev::Snapshot(outputs())), None);
    assert_eq!(session.step(Ev::Encoded(b"{}".to_vec())), None);
    assert_eq!(session.step(Ev::Eof), None);
    assert_eq!(session.phase(), Phase::Parsed);
    assert_eq!(session.step(Ev::Decoded(Request::Outputs)), Some(Act::Snapshot));
    assert_eq!(session.step(Ev::Decoded(Request::Outputs)), None);
    assert_eq!(session.step(Ev::Encoded(b"{}".to_vec())), None);
    assert_eq!(session.phase(), Phase::Responding(Reply::Snapshot));
}

#[test]
fn a_session_writes_at_most_once() {
    let mut session = Session::new();
    let mut script = all_events();
    script.extend(all_events());
    script.extend(all_events());
    let mut writes = 0;
    let mut defers = 0;
    let mut decodes = 0;
    for event in script {
        match session.step(event) {
            Some(Act::Write(_)) => writes += 1,
            Some(Act::Defer(_)) => defers += 1,
            Some(Act::Decode(_)) => decodes += 1,
            _ => {}
        }
    }
    assert!(decodes <= 1);
    assert!(writes + defers <= 1);
}

#[test]
fn a_stalled_connection_does_not_hold_up_another() {
    let mut stalled = reading();
    let mut active = reading();
    assert_eq!(stalled.step(Ev::Data(b"\"Outp".to_vec())), Some(Act::Read));
    assert_eq!(
        active.step(Ev::Data(b"\"Outputs\"\n".to_vec())),
        Some(Act::Decode(String::from("\"Outputs\"\n")))
    );
    assert_eq!(stalled.step(Ev::Data(b"u".to_vec())), Some(Act::Read));
    assert_eq!(active.step(Ev::Decoded(Request::Outputs)), Some(Act::Snapshot));
    assert_eq!(
        active.step(Ev::Snapshot(outputs())),
        Some(Act::Encode(Response::Outputs(outputs())))
    );
    assert_eq!(stalled.step(Ev::Data(b"t".to_vec())), Some(Act::Read));
    assert_eq!(active.step(Ev::Encoded(b"{}".to_vec())), Some(Act::Write(b"{}".to_vec())));
    assert_eq!(active.step(Ev::Written), Some(Act::Close(Ok(()))));
    assert!(active.is_closed());
    assert_eq!(stalled.phase(), Phase::AwaitingLine);
    assert_eq!(
        stalled.step(Ev::Data(b"s\"\n".to_vec())),
        Some(Act::Decode(String::from("\"Outputs\"\n")))
    );
}

#[test]
fn session_errors_have_their_messages() {
    assert_eq!(SessionError::StreamAdapt.message(), "error making IPC stream async");
    assert_eq!(SessionError::Read.message(), "error reading request");
    assert_eq!(SessionError::Parse.message(), "error parsing request");
    assert_eq!(SessionError::ActionConversion.message(), "error converting action");
    assert_eq!(SessionError::Encode.message(), "error formatting response");
    assert_eq!(SessionError::Write.message(), "error writing response");
}
