use async_broadcast::TryRecvError;
use roomsync::handler::{
    is_valid_room_name, Action, Event, HandleParams, Session, KEEPALIVE_SECS,
};
use roomsync::room::Room;
use roomsync::status::Status;

fn status(sequence: i16, clients: u32, text: &str) -> Status {
    Status { sequence, clients, text: text.to_string() }
}

#[test]
fn room_names_of_six_to_sixteen_letters_and_digits_are_valid() {
    assert!(is_valid_room_name("abcdef"));
    assert!(is_valid_room_name("ABC123"));
    assert!(is_valid_room_name("a1b2c3d4"));
    assert!(is_valid_room_name("0123456789abcdef"));
    assert!(is_valid_room_name("ZZZZZZzzzzzz0099"));
}

#[test]
fn room_names_of_other_lengths_are_invalid() {
    assert!(!is_valid_room_name(""));
    assert!(!is_valid_room_name("abcde"));
    assert!(!is_valid_room_name("0123456789abcdefg"));
    assert!(!is_valid_room_name(&"a".repeat(100)));
}

#[test]
fn room_names_with_other_characters_are_invalid() {
    assert!(!is_valid_room_name("abc-ef"));
    assert!(!is_valid_room_name("abc ef"));
    assert!(!is_valid_room_name("abcde_"));
    assert!(!is_valid_room_name("abcde/"));
    assert!(!is_valid_room_name("abcde:"));
    assert!(!is_valid_room_name("abcde@"));
    assert!(!is_valid_room_name("abcde["));
    assert!(!is_valid_room_name("abcde`"));
    assert!(!is_valid_room_name("abcde{"));
    assert!(!is_valid_room_name("abcdé1"));
    assert!(!is_valid_room_name("ééé"));
    assert!(!is_valid_room_name("abcdef\n"));
}

#[test]
fn params_yield_a_valid_room_name_only() {
    let good = HandleParams { room: "room42".to_string() };
    assert_eq!(good.room_name(), Some("room42".to_string()));
    let bad = HandleParams { room: "no".to_string() };
    assert_eq!(bad.room_name(), None);
    let bad = HandleParams { room: "bad name!".to_string() };
    assert_eq!(bad.room_name(), None);
}

#[test]
fn keepalive_is_thirty_seconds() {
    assert_eq!(KEEPALIVE_SECS, 30);
}

#[test]
fn start_greets_with_the_patch_from_nothing() {
    let (session, frame) = Session::start(status(3, 2, "hello"));
    assert_eq!(frame, Some("n2$hello".to_string()));
    assert_eq!(session.current(), &status(3, 2, "hello"));
    let (_, frame) = Session::start(status(1, 1, ""));
    assert_eq!(frame, Some("n1".to_string()));
    let (_, frame) = Session::start(status(1, 0, "x"));
    assert_eq!(frame, Some("$x".to_string()));
    let (_, frame) = Session::start(status(9, 0, ""));
    assert_eq!(frame, None);
}

#[test]
fn newer_status_is_forwarded_and_adopted() {
    let (mut session, _) = Session::start(status(1, 1, "a"));
    let action = session.handle(Event::Status(status(2, 2, "ab")));
    assert_eq!(action, Action::Send("n2$ab".to_string()));
    assert_eq!(session.current(), &status(2, 2, "ab"));
    let action = session.handle(Event::Status(status(5, 2, "abc")));
    assert_eq!(action, Action::Send("$abc".to_string()));
    assert_eq!(session.current().sequence, 5);
}

#[test]
fn newer_status_without_changes_is_adopted_silently() {
    let (mut session, _) = Session::start(status(1, 1, "a"));
    let action = session.handle(Event::Status(status(2, 1, "a")));
    assert_eq!(action, Action::Wait);
    assert_eq!(session.current().sequence, 2);
}

#[test]
fn stale_status_is_dropped() {
    let (mut session, _) = Session::start(status(10, 1, "now"));
    let action = session.handle(Event::Status(status(9, 5, "before")));
    assert_eq!(action, Action::Wait);
    assert_eq!(session.current(), &status(10, 1, "now"));
    let action = session.handle(Event::Status(status(10, 7, "same version")));
    assert_eq!(action, Action::Wait);
    assert_eq!(session.current(), &status(10, 1, "now"));
}

#[test]
fn status_after_the_wrap_is_forwarded() {
    let (mut session, _) = Session::start(status(i16::MAX, 1, "a"));
    let action = session.handle(Event::Status(status(i16::MIN, 1, "b")));
    assert_eq!(action, Action::Send("$b".to_string()));
    let action = session.handle(Event::Status(status(i16::MAX, 1, "a")));
    assert_eq!(action, Action::Wait);
    assert_eq!(session.current().sequence, i16::MIN);
}

#[test]
fn join_subscribes_and_greets() {
    let mut room = Room::new();
    room.write("hello".to_string());
    let (session, mut receiver, frame) = Session::join(&mut room);
    assert_eq!(frame, Some("n1$hello".to_string()));
    assert_eq!(session.current(), &status(2, 1, "hello"));
    assert_eq!(room.num_clients(), 1);
    assert_eq!(receiver.try_recv(), Ok(status(2, 1, "hello")));
    let (second, _receiver, frame) = Session::join(&mut room);
    assert_eq!(frame, Some("n2$hello".to_string()));
    assert_eq!(second.current(), &status(3, 2, "hello"));
}

#[test]
fn edit_writes_to_the_room_and_is_not_echoed() {
    let mut room = Room::new();
    let (mut session, mut receiver, _) = Session::join(&mut room);
    let action = session.edit(&mut room, "typed".to_string());
    assert_eq!(action, Action::Wait);
    assert_eq!(session.current(), &status(2, 1, "typed"));
    assert_eq!(room.update().text, "typed");
    // The hub delivers the session's own write later; nothing is sent for it.
    assert_eq!(receiver.try_recv(), Err(TryRecvError::Overflowed(2)));
    let delivered = receiver.try_recv().unwrap();
    assert_eq!(delivered, status(3, 1, "typed"));
    assert_eq!(session.handle(Event::Status(status(2, 1, "typed"))), Action::Wait);
    assert_eq!(session.handle(Event::Status(delivered)), Action::Wait);
}

#[test]
fn edit_is_answered_with_the_count_if_it_changed() {
    let mut room = Room::new();
    let (mut session, _receiver, _) = Session::join(&mut room);
    let (other, _) = room.subscribe();
    // The session has not heard of the second member yet.
    let action = session.edit(&mut room, "typed".to_string());
    assert_eq!(action, Action::Send("n2".to_string()));
    drop(other);
    let action = session.edit(&mut room, "more".to_string());
    assert_eq!(action, Action::Send("n1".to_string()));
    let action = session.edit(&mut room, "more".to_string());
    assert_eq!(action, Action::Wait);
}

#[test]
fn clamped_edit_is_sent_back() {
    let mut room = Room::new();
    let (mut session, _receiver, _) = Session::join(&mut room);
    let mut text = "x".repeat(7998);
    text.push_str("€€");
    let action = session.edit(&mut room, text);
    assert_eq!(action, Action::Send(format!("${}", "x".repeat(7998))));
    assert_eq!(session.current().text, "x".repeat(7998));
}

#[test]
fn status_with_the_text_shown_carries_no_text() {
    let (mut session, _) = Session::start(status(4, 2, "same"));
    assert_eq!(session.handle(Event::Status(status(5, 2, "same"))), Action::Wait);
    assert_eq!(session.handle(Event::Status(status(6, 3, "same"))), Action::Send("n3".to_string()));
}

#[test]
fn silence_is_answered_with_an_empty_frame() {
    let (mut session, _) = Session::start(status(1, 1, "a"));
    assert_eq!(session.handle(Event::Idle), Action::Send(String::new()));
    assert_eq!(session.current(), &status(1, 1, "a"));
}

#[test]
fn skipped_updates_and_other_frames_change_nothing() {
    let (mut session, _) = Session::start(status(1, 1, "a"));
    assert_eq!(session.handle(Event::Overflowed), Action::Wait);
    assert_eq!(session.handle(Event::NonText), Action::Wait);
    assert_eq!(session.current(), &status(1, 1, "a"));
}

#[test]
fn closing_ends_and_failures_abort() {
    let (mut session, _) = Session::start(status(1, 1, "a"));
    assert_eq!(session.handle(Event::PeerClosed), Action::Finish);
    assert_eq!(session.handle(Event::HubClosed), Action::Abort);
    assert_eq!(session.handle(Event::SocketFailed), Action::Abort);
    assert_eq!(session.current(), &status(1, 1, "a"));
}
