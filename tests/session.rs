use pto::bridge::{Action, Bridge};
use pto::events::{Event, EventData, MembershipAction, RoomEvent};
use pto::ident::{EventID, RoomID, UserID};
use pto::line_reader::{LineError, LineReader};
use pto::protocol::{Command, Message};
use pto::room::Room;

fn lines(out: &[Message]) -> Vec<String> {
    out.iter().map(|m| m.to_string()).collect()
}

fn room_event(room: &str, age: u64, id: Option<&str>, ev: RoomEvent) -> Event {
    Event { age, id: id.map(EventID::from_str), data: EventData::Room(RoomID::from_str(room), ev) }
}

fn join(room: &str, user: &str) -> Event {
    room_event(room, 0, None, RoomEvent::Membership(UserID::from_str(user), MembershipAction::Join))
}

fn end(token: &str) -> Event {
    Event { age: 0, id: None, data: EventData::EndOfSync(token.to_string()) }
}

fn logged_in_bridge() -> Bridge {
    let mut b = Bridge::new();
    let mut out = vec![];
    b.logged_in(UserID::from_str("@alice:example.org"), "tok".to_string(), &mut out);
    b
}

#[test]
fn login_and_welcome() {
    let mut b = Bridge::new();
    let mut out = vec![];
    let mut reader = LineReader::new();
    let mut actions = vec![];
    let mut line = reader.read(b"PASS hunter2\r\nNICK alice\r\nUSER alice 0 * :Alice\r\n").unwrap();
    while let Some(l) = line {
        actions.push(b.handle_client(&Message::from_str(&l), &mut out));
        line = reader.read(b"").unwrap();
    }
    assert_eq!(actions.len(), 3);
    match &actions[2] {
        Action::Login { username, password } => {
            assert_eq!(username, "alice");
            assert_eq!(password, "hunter2");
        },
        _ => panic!("expected a password login"),
    }
    assert!(out.is_empty());
    b.logged_in(UserID::from_str("@alice:example.org"), "tok".to_string(), &mut out);
    let wire: String = out.iter().map(|m| m.to_line()).collect();
    assert_eq!(
        wire,
        ":pto 001 alice :Welcome to Perpetually Talking Online alice\r\n\
         :pto 002 alice :Your host is running Perpetually Talking Online, the IRC frontend to Matrix.\r\n\
         :pto 005 alice CHANTYPES=# NETWORK=matrix CHARSET=utf-8 :are supported by this server\r\n"
    );
}

#[test]
fn user_without_password_is_guest_and_without_name_fails() {
    let mut b = Bridge::new();
    let mut out = vec![];
    match b.handle_client(&Message::from_str("USER bob 0 * :Bob"), &mut out) {
        Action::GuestLogin { username } => assert_eq!(username, "bob"),
        _ => panic!("expected a guest login"),
    }
    assert!(matches!(b.handle_client(&Message::from_str("USER"), &mut out), Action::AuthIncomplete));
}

#[test]
fn ping_quit_and_others() {
    let mut b = Bridge::new();
    let mut out = vec![];
    assert!(matches!(b.handle_client(&Message::from_str("PING :x"), &mut out), Action::Continue));
    assert_eq!(lines(&out), vec!["PONG"]);
    assert!(matches!(b.handle_client(&Message::from_str("JOIN #foo"), &mut out), Action::Continue));
    assert!(matches!(b.handle_client(&Message::from_str("QUIT :bye"), &mut out), Action::Quit));
    assert_eq!(out.len(), 1);
}

#[test]
fn room_with_canonical_alias() {
    let mut b = logged_in_bridge();
    let mut out = vec![];
    let r = "!abc:example.org";
    b.handle_matrix(room_event(r, 0, None, RoomEvent::CanonicalAlias("#general:example.org".to_string())), &mut out);
    b.handle_matrix(join(r, "@carol:example.org"), &mut out);
    b.handle_matrix(join(r, "@alice:example.org"), &mut out);
    b.handle_matrix(join(r, "@bob:example.org"), &mut out);
    assert!(out.is_empty());
    b.handle_matrix(end("t1"), &mut out);
    assert_eq!(
        lines(&out),
        vec![
            ":alice!alice@example.org JOIN #general:example.org",
            ":pto 353 alice @ #general:example.org :alice bob carol",
            ":pto 366 alice #general:example.org :End of /NAMES list",
        ]
    );
    assert_eq!(b.last_token, "t1");
}

#[test]
fn local_homeserver_alias_wins() {
    let mut b = logged_in_bridge();
    let mut out = vec![];
    let r = "!g:other.org";
    b.handle_matrix(room_event(r, 0, None, RoomEvent::CanonicalAlias("#g:other.org".to_string())), &mut out);
    b.handle_matrix(
        room_event(r, 0, None, RoomEvent::Aliases(vec!["#g:other.org".to_string(), "#g:example.org".to_string()])),
        &mut out,
    );
    b.handle_matrix(end("t"), &mut out);
    assert_eq!(b.rooms[0].irc_name, Some("#g:example.org".to_string()));
}

#[test]
fn naming_falls_back_to_first_alias_then_room_id() {
    let mut b = logged_in_bridge();
    let mut out = vec![];
    b.handle_matrix(room_event("!one:x.org", 0, None, RoomEvent::Aliases(vec!["#a:x.org".to_string()])), &mut out);
    b.handle_matrix(join("!two:x.org", "@alice:example.org"), &mut out);
    b.handle_matrix(end("t"), &mut out);
    assert_eq!(b.rooms[0].irc_name, Some("#a:x.org".to_string()));
    assert_eq!(b.rooms[1].irc_name, Some("#two:x.org".to_string()));
}

#[test]
fn direct_message_room() {
    let mut b = logged_in_bridge();
    let mut out = vec![];
    let r = "!dm:example.org";
    b.handle_matrix(join(r, "@alice:example.org"), &mut out);
    b.handle_matrix(join(r, "@bob:example.org"), &mut out);
    b.handle_matrix(end("t"), &mut out);
    assert!(out.is_empty());
    assert_eq!(b.rooms[0].irc_name, Some("bob".to_string()));
    assert!(b.rooms[0].is_pm);
    b.handle_matrix(room_event(r, 0, None, RoomEvent::Message(UserID::from_str("@bob:example.org"), "hi".to_string())), &mut out);
    b.handle_matrix(room_event(r, 0, None, RoomEvent::Message(UserID::from_str("@alice:example.org"), "yo".to_string())), &mut out);
    assert_eq!(lines(&out), vec![":bob!bob@example.org PRIVMSG bob :hi", "PRIVMSG bob :yo"]);
}

#[test]
fn pending_events_replay_after_names_in_age_order() {
    let mut b = logged_in_bridge();
    let mut out = vec![];
    let r = "!abc:example.org";
    let bob = || UserID::from_str("@bob:example.org");
    b.handle_matrix(room_event(r, 30, None, RoomEvent::Message(bob(), "second".to_string())), &mut out);
    b.handle_matrix(room_event(r, 10, None, RoomEvent::Message(bob(), "first".to_string())), &mut out);
    b.handle_matrix(room_event(r, 30, None, RoomEvent::Topic(bob(), "third".to_string())), &mut out);
    b.handle_matrix(room_event(r, 0, None, RoomEvent::CanonicalAlias("#general:example.org".to_string())), &mut out);
    assert!(out.is_empty());
    assert_eq!(b.rooms[0].pending_events.len(), 3);
    b.handle_matrix(end("t"), &mut out);
    assert_eq!(
        lines(&out),
        vec![
            ":alice!alice@example.org JOIN #general:example.org",
            ":pto 353 alice @ #general:example.org :",
            ":pto 366 alice #general:example.org :End of /NAMES list",
            ":bob!bob@example.org PRIVMSG #general:example.org :first",
            ":bob!bob@example.org PRIVMSG #general:example.org :second",
            ":bob!bob@example.org TOPIC #general:example.org :third",
        ]
    );
    assert!(b.rooms[0].pending_events.is_empty());
    assert!(!b.rooms[0].pending_sync);
}

#[test]
fn dedup_and_self_echo() {
    let mut b = logged_in_bridge();
    let mut out = vec![];
    let r = "!abc:example.org";
    b.handle_matrix(room_event(r, 0, None, RoomEvent::CanonicalAlias("#general:example.org".to_string())), &mut out);
    b.handle_matrix(end("t1"), &mut out);
    out.clear();
    let action = b.handle_client(&Message::from_str("PRIVMSG #general:example.org :hello"), &mut out);
    match action {
        Action::Send { room, txn_id, body } => {
            assert_eq!(room, RoomID::from_str(r));
            assert_eq!(txn_id, 1);
            assert_eq!(body, "{\"body\":\"hello\",\"msgtype\":\"m.text\"}");
        },
        _ => panic!("expected a send"),
    }
    b.message_sent(EventID::from_str("$x:example.org"));
    let echo = room_event(r, 0, Some("$x:example.org"), RoomEvent::Message(UserID::from_str("@alice:example.org"), "hello".to_string()));
    b.handle_matrix(echo, &mut out);
    assert!(out.is_empty());
    let fresh = || room_event(r, 0, Some("$y:example.org"), RoomEvent::Message(UserID::from_str("@bob:example.org"), "yo".to_string()));
    b.handle_matrix(fresh(), &mut out);
    assert_eq!(out.len(), 1);
    b.handle_matrix(fresh(), &mut out);
    assert_eq!(out.len(), 1);
    assert!(b.seen(&EventID::from_str("$y:example.org")));
    assert!(matches!(b.handle_client(&Message::from_str("PRIVMSG #nowhere :x"), &mut out), Action::Continue));
}

#[test]
fn join_and_part_after_naming() {
    let mut b = logged_in_bridge();
    let mut out = vec![];
    let r = "!abc:example.org";
    b.handle_matrix(room_event(r, 0, None, RoomEvent::CanonicalAlias("#general:example.org".to_string())), &mut out);
    b.handle_matrix(end("t1"), &mut out);
    out.clear();
    b.handle_matrix(join(r, "@dave:example.org"), &mut out);
    b.handle_matrix(join(r, "@dave:example.org"), &mut out);
    let part = || room_event(r, 0, None, RoomEvent::Membership(UserID::from_str("@dave:example.org"), MembershipAction::Leave));
    b.handle_matrix(part(), &mut out);
    b.handle_matrix(part(), &mut out);
    assert_eq!(
        lines(&out),
        vec![":dave!dave@example.org JOIN #general:example.org", ":dave!dave@example.org PART #general:example.org"]
    );
    b.handle_matrix(end("t2"), &mut out);
    assert_eq!(b.rooms[0].irc_name, Some("#general:example.org".to_string()));
    assert_eq!(b.last_token, "t2");
}

#[test]
fn room_name_is_kept_once_chosen() {
    let mut room = Room::new(RoomID::from_str("!abc:example.org"));
    let me = UserID::from_str("@alice:example.org");
    let mut out = vec![];
    room.finish_sync(&me, &mut out);
    assert_eq!(room.irc_name, Some("#abc:example.org".to_string()));
    room.handle_event(RoomEvent::CanonicalAlias("#new:example.org".to_string()), &mut out, 0);
    room.finish_sync(&me, &mut out);
    assert_eq!(room.irc_name, Some("#abc:example.org".to_string()));
    assert_eq!(Room::userid_to_irc(&me), "alice!alice@example.org");
}

#[test]
fn line_reader_frames_lines() {
    let mut reader = LineReader::new();
    assert_eq!(reader.read(b"NICK al").unwrap(), None);
    assert_eq!(reader.read(b"ice\nPING x\r\n").unwrap(), Some("NICK alice".to_string()));
    assert_eq!(reader.read(b"").unwrap(), Some("PING x".to_string()));
    assert_eq!(reader.read(b"").unwrap(), None);
    assert_eq!(reader.read(b"\xff\r\n"), Err(LineError::BadLine));
    let big = vec![b'a'; 2048];
    assert_eq!(reader.read(&big).unwrap(), None);
    assert_eq!(reader.read(b"b"), Err(LineError::LineTooLong));
    assert_eq!(reader.linebuf.len(), 2048);
}

#[test]
fn numeric_command_kind() {
    assert_eq!(Message::from_str(":pto 353 alice @ #g :a b").command, Command::Numeric(353));
}
