use pto::client::{decode_guest_login, decode_login, decode_send_response, decode_sync_batch, password_login_user};
use pto::events::{Event, EventData, JsonValue, MembershipAction, RoomEvent};
use pto::ident::{EventID, RoomID, UserID};
use pto::outbound::message_body;

fn s(v: &str) -> JsonValue {
    JsonValue::Str(v.to_string())
}

fn obj(fields: Vec<(&str, JsonValue)>) -> JsonValue {
    JsonValue::Object(fields.into_iter().map(|(k, v)| (k.to_string(), v)).collect())
}

#[test]
fn identifiers_split_at_first_colon() {
    let u = UserID::from_str("@alice:example.org");
    assert_eq!(u.nickname, "alice");
    assert_eq!(u.homeserver, "example.org");
    let r = RoomID::from_str("!abc:example.org:8448");
    assert_eq!(r.id, "abc");
    assert_eq!(r.homeserver, "example.org:8448");
    assert_eq!(r.to_string(), "!abc:example.org:8448");
    let e = EventID::from_str("$x");
    assert_eq!(e.id, "x");
    assert_eq!(e.homeserver, "");
    assert_eq!(u.to_string(), "@alice:example.org");
}

#[test]
fn user_order_is_lexicographic_over_full_id() {
    let a = UserID::from_str("@alice:example.org");
    let b = UserID::from_str("@bob:example.org");
    let a2 = UserID::from_str("@alice:a.org");
    assert!(a.precedes(&b));
    assert!(!b.precedes(&a));
    assert!(a2.precedes(&a));
    assert!(!a.precedes(&a));
    assert!(a.same_as(&UserID::from_str("@alice:example.org")));
}

#[test]
fn membership_words() {
    assert_eq!(MembershipAction::from_str("join"), Some(MembershipAction::Join));
    assert_eq!(MembershipAction::from_str("leave"), Some(MembershipAction::Leave));
    assert_eq!(MembershipAction::from_str("ban"), Some(MembershipAction::Ban));
    assert_eq!(MembershipAction::from_str("invite"), Some(MembershipAction::Invite));
    assert_eq!(MembershipAction::from_str("knock"), None);
}

#[test]
fn decodes_message_event_with_age_and_id() {
    let j = obj(vec![
        ("type", s("m.room.message")),
        ("sender", s("@bob:example.org")),
        ("event_id", s("$e1:example.org")),
        ("room_id", s("!abc:example.org")),
        ("content", obj(vec![("body", s("hi")), ("msgtype", s("m.text"))])),
        ("unsigned", obj(vec![("age", JsonValue::U64(42))])),
    ]);
    let e = Event::from_json(&j).unwrap();
    assert_eq!(e.age, 42);
    assert_eq!(e.id, Some(EventID::from_str("$e1:example.org")));
    match e.data {
        EventData::Room(r, RoomEvent::Message(u, t)) => {
            assert_eq!(r, RoomID::from_str("!abc:example.org"));
            assert_eq!(u, UserID::from_str("@bob:example.org"));
            assert_eq!(t, "hi");
        },
        other => panic!("unexpected {:?}", other),
    }
    assert_eq!(
        EventData::Room(RoomID::from_str("!a:b"), RoomEvent::Message(UserID::from_str("@a:b"), String::new())).type_str(),
        "m.room.message"
    );
}

#[test]
fn empty_content_is_unknown_and_missing_fields_fail() {
    let j = obj(vec![("type", s("m.room.topic")), ("room_id", s("!abc:example.org")), ("content", obj(vec![]))]);
    match Event::from_json(&j).unwrap().data {
        EventData::Room(_, RoomEvent::Unknown(t)) => assert_eq!(t, "topic"),
        other => panic!("unexpected {:?}", other),
    }
    let no_sender = obj(vec![
        ("type", s("m.room.message")),
        ("room_id", s("!abc:example.org")),
        ("content", obj(vec![("body", s("hi"))])),
    ]);
    assert!(Event::from_json(&no_sender).is_none());
    let bad_age = obj(vec![("type", s("m.typing")), ("room_id", s("!a:b")), ("unsigned", obj(vec![("age", s("x"))]))]);
    assert!(Event::from_json(&bad_age).is_none());
    let other = obj(vec![("type", s("org.example.custom"))]);
    match Event::from_json(&other).unwrap().data {
        EventData::Unknown(t) => assert_eq!(t, "org.example.custom"),
        d => panic!("unexpected {:?}", d),
    }
}

#[test]
fn decodes_aliases_join_rules_and_membership() {
    let aliases = obj(vec![
        ("type", s("m.room.aliases")),
        ("room_id", s("!abc:example.org")),
        ("content", obj(vec![("aliases", JsonValue::Array(vec![s("#g:other.org"), s("#g:example.org")]))])),
    ]);
    match Event::from_json(&aliases).unwrap().data {
        EventData::Room(_, RoomEvent::Aliases(v)) => assert_eq!(v, vec!["#g:other.org", "#g:example.org"]),
        d => panic!("unexpected {:?}", d),
    }
    let rule = obj(vec![
        ("type", s("m.room.join_rules")),
        ("room_id", s("!abc:example.org")),
        ("content", obj(vec![("join_rule", s("public"))])),
    ]);
    match Event::from_json(&rule).unwrap().data {
        EventData::Room(_, RoomEvent::JoinRules(v)) => assert_eq!(v, "public"),
        d => panic!("unexpected {:?}", d),
    }
    let member = obj(vec![
        ("type", s("m.room.member")),
        ("sender", s("@carol:example.org")),
        ("room_id", s("!abc:example.org")),
        ("content", obj(vec![("membership", s("leave"))])),
    ]);
    match Event::from_json(&member).unwrap().data {
        EventData::Room(_, RoomEvent::Membership(u, MembershipAction::Leave)) => assert_eq!(u.nickname, "carol"),
        d => panic!("unexpected {:?}", d),
    }
}

#[test]
fn sync_batch_lists_presence_rooms_then_end_marker() {
    let room = obj(vec![
        ("state", obj(vec![("events", JsonValue::Array(vec![obj(vec![
            ("type", s("m.room.canonical_alias")),
            ("content", obj(vec![("alias", s("#general:example.org"))])),
        ])]))])),
        ("timeline", obj(vec![("events", JsonValue::Array(vec![]))])),
        ("account_data", obj(vec![("events", JsonValue::Array(vec![]))])),
        ("ephemeral", obj(vec![("events", JsonValue::Array(vec![]))])),
    ]);
    let j = obj(vec![
        ("presence", obj(vec![("events", JsonValue::Array(vec![]))])),
        ("rooms", obj(vec![("join", obj(vec![("!abc:example.org", room)]))])),
        ("next_batch", s("s72594_4483_1934")),
    ]);
    let evs = decode_sync_batch(&j).unwrap();
    assert_eq!(evs.len(), 2);
    match &evs[0].data {
        EventData::Room(r, RoomEvent::CanonicalAlias(a)) => {
            assert_eq!(r.id, "abc");
            assert_eq!(a, "#general:example.org");
        },
        d => panic!("unexpected {:?}", d),
    }
    match &evs[1].data {
        EventData::EndOfSync(t) => assert_eq!(t, "s72594_4483_1934"),
        d => panic!("unexpected {:?}", d),
    }
    let missing = obj(vec![("rooms", obj(vec![("join", obj(vec![]))])), ("next_batch", s("t"))]);
    assert!(decode_sync_batch(&missing).is_none());
}

#[test]
fn login_replies() {
    let j = obj(vec![("access_token", s("abc")), ("refresh_token", s("def")), ("user_id", s("@alice:example.org"))]);
    let t = decode_login(&j).unwrap();
    assert_eq!(t.access, "abc");
    assert_eq!(t.refresh, "def");
    let (g, u) = decode_guest_login(&obj(vec![("access_token", s("g")), ("user_id", s("@guest1:example.org"))])).unwrap();
    assert_eq!(g.access, "g");
    assert_eq!(u.nickname, "guest1");
    assert!(decode_login(&obj(vec![("access_token", s("abc"))])).is_none());
    let me = password_login_user(&"alice".to_string(), &"example.org".to_string());
    assert_eq!(me.to_string(), "@alice:example.org");
    let sent = decode_send_response(&obj(vec![("event_id", s("$x:example.org"))])).unwrap();
    assert_eq!(sent, EventID::from_str("$x:example.org"));
}

#[test]
fn message_body_is_quoted_json() {
    assert_eq!(message_body("hello"), "{\"body\":\"hello\",\"msgtype\":\"m.text\"}");
    assert_eq!(message_body("say \"hi\""), "{\"body\":\"say \\\"hi\\\"\",\"msgtype\":\"m.text\"}");
}
