//! Chat events and their decoding from the JSON documents that the sync
//! endpoint returns.
use vstd::prelude::*;
use crate::ident::{id_local, id_server, EventID, RoomID, UserID};
use crate::text::{chars_eq, chars_of, opt_view, split_on, split_on_exec, strs_view};

verus! {

/// A JSON document as the chat service sends it. Objects keep their members
/// in order; a lookup finds the first member with the key. Numbers other than
/// integers carry no value here, since nothing reads them.
#[derive(Debug)]
pub enum JsonValue {
    Null,
    Bool(bool),
    I64(i64),
    U64(u64),
    OtherNumber,
    Str(String),
    Array(Vec<JsonValue>),
    Object(Vec<(String, JsonValue)>),
}

pub open spec fn lookup(fields: Seq<(String, JsonValue)>, key: Seq<char>, i: int) -> Option<JsonValue>
    decreases fields.len() - i,
{
    if i < 0 || i >= fields.len() {
        None
    } else if fields[i].0@ == key {
        Some(fields[i].1)
    } else {
        lookup(fields, key, i + 1)
    }
}

/// The member `key` of an object.
pub open spec fn field(j: JsonValue, key: Seq<char>) -> Option<JsonValue> {
    match j {
        JsonValue::Object(f) => lookup(f@, key, 0),
        _ => None,
    }
}

/// The member `key` of an object, where it is a string.
pub open spec fn field_str(j: JsonValue, key: Seq<char>) -> Option<Seq<char>> {
    match field(j, key) {
        Some(JsonValue::Str(s)) => Some(s@),
        _ => None,
    }
}

/// The string at `a.b`.
pub open spec fn path_str(j: JsonValue, a: Seq<char>, b: Seq<char>) -> Option<Seq<char>> {
    match field(j, a) {
        Some(x) => field_str(x, b),
        None => None,
    }
}

impl JsonValue {
    /// The member `key` of an object.
    pub fn get(&self, key: &str) -> (r: Option<&JsonValue>)
        ensures
            match r {
                Some(x) => field(*self, key@) == Some(*x),
                None => field(*self, key@) is None,
            },
    {
        match self {
            JsonValue::Object(fields) => {
                let k = chars_of(key);
                let mut i: usize = 0;
                while i < fields.len()
                    invariant
                        field(*self, key@) == lookup(fields@, key@, 0),
                        i <= fields@.len(),
                        k@ == key@,
                        lookup(fields@, key@, i as int) == lookup(fields@, key@, 0),
                    decreases fields@.len() - i,
                {
                    if chars_eq(&k, fields[i].0.as_str()) {
                        assert(lookup(fields@, key@, i as int) == Some(fields@[i as int].1));
                        return Some(&fields[i].1);
                    }
                    i = i + 1;
                }
                None
            },
            _ => None,
        }
    }

    /// The member `key` of an object, where it is a string.
    pub fn get_str(&self, key: &str) -> (r: Option<String>)
        ensures
            opt_view(r) == field_str(*self, key@),
    {
        match self.get(key) {
            Some(JsonValue::Str(s)) => Some(s.clone()),
            _ => None,
        }
    }

    /// The string at `a.b`.
    pub fn get_path_str(&self, a: &str, b: &str) -> (r: Option<String>)
        ensures
            opt_view(r) == path_str(*self, a@, b@),
    {
        match self.get(a) {
            Some(x) => x.get_str(b),
            None => None,
        }
    }
}

#[derive(Debug, Clone, Copy, PartialEq, Eq, Structural)]
pub enum MembershipAction {
    Join,
    Leave,
    Ban,
    Invite,
}

pub open spec fn membership_of(s: Seq<char>) -> Option<MembershipAction> {
    if s == "join"@ {
        Some(MembershipAction::Join)
    } else if s == "leave"@ {
        Some(MembershipAction::Leave)
    } else if s == "ban"@ {
        Some(MembershipAction::Ban)
    } else if s == "invite"@ {
        Some(MembershipAction::Invite)
    } else {
        None
    }
}

impl MembershipAction {
    /// The action that a membership word names; `None` for any other word.
    pub fn from_str(s: &str) -> (r: Option<Self>)
        ensures
            r == membership_of(s@),
    {
        let v = chars_of(s);
        if chars_eq(&v, "join") {
            Some(MembershipAction::Join)
        } else if chars_eq(&v, "leave") {
            Some(MembershipAction::Leave)
        } else if chars_eq(&v, "ban") {
            Some(MembershipAction::Ban)
        } else if chars_eq(&v, "invite") {
            Some(MembershipAction::Invite)
        } else {
            None
        }
    }
}

#[derive(Debug)]
pub enum RoomEvent {
    CanonicalAlias(String),
    JoinRules(String),
    Membership(UserID, MembershipAction),
    HistoryVisibility(String),
    Create,
    Aliases(Vec<String>),
    Message(UserID, String),
    PowerLevels,
    Name(UserID, String),
    Avatar(UserID, String),
    Topic(UserID, String),
    Unknown(String),
}

/// A user id as `(nickname, homeserver)`.
pub type IdView = (Seq<char>, Seq<char>);

pub enum RoomEventView {
    CanonicalAlias(Seq<char>),
    JoinRules(Seq<char>),
    Membership(IdView, MembershipAction),
    HistoryVisibility(Seq<char>),
    Create,
    Aliases(Seq<Seq<char>>),
    Message(IdView, Seq<char>),
    PowerLevels,
    Name(IdView, Seq<char>),
    Avatar(IdView, Seq<char>),
    Topic(IdView, Seq<char>),
    Unknown(Seq<char>),
}

impl View for RoomEvent {
    type V = RoomEventView;

    open spec fn view(&self) -> RoomEventView {
        match self {
            RoomEvent::CanonicalAlias(s) => RoomEventView::CanonicalAlias(s@),
            RoomEvent::JoinRules(s) => RoomEventView::JoinRules(s@),
            RoomEvent::Membership(u, a) => RoomEventView::Membership(u@, *a),
            RoomEvent::HistoryVisibility(s) => RoomEventView::HistoryVisibility(s@),
            RoomEvent::Create => RoomEventView::Create,
            RoomEvent::Aliases(v) => RoomEventView::Aliases(strs_view(v@)),
            RoomEvent::Message(u, s) => RoomEventView::Message(u@, s@),
            RoomEvent::PowerLevels => RoomEventView::PowerLevels,
            RoomEvent::Name(u, s) => RoomEventView::Name(u@, s@),
            RoomEvent::Avatar(u, s) => RoomEventView::Avatar(u@, s@),
            RoomEvent::Topic(u, s) => RoomEventView::Topic(u@, s@),
            RoomEvent::Unknown(s) => RoomEventView::Unknown(s@),
        }
    }
}

#[derive(Debug)]
pub struct TypingEvent {
    pub users: Vec<UserID>,
    pub room: RoomID,
}

#[derive(Debug)]
pub struct PresenceEvent {
    pub presence: String,
    pub user: UserID,
}

#[derive(Debug)]
pub enum EventData {
    Room(RoomID, RoomEvent),
    Typing(TypingEvent),
    Presence(PresenceEvent),
    Unknown(String),
    EndOfSync(String),
}

pub enum EventDataView {
    Room(IdView, RoomEventView),
    Typing(IdView),
    Presence(IdView, Seq<char>),
    Unknown(Seq<char>),
    EndOfSync(Seq<char>),
}

impl View for EventData {
    type V = EventDataView;

    open spec fn view(&self) -> EventDataView {
        match self {
            EventData::Room(r, e) => EventDataView::Room(r@, e@),
            EventData::Typing(t) => EventDataView::Typing(t.room@),
            EventData::Presence(p) => EventDataView::Presence(p.user@, p.presence@),
            EventData::Unknown(s) => EventDataView::Unknown(s@),
            EventData::EndOfSync(s) => EventDataView::EndOfSync(s@),
        }
    }
}

#[derive(Debug)]
pub struct Event {
    pub age: u64,
    pub id: Option<EventID>,
    pub data: EventData,
}

pub struct EventView {
    pub age: u64,
    pub id: Option<IdView>,
    pub data: EventDataView,
}

pub open spec fn opt_id_view(id: Option<EventID>) -> Option<IdView> {
    match id {
        Some(i) => Some(i@),
        None => None,
    }
}

impl View for Event {
    type V = EventView;

    open spec fn view(&self) -> EventView {
        EventView { age: self.age, id: opt_id_view(self.id), data: self.data@ }
    }
}

pub open spec fn parse_id(s: Seq<char>) -> IdView {
    (id_local(s), id_server(s))
}

/// The wire name of an event type.
pub open spec fn type_text(d: EventDataView) -> Seq<char> {
    match d {
        EventDataView::Room(_, RoomEventView::Message(_, _)) => "m.room.message"@,
        EventDataView::Room(_, RoomEventView::CanonicalAlias(_)) => "m.room.canonical_alias"@,
        EventDataView::Room(_, RoomEventView::JoinRules(_)) => "m.room.join_rules"@,
        EventDataView::Room(_, RoomEventView::Membership(_, _)) => "m.room.member"@,
        EventDataView::Room(_, RoomEventView::HistoryVisibility(_)) => "m.room.history_visibility"@,
        EventDataView::Room(_, RoomEventView::Create) => "m.room.create"@,
        EventDataView::Room(_, RoomEventView::Aliases(_)) => "m.room.aliases"@,
        EventDataView::Room(_, RoomEventView::PowerLevels) => "m.room.power_levels"@,
        EventDataView::Room(_, RoomEventView::Name(_, _)) => "m.room.name"@,
        EventDataView::Room(_, RoomEventView::Avatar(_, _)) => "m.room.avatar"@,
        EventDataView::Room(_, RoomEventView::Topic(_, _)) => "m.room.topic"@,
        EventDataView::Room(_, RoomEventView::Unknown(t)) => "m.room."@ + t,
        EventDataView::Typing(_) => "m.typing"@,
        EventDataView::Presence(_, _) => "m.presence"@,
        EventDataView::Unknown(t) => t,
        EventDataView::EndOfSync(_) => Seq::empty(),
    }
}

impl EventData {
    /// The wire name of this event's type. The end-of-batch marker has none.
    pub fn type_str(&self) -> (r: String)
        requires
            !(self is EndOfSync),
        ensures
            r@ == type_text(self@),
    {
        match self {
            EventData::Room(_, RoomEvent::Message(_, _)) => String::from_str("m.room.message"),
            EventData::Room(_, RoomEvent::CanonicalAlias(_)) => String::from_str("m.room.canonical_alias"),
            EventData::Room(_, RoomEvent::JoinRules(_)) => String::from_str("m.room.join_rules"),
            EventData::Room(_, RoomEvent::Membership(_, _)) => String::from_str("m.room.member"),
            EventData::Room(_, RoomEvent::HistoryVisibility(_)) => String::from_str("m.room.history_visibility"),
            EventData::Room(_, RoomEvent::Create) => String::from_str("m.room.create"),
            EventData::Room(_, RoomEvent::Aliases(_)) => String::from_str("m.room.aliases"),
            EventData::Room(_, RoomEvent::PowerLevels) => String::from_str("m.room.power_levels"),
            EventData::Room(_, RoomEvent::Name(_, _)) => String::from_str("m.room.name"),
            EventData::Room(_, RoomEvent::Avatar(_, _)) => String::from_str("m.room.avatar"),
            EventData::Room(_, RoomEvent::Topic(_, _)) => String::from_str("m.room.topic"),
            EventData::Room(_, RoomEvent::Unknown(t)) => {
                let s = String::from_str("m.room.");
                s.concat(t.as_str())
            },
            EventData::Typing(_) => String::from_str("m.typing"),
            EventData::Presence(_) => String::from_str("m.presence"),
            EventData::Unknown(t) => t.clone(),
            EventData::EndOfSync(_) => String::new(),
        }
    }
}

/// `unsigned.age`, 0 when absent; `None` when it is there and not a
/// non-negative integer.
pub open spec fn event_age(j: JsonValue) -> Option<u64> {
    match field(j, "unsigned"@) {
        Some(u) => match field(u, "age"@) {
            None => Some(0),
            Some(JsonValue::U64(n)) => Some(n),
            Some(JsonValue::I64(n)) => if n >= 0 { Some(n as u64) } else { None },
            _ => None,
        },
        None => Some(0),
    }
}

/// `event_id`: `Some(None)` when absent, `None` when it is not a string.
pub open spec fn event_id_of(j: JsonValue) -> Option<Option<IdView>> {
    match field(j, "event_id"@) {
        None => Some(None),
        Some(JsonValue::Str(s)) => Some(Some(parse_id(s@))),
        _ => None,
    }
}

/// The room that an event belongs to: the one it was listed under, else its `room_id`.
pub open spec fn room_of(j: JsonValue, room: Option<Seq<char>>) -> Option<Seq<char>> {
    match room {
        Some(r) => Some(r),
        None => field_str(j, "room_id"@),
    }
}

pub open spec fn content_str(j: JsonValue, key: Seq<char>) -> Option<Seq<char>> {
    path_str(j, "content"@, key)
}

pub open spec fn str_items(v: Seq<JsonValue>) -> bool {
    forall|i: int| 0 <= i < v.len() ==> v[i] is Str
}

pub open spec fn str_item_views(v: Seq<JsonValue>) -> Seq<Seq<char>> {
    v.map_values(|x: JsonValue| match x {
        JsonValue::Str(s) => s@,
        _ => Seq::empty(),
    })
}

/// `content.aliases`, where it is an array of strings.
pub open spec fn aliases_of(j: JsonValue) -> Option<Seq<Seq<char>>> {
    match field(j, "content"@) {
        Some(c) => match field(c, "aliases"@) {
            Some(JsonValue::Array(v)) => if str_items(v@) { Some(str_item_views(v@)) } else { None },
            _ => None,
        },
        None => None,
    }
}

/// An event that comes from a user and carries one string of its content.
pub open spec fn user_event(j: JsonValue, key: Seq<char>) -> Option<(IdView, Seq<char>)> {
    match (field_str(j, "sender"@), content_str(j, key)) {
        (Some(s), Some(v)) => Some((parse_id(s), v)),
        _ => None,
    }
}

/// A room event of type `m.room.<t>` whose content is a non-empty object.
pub open spec fn decode_room_body(j: JsonValue, t: Seq<char>) -> Option<RoomEventView> {
    if t == "canonical_alias"@ {
        match content_str(j, "alias"@) {
            Some(a) => Some(RoomEventView::CanonicalAlias(a)),
            None => None,
        }
    } else if t == "join_rules"@ {
        let key = if path_str(j, "content"@, "join_rules"@) is Some
            || (match field(j, "content"@) {
                Some(c) => field(c, "join_rules"@) is Some,
                None => false,
            }) { "join_rules"@ } else { "join_rule"@ };
        match content_str(j, key) {
            Some(a) => Some(RoomEventView::JoinRules(a)),
            None => None,
        }
    } else if t == "member"@ {
        match (field_str(j, "sender"@), content_str(j, "membership"@)) {
            (Some(s), Some(m)) => match membership_of(m) {
                Some(a) => Some(RoomEventView::Membership(parse_id(s), a)),
                None => None,
            },
            _ => None,
        }
    } else if t == "history_visibility"@ {
        match content_str(j, "history_visibility"@) {
            Some(a) => Some(RoomEventView::HistoryVisibility(a)),
            None => None,
        }
    } else if t == "create"@ {
        Some(RoomEventView::Create)
    } else if t == "aliases"@ {
        match aliases_of(j) {
            Some(a) => Some(RoomEventView::Aliases(a)),
            None => None,
        }
    } else if t == "power_levels"@ {
        Some(RoomEventView::PowerLevels)
    } else if t == "message"@ {
        match user_event(j, "body"@) {
            Some((u, v)) => Some(RoomEventView::Message(u, v)),
            None => None,
        }
    } else if t == "name"@ {
        match user_event(j, "name"@) {
            Some((u, v)) => Some(RoomEventView::Name(u, v)),
            None => None,
        }
    } else if t == "topic"@ {
        match user_event(j, "topic"@) {
            Some((u, v)) => Some(RoomEventView::Topic(u, v)),
            None => None,
        }
    } else if t == "avatar"@ {
        match user_event(j, "url"@) {
            Some((u, v)) => Some(RoomEventView::Avatar(u, v)),
            None => None,
        }
    } else {
        Some(RoomEventView::Unknown(t))
    }
}

/// A room event of type `m.room.<t>`: its content must be an object; an empty
/// one (a redaction) makes the event unknown.
pub open spec fn decode_room(j: JsonValue, t: Seq<char>) -> Option<RoomEventView> {
    match field(j, "content"@) {
        Some(JsonValue::Object(f)) => if f@.len() == 0 {
            Some(RoomEventView::Unknown(t))
        } else {
            decode_room_body(j, t)
        },
        _ => None,
    }
}

/// What an event of type `t` carries.
pub open spec fn decode_data(j: JsonValue, room: Option<Seq<char>>, t: Seq<char>) -> Option<EventDataView> {
    let toks = split_on(t, '.');
    if toks.len() < 2 || toks[0] != "m"@ {
        Some(EventDataView::Unknown(t))
    } else if toks[1] == "room"@ {
        if toks.len() < 3 {
            Some(EventDataView::Unknown(t))
        } else {
            match (room_of(j, room), decode_room(j, toks[2])) {
                (Some(r), Some(e)) => Some(EventDataView::Room(parse_id(r), e)),
                _ => None,
            }
        }
    } else if toks[1] == "typing"@ {
        match room_of(j, room) {
            Some(r) => Some(EventDataView::Typing(parse_id(r))),
            None => None,
        }
    } else if toks[1] == "presence"@ {
        match (content_str(j, "presence"@), field_str(j, "sender"@)) {
            (Some(p), Some(s)) => Some(EventDataView::Presence(parse_id(s), p)),
            _ => None,
        }
    } else {
        Some(EventDataView::Unknown(t))
    }
}

/// The event that a JSON object describes; `None` when a field it needs is
/// missing or of the wrong kind.
pub open spec fn decode_event(j: JsonValue, room: Option<Seq<char>>) -> Option<EventView> {
    match (event_age(j), event_id_of(j), field_str(j, "type"@)) {
        (Some(age), Some(id), Some(t)) => match decode_data(j, room, t) {
            Some(d) => Some(EventView { age, id, data: d }),
            None => None,
        },
        _ => None,
    }
}

pub open spec fn opt_event_view(e: Option<Event>) -> Option<EventView> {
    match e {
        Some(e) => Some(e@),
        None => None,
    }
}

fn str_is(s: &String, lit: &str) -> (r: bool)
    ensures
        r == (s@ == lit@),
{
    chars_eq(&chars_of(s.as_str()), lit)
}

fn sender_and(json: &JsonValue, key: &str) -> (r: Option<(UserID, String)>)
    ensures
        match r {
            Some((u, v)) => user_event(*json, key@) == Some((u@, v@)),
            None => user_event(*json, key@) is None,
        },
{
    match (json.get_str("sender"), json.get_path_str("content", key)) {
        (Some(s), Some(v)) => Some((UserID::from_str(s.as_str()), v)),
        _ => None,
    }
}

fn aliases_from(json: &JsonValue) -> (r: Option<Vec<String>>)
    ensures
        match r {
            Some(v) => aliases_of(*json) == Some(strs_view(v@)),
            None => aliases_of(*json) is None,
        },
{
    let content = match json.get("content") {
        Some(c) => c,
        None => return None,
    };
    match content.get("aliases") {
        Some(JsonValue::Array(items)) => {
            let mut out: Vec<String> = Vec::new();
            let mut i: usize = 0;
            while i < items.len()
                invariant
                    i <= items@.len(),
                    field(*json, "content"@) == Some(*content),
                    field(*content, "aliases"@) == Some(JsonValue::Array(*items)),
                    str_items(items@.subrange(0, i as int)),
                    strs_view(out@) == str_item_views(items@.subrange(0, i as int)),
                decreases items@.len() - i,
            {
                let ghost before = str_item_views(items@.subrange(0, i as int));
                match &items[i] {
                    JsonValue::Str(s) => {
                        out.push(s.clone());
                        assert(items@.subrange(0, i as int + 1) =~= items@.subrange(0, i as int).push(items@[i as int]));
                        assert(str_item_views(items@.subrange(0, i as int + 1)) =~= before.push(s@));
                        assert(strs_view(out@) =~= before.push(s@));
                    },
                    _ => {
                        assert(!(items@[i as int] is Str));
                        assert(!str_items(items@));
                        return None;
                    },
                }
                i = i + 1;
            }
            assert(items@.subrange(0, i as int) =~= items@);
            Some(out)
        },
        _ => None,
    }
}

fn decode_room_body_exec(json: &JsonValue, t: &String) -> (r: Option<RoomEvent>)
    ensures
        match r {
            Some(e) => decode_room_body(*json, t@) == Some(e@),
            None => decode_room_body(*json, t@) is None,
        },
{
    if str_is(t, "canonical_alias") {
        match json.get_path_str("content", "alias") {
            Some(a) => Some(RoomEvent::CanonicalAlias(a)),
            None => None,
        }
    } else if str_is(t, "join_rules") {
        let has_rules = match json.get("content") {
            Some(c) => c.get("join_rules").is_some(),
            None => false,
        };
        let v = if has_rules {
            json.get_path_str("content", "join_rules")
        } else {
            json.get_path_str("content", "join_rule")
        };
        match v {
            Some(a) => Some(RoomEvent::JoinRules(a)),
            None => None,
        }
    } else if str_is(t, "member") {
        match (json.get_str("sender"), json.get_path_str("content", "membership")) {
            (Some(s), Some(m)) => match MembershipAction::from_str(m.as_str()) {
                Some(a) => Some(RoomEvent::Membership(UserID::from_str(s.as_str()), a)),
                None => None,
            },
            _ => None,
        }
    } else if str_is(t, "history_visibility") {
        match json.get_path_str("content", "history_visibility") {
            Some(a) => Some(RoomEvent::HistoryVisibility(a)),
            None => None,
        }
    } else if str_is(t, "create") {
        Some(RoomEvent::Create)
    } else if str_is(t, "aliases") {
        match aliases_from(json) {
            Some(a) => Some(RoomEvent::Aliases(a)),
            None => None,
        }
    } else if str_is(t, "power_levels") {
        Some(RoomEvent::PowerLevels)
    } else if str_is(t, "message") {
        match sender_and(json, "body") {
            Some((u, v)) => Some(RoomEvent::Message(u, v)),
            None => None,
        }
    } else if str_is(t, "name") {
        match sender_and(json, "name") {
            Some((u, v)) => Some(RoomEvent::Name(u, v)),
            None => None,
        }
    } else if str_is(t, "topic") {
        match sender_and(json, "topic") {
            Some((u, v)) => Some(RoomEvent::Topic(u, v)),
            None => None,
        }
    } else if str_is(t, "avatar") {
        match sender_and(json, "url") {
            Some((u, v)) => Some(RoomEvent::Avatar(u, v)),
            None => None,
        }
    } else {
        Some(RoomEvent::Unknown(t.clone()))
    }
}

impl Event {
    /// Decodes a room event of type `m.room.<event_type>`.
    pub fn from_room_json(event_type: &String, json: &JsonValue) -> (r: Option<RoomEvent>)
        ensures
            match r {
                Some(e) => decode_room(*json, event_type@) == Some(e@),
                None => decode_room(*json, event_type@) is None,
            },
    {
        match json.get("content") {
            Some(JsonValue::Object(f)) => {
                if f.len() == 0 {
                    Some(RoomEvent::Unknown(event_type.clone()))
                } else {
                    decode_room_body_exec(json, event_type)
                }
            },
            _ => None,
        }
    }

    /// Decodes an event listed under `room`, or one that names its room itself.
    pub fn from_json_in(json: &JsonValue, room: &Option<String>) -> (r: Option<Event>)
        ensures
            opt_event_view(r) == decode_event(*json, opt_view(*room)),
    {
        let age: u64 = match json.get("unsigned") {
            Some(u) => match u.get("age") {
                None => 0,
                Some(JsonValue::U64(n)) => *n,
                Some(JsonValue::I64(n)) => {
                    if *n >= 0 {
                        *n as u64
                    } else {
                        return None;
                    }
                },
                _ => return None,
            },
            None => 0,
        };
        let id: Option<EventID> = match json.get("event_id") {
            None => None,
            Some(JsonValue::Str(s)) => Some(EventID::from_str(s.as_str())),
            _ => return None,
        };
        let t = match json.get_str("type") {
            Some(t) => t,
            None => return None,
        };
        let tv = chars_of(t.as_str());
        let toks = split_on_exec(&tv, 0, tv.len(), '.');
        assert(tv@.subrange(0, tv@.len() as int) =~= t@);
        let room_id: Option<String> = match room {
            Some(r) => Some(r.clone()),
            None => json.get_str("room_id"),
        };
        let data = if toks.len() < 2 || !str_is(&toks[0], "m") {
            EventData::Unknown(t)
        } else if str_is(&toks[1], "room") {
            if toks.len() < 3 {
                EventData::Unknown(t)
            } else {
                match (room_id, Event::from_room_json(&toks[2], json)) {
                    (Some(r), Some(e)) => EventData::Room(RoomID::from_str(r.as_str()), e),
                    _ => return None,
                }
            }
        } else if str_is(&toks[1], "typing") {
            match room_id {
                Some(r) => EventData::Typing(TypingEvent { users: Vec::new(), room: RoomID::from_str(r.as_str()) }),
                None => return None,
            }
        } else if str_is(&toks[1], "presence") {
            match (json.get_path_str("content", "presence"), json.get_str("sender")) {
                (Some(p), Some(s)) => EventData::Presence(PresenceEvent { presence: p, user: UserID::from_str(s.as_str()) }),
                _ => return None,
            }
        } else {
            EventData::Unknown(t)
        };
        Some(Event { age, id, data })
    }

    /// Decodes an event that names its room itself, if it belongs to one.
    pub fn from_json(json: &JsonValue) -> (r: Option<Event>)
        ensures
            opt_event_view(r) == decode_event(*json, None),
    {
        Event::from_json_in(json, &None)
    }
}

} // verus!
