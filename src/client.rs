//! Reading the chat service's replies: login tokens, the id of a sent event,
//! and the events of one sync batch.
use vstd::prelude::*;
use crate::events::{
    decode_event, field, field_str, Event, EventData, EventDataView, EventView,
    JsonValue,
};
use crate::ident::{id_local, id_server, EventID, UserID};
use crate::text::opt_view;

verus! {

#[derive(Clone, Debug)]
pub struct AccessToken {
    pub access: String,
    pub refresh: String,
}

/// The tokens of a password login: `access_token` and `refresh_token`.
pub fn decode_login(json: &JsonValue) -> (r: Option<AccessToken>)
    ensures
        match r {
            Some(t) => field_str(*json, "access_token"@) == Some(t.access@)
                && field_str(*json, "refresh_token"@) == Some(t.refresh@),
            None => field_str(*json, "access_token"@) is None || field_str(*json, "refresh_token"@) is None,
        },
{
    match (json.get_str("access_token"), json.get_str("refresh_token")) {
        (Some(access), Some(refresh)) => Some(AccessToken { access, refresh }),
        _ => None,
    }
}

/// The token and user of a guest login: `access_token` and `user_id`.
pub fn decode_guest_login(json: &JsonValue) -> (r: Option<(AccessToken, UserID)>)
    ensures
        match r {
            Some((t, u)) => {
                &&& field_str(*json, "access_token"@) == Some(t.access@)
                &&& t.refresh@.len() == 0
                &&& field_str(*json, "user_id"@) is Some
                &&& u.nickname@ == id_local(field_str(*json, "user_id"@)->0)
                &&& u.homeserver@ == id_server(field_str(*json, "user_id"@)->0)
            },
            None => field_str(*json, "access_token"@) is None || field_str(*json, "user_id"@) is None,
        },
{
    match (json.get_str("access_token"), json.get_str("user_id")) {
        (Some(access), Some(user)) => Some(
            (AccessToken { access, refresh: String::new() }, UserID::from_str(user.as_str())),
        ),
        _ => None,
    }
}

/// The user a password login stands for: `@<username>:<host of the service>`.
pub fn password_login_user(username: &String, host: &String) -> (r: UserID)
    ensures
        r.nickname@ == username@,
        r.homeserver@ == host@,
{
    UserID { nickname: username.clone(), homeserver: host.clone() }
}

/// The id of a sent event: `event_id`.
pub fn decode_send_response(json: &JsonValue) -> (r: Option<EventID>)
    ensures
        match r {
            Some(e) => {
                &&& field_str(*json, "event_id"@) is Some
                &&& e.id@ == id_local(field_str(*json, "event_id"@)->0)
                &&& e.homeserver@ == id_server(field_str(*json, "event_id"@)->0)
            },
            None => field_str(*json, "event_id"@) is None,
        },
{
    match json.get_str("event_id") {
        Some(s) => Some(EventID::from_str(s.as_str())),
        None => None,
    }
}

pub open spec fn events_view(v: Seq<Event>) -> Seq<EventView> {
    v.map_values(|e: Event| e@)
}

/// The events of a JSON array, in order; `None` if one of them does not decode.
pub open spec fn decode_all(arr: Seq<JsonValue>, room: Option<Seq<char>>) -> Option<Seq<EventView>>
    decreases arr.len(),
{
    if arr.len() == 0 {
        Some(Seq::empty())
    } else {
        match (decode_all(arr.drop_last(), room), decode_event(arr.last(), room)) {
            (Some(a), Some(e)) => Some(a.push(e)),
            _ => None,
        }
    }
}

/// The events of `r.<key>.events`, listed under `room`.
pub open spec fn section_events(r: JsonValue, key: Seq<char>, room: Seq<char>) -> Option<Seq<EventView>> {
    match field(r, key) {
        Some(x) => match field(x, "events"@) {
            Some(JsonValue::Array(v)) => decode_all(v@, Some(room)),
            _ => None,
        },
        None => None,
    }
}

/// A joined room's state, timeline, account data and ephemeral events, in that order.
pub open spec fn room_events(id: Seq<char>, r: JsonValue) -> Option<Seq<EventView>> {
    match (
        section_events(r, "state"@, id),
        section_events(r, "timeline"@, id),
        section_events(r, "account_data"@, id),
        section_events(r, "ephemeral"@, id),
    ) {
        (Some(a), Some(b), Some(c), Some(d)) => Some(a + b + c + d),
        _ => None,
    }
}

pub open spec fn decode_rooms(rooms: Seq<(String, JsonValue)>) -> Option<Seq<EventView>>
    decreases rooms.len(),
{
    if rooms.len() == 0 {
        Some(Seq::empty())
    } else {
        match (decode_rooms(rooms.drop_last()), room_events(rooms.last().0@, rooms.last().1)) {
            (Some(a), Some(b)) => Some(a + b),
            _ => None,
        }
    }
}

pub open spec fn end_of_sync(token: Seq<char>) -> EventView {
    EventView { age: 0, id: None, data: EventDataView::EndOfSync(token) }
}

/// The events of `presence.events`.
pub open spec fn presence_events(j: JsonValue) -> Option<Seq<EventView>> {
    match field(j, "presence"@) {
        Some(p) => match field(p, "events"@) {
            Some(JsonValue::Array(v)) => decode_all(v@, None),
            _ => None,
        },
        None => None,
    }
}

/// One sync batch: the presence events, then each joined room's events, then
/// the end-of-batch marker with `next_batch`. `None` when any part is missing
/// or an event does not decode: the whole batch is then dropped.
pub open spec fn decode_sync(j: JsonValue) -> Option<Seq<EventView>> {
    let presence = presence_events(j);
    let rooms = match field(j, "rooms"@) {
        Some(r) => match field(r, "join"@) {
            Some(JsonValue::Object(f)) => decode_rooms(f@),
            _ => None,
        },
        None => None,
    };
    match (presence, rooms, field_str(j, "next_batch"@)) {
        (Some(p), Some(r), Some(t)) => Some(p + r + seq![end_of_sync(t)]),
        _ => None,
    }
}

proof fn lemma_decode_all_none(arr: Seq<JsonValue>, room: Option<Seq<char>>, i: int)
    requires
        0 <= i <= arr.len(),
        decode_all(arr.subrange(0, i), room) is None,
    ensures
        decode_all(arr, room) is None,
    decreases arr.len() - i,
{
    if i < arr.len() {
        assert(arr.subrange(0, i + 1).drop_last() =~= arr.subrange(0, i));
        lemma_decode_all_none(arr, room, i + 1);
    } else {
        assert(arr.subrange(0, i) =~= arr);
    }
}

proof fn lemma_decode_rooms_none(rooms: Seq<(String, JsonValue)>, i: int)
    requires
        0 <= i <= rooms.len(),
        decode_rooms(rooms.subrange(0, i)) is None,
    ensures
        decode_rooms(rooms) is None,
    decreases rooms.len() - i,
{
    if i < rooms.len() {
        assert(rooms.subrange(0, i + 1).drop_last() =~= rooms.subrange(0, i));
        lemma_decode_rooms_none(rooms, i + 1);
    } else {
        assert(rooms.subrange(0, i) =~= rooms);
    }
}

/// Decodes the events of `arr` onto `out`; false if one does not decode.
fn push_decoded(arr: &Vec<JsonValue>, room: &Option<String>, out: &mut Vec<Event>) -> (ok: bool)
    ensures
        ok == decode_all(arr@, opt_view(*room)) is Some,
        ok ==> events_view(final(out)@) == events_view(old(out)@) + decode_all(arr@, opt_view(*room))->0,
{
    let ghost rv = opt_view(*room);
    let mut i: usize = 0;
    assert(arr@.subrange(0, 0) =~= Seq::<JsonValue>::empty());
    while i < arr.len()
        invariant
            i <= arr@.len(),
            rv == opt_view(*room),
            decode_all(arr@.subrange(0, i as int), rv) is Some,
            events_view(out@) == events_view(old(out)@) + decode_all(arr@.subrange(0, i as int), rv)->0,
        decreases arr@.len() - i,
    {
        let ghost s1 = arr@.subrange(0, i as int + 1);
        assert(s1.drop_last() =~= arr@.subrange(0, i as int));
        assert(s1.last() == arr@[i as int]);
        match Event::from_json_in(&arr[i], room) {
            Some(e) => {
                let ghost prev = out@;
                out.push(e);
                assert(events_view(out@) =~= events_view(prev).push(e@));
                assert(events_view(out@) =~= events_view(old(out)@) + decode_all(s1, rv)->0);
            },
            None => {
                proof {
                    lemma_decode_all_none(arr@, rv, i as int + 1);
                }
                return false;
            },
        }
        i = i + 1;
    }
    assert(arr@.subrange(0, i as int) =~= arr@);
    true
}

/// Decodes `r.<key>.events` onto `out`; false if it is missing or an event does not decode.
fn push_section(r: &JsonValue, key: &str, room: &String, out: &mut Vec<Event>) -> (ok: bool)
    ensures
        ok == section_events(*r, key@, room@) is Some,
        ok ==> events_view(final(out)@) == events_view(old(out)@) + section_events(*r, key@, room@)->0,
{
    match r.get(key) {
        Some(x) => match x.get("events") {
            Some(JsonValue::Array(v)) => push_decoded(v, &Some(room.clone()), out),
            _ => false,
        },
        None => false,
    }
}

/// Decodes one sync response.
pub fn decode_sync_batch(json: &JsonValue) -> (r: Option<Vec<Event>>)
    ensures
        match r {
            Some(v) => decode_sync(*json) == Some(events_view(v@)),
            None => decode_sync(*json) is None,
        },
{
    let mut out: Vec<Event> = Vec::new();
    let presence_ok = match json.get("presence") {
        Some(p) => match p.get("events") {
            Some(JsonValue::Array(v)) => push_decoded(v, &None, &mut out),
            _ => false,
        },
        None => false,
    };
    if !presence_ok {
        return None;
    }
    let ghost after_presence = events_view(out@);
    assert(after_presence =~= Seq::<EventView>::empty() + after_presence);
    let rj = match json.get("rooms") {
        Some(r) => r,
        None => return None,
    };
    let fields = match rj.get("join") {
        Some(JsonValue::Object(f)) => f,
        _ => return None,
    };
    let mut i: usize = 0;
    assert(fields@.subrange(0, 0) =~= Seq::<(String, JsonValue)>::empty());
    assert(after_presence + Seq::<EventView>::empty() =~= after_presence);
    while i < fields.len()
        invariant
            i <= fields@.len(),
            presence_events(*json) == Some(after_presence),
            field(*json, "rooms"@) == Some(*rj),
            field(*rj, "join"@) == Some(JsonValue::Object(*fields)),
            decode_rooms(fields@.subrange(0, i as int)) is Some,
            events_view(out@) == after_presence + decode_rooms(fields@.subrange(0, i as int))->0,
        decreases fields@.len() - i,
    {
        let ghost s1 = fields@.subrange(0, i as int + 1);
        assert(s1.drop_last() =~= fields@.subrange(0, i as int));
        assert(s1.last() == fields@[i as int]);
        let id = &fields[i].0;
        let r = &fields[i].1;
        let ghost before = events_view(out@);
        let ok = push_section(r, "state", id, &mut out) && push_section(r, "timeline", id, &mut out)
            && push_section(r, "account_data", id, &mut out) && push_section(r, "ephemeral", id, &mut out);
        if !ok {
            proof {
                lemma_decode_rooms_none(fields@, i as int + 1);
            }
            return None;
        }
        proof {
            let re = room_events(id@, *r)->0;
            assert(events_view(out@) =~= before + re);
            assert(events_view(out@) =~= after_presence + decode_rooms(s1)->0);
        }
        i = i + 1;
    }
    assert(fields@.subrange(0, i as int) =~= fields@);
    let token = match json.get_str("next_batch") {
        Some(t) => t,
        None => return None,
    };
    let ghost prev = out@;
    out.push(Event { age: 0, data: EventData::EndOfSync(token), id: None });
    assert(events_view(out@) =~= events_view(prev).push(end_of_sync(token@)));
    Some(out)
}

} // verus!
