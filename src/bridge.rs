//! The per-connection session: it takes line-protocol commands and chat
//! events one at a time, keeps the mirrored rooms, and says what to send and
//! what to do next.
use vstd::prelude::*;
use crate::auth::AuthSession;
use crate::events::{Event, EventData, IdView};
use crate::ident::{EventID, RoomID, UserID};
use crate::outbound::{body_text, json_quoted, message_body};
use crate::protocol::{Command, CommandView, Message, MessageView};
use crate::room::{msgs_view, server_name, Room};
use crate::text::opt_view;

verus! {

/// Index of the first room with id `id` at or after `i`, or the length.
pub open spec fn room_index(rooms: Seq<Room>, id: IdView, i: int) -> int
    decreases rooms.len() - i,
{
    if i < 0 || i >= rooms.len() {
        rooms.len() as int
    } else if rooms[i].id@ == id {
        i
    } else {
        room_index(rooms, id, i + 1)
    }
}

pub proof fn lemma_room_index_bounds(rooms: Seq<Room>, id: IdView, i: int)
    requires
        0 <= i <= rooms.len(),
    ensures
        i <= room_index(rooms, id, i) <= rooms.len(),
        room_index(rooms, id, i) < rooms.len() ==> rooms[room_index(rooms, id, i)].id@ == id,
    decreases rooms.len() - i,
{
    if i < rooms.len() && rooms[i].id@ != id {
        lemma_room_index_bounds(rooms, id, i + 1);
    }
}

/// Index of the first room whose channel name is `name` at or after `i`, or the length.
pub open spec fn named_index(rooms: Seq<Room>, name: Seq<char>, i: int) -> int
    decreases rooms.len() - i,
{
    if i < 0 || i >= rooms.len() {
        rooms.len() as int
    } else if opt_view(rooms[i].irc_name) == Some(name) {
        i
    } else {
        named_index(rooms, name, i + 1)
    }
}

/// What the end of a batch sends, room after room.
pub open spec fn all_transitions(rooms: Seq<Room>, me: UserID) -> Seq<MessageView>
    decreases rooms.len(),
{
    if rooms.len() == 0 {
        Seq::empty()
    } else {
        all_transitions(rooms.drop_last(), me) + rooms.last().transition_out(me)
    }
}

pub open spec fn pong_msg() -> MessageView {
    MessageView { prefix: None, command: CommandView::Pong, args: Seq::empty(), suffix: None }
}

/// The welcome numerics `001`, `002` and `005` for `nick`.
pub open spec fn welcome_msgs(nick: Seq<char>) -> Seq<MessageView> {
    seq![
        MessageView {
            prefix: Some(server_name()),
            command: CommandView::Numeric(1),
            args: seq![nick],
            suffix: Some("Welcome to Perpetually Talking Online "@ + nick),
        },
        MessageView {
            prefix: Some(server_name()),
            command: CommandView::Numeric(2),
            args: seq![nick],
            suffix: Some("Your host is running Perpetually Talking Online, the IRC frontend to Matrix."@),
        },
        MessageView {
            prefix: Some(server_name()),
            command: CommandView::Numeric(5),
            args: seq![nick, "CHANTYPES=# NETWORK=matrix CHARSET=utf-8"@],
            suffix: Some("are supported by this server"@),
        },
    ]
}

/// The nickname a command names: its trailing part, else its first argument.
pub open spec fn nick_param(m: MessageView) -> Option<Seq<char>> {
    match m.suffix {
        Some(s) => Some(s),
        None => if m.args.len() > 0 { Some(m.args[0]) } else { None },
    }
}

/// The text of a `PRIVMSG`: its trailing part, else its second argument.
pub open spec fn text_param(m: MessageView) -> Option<Seq<char>> {
    match m.suffix {
        Some(s) => Some(s),
        None => if m.args.len() > 1 { Some(m.args[1]) } else { None },
    }
}

/// What the caller is to do after a client command.
pub enum Action {
    /// Nothing more.
    Continue,
    /// End the session.
    Quit,
    /// Log in with a password; then call `Bridge::logged_in`.
    Login { username: String, password: String },
    /// Log in as a guest; then call `Bridge::logged_in`.
    GuestLogin { username: String },
    /// `USER` came without a user name: the handshake fails.
    AuthIncomplete,
    /// Send `body` as a message event to `room` with transaction id `txn_id`;
    /// then hand the returned event id to `Bridge::message_sent`.
    Send { room: RoomID, txn_id: u64, body: String },
}

pub struct Bridge {
    pub rooms: Vec<Room>,
    pub seen_events: Vec<EventID>,
    pub last_token: String,
    pub uid: Option<UserID>,
    pub access_token: Option<String>,
    pub nickname: Option<String>,
    pub auth: AuthSession,
    pub next_txn: u64,
}

impl Bridge {
    /// Every room well formed, no two with the same id.
    pub open spec fn wf(&self) -> bool {
        &&& forall|i: int| 0 <= i < self.rooms@.len() ==> (#[trigger] self.rooms@[i]).wf()
        &&& forall|i: int, j: int|
            0 <= i < j < self.rooms@.len() ==> self.rooms@[i].id@ != self.rooms@[j].id@
    }

    pub open spec fn has_seen(&self, id: IdView) -> bool {
        exists|i: int| 0 <= i < self.seen_events@.len() && (#[trigger] self.seen_events@[i])@ == id
    }

    /// All but the rooms, the seen ids and the resume token.
    pub open spec fn same_session(&self, other: Bridge) -> bool {
        &&& other.uid == self.uid
        &&& other.access_token == self.access_token
        &&& other.nickname == self.nickname
        &&& other.auth.auth.password == self.auth.auth.password
        &&& other.auth.auth.username == self.auth.auth.username
        &&& other.next_txn == self.next_txn
    }

    pub open spec fn unchanged(&self, other: Bridge) -> bool {
        &&& self.same_session(other)
        &&& other.rooms == self.rooms
        &&& other.seen_events == self.seen_events
        &&& other.last_token == self.last_token
    }

    /// Rooms are never dropped, keep their ids, and keep a name once they have one.
    pub open spec fn rooms_kept(&self, other: Bridge) -> bool {
        &&& other.rooms@.len() >= self.rooms@.len()
        &&& forall|i: int| 0 <= i < self.rooms@.len() ==> {
            &&& (#[trigger] other.rooms@[i]).id == self.rooms@[i].id
            &&& self.rooms@[i].irc_name is Some ==> other.rooms@[i].irc_name == self.rooms@[i].irc_name
        }
    }

    pub fn new() -> (r: Self)
        ensures
            r.wf(),
            r.rooms@.len() == 0,
            r.seen_events@.len() == 0,
            r.last_token@.len() == 0,
            r.uid is None,
            r.access_token is None,
            r.nickname is None,
            r.auth.auth.password is None,
            r.auth.auth.username is None,
            r.next_txn == 0,
    {
        Bridge {
            rooms: Vec::new(),
            seen_events: Vec::new(),
            last_token: String::new(),
            uid: None,
            access_token: None,
            nickname: None,
            auth: AuthSession::new(),
            next_txn: 0,
        }
    }

    /// Whether `id` has been applied or sent already.
    pub fn seen(&self, id: &EventID) -> (r: bool)
        ensures
            r == self.has_seen(id@),
    {
        let mut i: usize = 0;
        while i < self.seen_events.len()
            invariant
                i <= self.seen_events@.len(),
                forall|k: int| 0 <= k < i ==> (#[trigger] self.seen_events@[k])@ != id@,
            decreases self.seen_events@.len() - i,
        {
            if self.seen_events[i].same_as(id) {
                return true;
            }
            i = i + 1;
        }
        false
    }

    /// The index of the room with id `id`, made empty and pending if it is new.
    pub fn room_from_matrix(&mut self, id: &RoomID) -> (r: usize)
        requires
            old(self).wf(),
        ensures
            final(self).wf(),
            r == room_index(old(self).rooms@, id@, 0),
            r < final(self).rooms@.len(),
            old(self).same_session(*final(self)),
            final(self).seen_events == old(self).seen_events,
            final(self).last_token == old(self).last_token,
            r < old(self).rooms@.len() ==> final(self).rooms == old(self).rooms,
            r == old(self).rooms@.len() ==> {
                &&& final(self).rooms@.len() == old(self).rooms@.len() + 1
                &&& final(self).rooms@.subrange(0, r as int) == old(self).rooms@
                &&& final(self).rooms@[r as int].is_fresh(id@)
            },
    {
        let mut i: usize = 0;
        while i < self.rooms.len()
            invariant
                i <= self.rooms@.len(),
                *self == *old(self),
                old(self).wf(),
                room_index(self.rooms@, id@, i as int) == room_index(self.rooms@, id@, 0),
                forall|k: int| 0 <= k < i ==> (#[trigger] self.rooms@[k]).id@ != id@,
            decreases self.rooms@.len() - i,
        {
            if self.rooms[i].id.id == id.id && self.rooms[i].id.homeserver == id.homeserver {
                proof {
                    lemma_room_index_bounds(self.rooms@, id@, 0);
                }
                return i;
            }
            i = i + 1;
        }
        let ghost before = self.rooms@;
        proof {
            lemma_room_index_bounds(before, id@, 0);
        }
        self.rooms.push(Room::new(id.duplicate()));
        assert(self.rooms@.subrange(0, i as int) =~= before);
        assert forall|a: int| 0 <= a < self.rooms@.len() implies (#[trigger] self.rooms@[a]).wf() by {
            if a < before.len() {
                assert(self.rooms@[a] == before[a]);
            }
        }
        i
    }

    /// The index of the room whose channel name is `name`, if there is one.
    pub fn room_from_irc(&self, name: &String) -> (r: Option<usize>)
        ensures
            match r {
                Some(k) => k == named_index(self.rooms@, name@, 0) && k < self.rooms@.len(),
                None => named_index(self.rooms@, name@, 0) == self.rooms@.len(),
            },
    {
        let mut i: usize = 0;
        while i < self.rooms.len()
            invariant
                i <= self.rooms@.len(),
                named_index(self.rooms@, name@, i as int) == named_index(self.rooms@, name@, 0),
            decreases self.rooms@.len() - i,
        {
            match &self.rooms[i].irc_name {
                Some(n) => {
                    if *n == *name {
                        return Some(i);
                    }
                },
                None => {},
            }
            i = i + 1;
        }
        None
    }

    /// The end of a batch: every room still pending gets its name and sends
    /// its join, names and buffered events; the resume token becomes `token`.
    pub fn finish_sync(&mut self, out: &mut Vec<Message>, token: String)
        requires
            old(self).wf(),
        ensures
            final(self).wf(),
            final(self).last_token == token,
            old(self).same_session(*final(self)),
            final(self).seen_events == old(self).seen_events,
            final(self).rooms@.len() == old(self).rooms@.len(),
            old(self).uid is None ==> final(self).rooms == old(self).rooms && final(self).last_token == token
                && msgs_view(final(out)@) == msgs_view(old(out)@),
            old(self).uid matches Some(me) ==> {
                &&& msgs_view(final(out)@) == msgs_view(old(out)@) + all_transitions(old(self).rooms@, me)
                &&& forall|i: int| 0 <= i < old(self).rooms@.len() ==> (#[trigger] old(self).rooms@[i]).finished(final(self).rooms@[i], me)
            },
    {
        if self.uid.is_none() {
            self.last_token = token;
            assert(msgs_view(out@) =~= msgs_view(old(out)@));
            return;
        }
        let mut rooms: Vec<Room> = Vec::new();
        std::mem::swap(&mut rooms, &mut self.rooms);
        let me = self.uid.as_ref().unwrap();
        let ghost old_rooms = rooms@;
        let mut i: usize = 0;
        while i < rooms.len()
            invariant
                i <= rooms@.len(),
                rooms@.len() == old_rooms.len(),
                old_rooms == old(self).rooms@,
                old(self).wf(),
                Some(*me) == old(self).uid,
                forall|k: int| 0 <= k < i ==> (#[trigger] old_rooms[k]).finished(rooms@[k], *me),
                forall|k: int| i <= k < rooms@.len() ==> #[trigger] rooms@[k] == old_rooms[k],
                msgs_view(out@) == msgs_view(old(out)@) + all_transitions(old_rooms.subrange(0, i as int), *me),
            decreases rooms@.len() - i,
        {
            let ghost before_rooms = rooms@;
            let mut room = rooms.remove(i);
            assert(room == old_rooms[i as int]);
            assert(room.wf());
            room.finish_sync(me, out);
            rooms.insert(i, room);
            proof {
                let s1 = old_rooms.subrange(0, i as int + 1);
                assert(s1.drop_last() =~= old_rooms.subrange(0, i as int));
                assert(msgs_view(out@) =~= msgs_view(old(out)@) + all_transitions(s1, *me));
                assert forall|k: int| 0 <= k < i + 1 implies (#[trigger] old_rooms[k]).finished(rooms@[k], *me) by {
                    if k < i {
                        assert(rooms@[k] == before_rooms[k]);
                    }
                }
            }
            i = i + 1;
        }
        assert(old_rooms.subrange(0, i as int) =~= old_rooms);
        std::mem::swap(&mut rooms, &mut self.rooms);
        self.last_token = token;
        assert forall|a: int, b: int| 0 <= a < b < self.rooms@.len() implies self.rooms@[a].id@ != self.rooms@[b].id@ by {
            assert(old_rooms[a].finished(self.rooms@[a], old(self).uid->0));
            assert(old_rooms[b].finished(self.rooms@[b], old(self).uid->0));
        }
        assert forall|a: int| 0 <= a < self.rooms@.len() implies (#[trigger] self.rooms@[a]).wf() by {
            assert(old_rooms[a].finished(self.rooms@[a], old(self).uid->0));
        }
    }

    /// Applies one chat event. An event whose id was seen already is dropped;
    /// otherwise a room event goes to its room (made on first sight), the
    /// end-of-batch marker finishes every pending room and stores its token,
    /// and other events change nothing. The event's id is then remembered.
    pub fn handle_matrix(&mut self, evt: Event, out: &mut Vec<Message>)
        requires
            old(self).wf(),
        ensures
            final(self).wf(),
            old(self).same_session(*final(self)),
            old(self).rooms_kept(*final(self)),
            evt.id matches Some(i) ==> final(self).has_seen(i@),
            forall|x: IdView| old(self).has_seen(x) ==> final(self).has_seen(x),
            evt.id matches Some(i) && old(self).has_seen(i@) ==> old(self).unchanged(*final(self))
                && msgs_view(final(out)@) == msgs_view(old(out)@),
            !(evt.id matches Some(i) && old(self).has_seen(i@)) ==> match evt.data {
                EventData::EndOfSync(t) => {
                    &&& final(self).last_token == t
                    &&& final(self).rooms@.len() == old(self).rooms@.len()
                    &&& old(self).uid is None ==> final(self).rooms == old(self).rooms
                        && msgs_view(final(out)@) == msgs_view(old(out)@)
                    &&& old(self).uid matches Some(me) ==> {
                        &&& msgs_view(final(out)@) == msgs_view(old(out)@) + all_transitions(old(self).rooms@, me)
                        &&& forall|i: int| 0 <= i < old(self).rooms@.len()
                            ==> (#[trigger] old(self).rooms@[i]).finished(final(self).rooms@[i], me)
                    }
                },
                EventData::Room(rid, ev) => {
                    let k = room_index(old(self).rooms@, rid@, 0);
                    &&& final(self).last_token == old(self).last_token
                    &&& k < old(self).rooms@.len() ==> {
                        &&& final(self).rooms@.len() == old(self).rooms@.len()
                        &&& old(self).rooms@[k].applied(final(self).rooms@[k], ev, evt.age)
                        &&& msgs_view(final(out)@) == msgs_view(old(out)@) + old(self).rooms@[k].event_out(ev@)
                        &&& old(self).rooms@[k].pending_sync ==> msgs_view(final(out)@) == msgs_view(old(out)@)
                        &&& forall|i: int| 0 <= i < old(self).rooms@.len() && i != k
                            ==> #[trigger] final(self).rooms@[i] == old(self).rooms@[i]
                    }
                    &&& k == old(self).rooms@.len() ==> {
                        &&& final(self).rooms@.len() == old(self).rooms@.len() + 1
                        &&& final(self).rooms@.subrange(0, k) == old(self).rooms@
                        &&& exists|fresh: Room| fresh.is_fresh(rid@) && #[trigger] fresh.applied(final(self).rooms@[k], ev, evt.age)
                        &&& msgs_view(final(out)@) == msgs_view(old(out)@)
                    }
                },
                _ => final(self).rooms == old(self).rooms && final(self).last_token == old(self).last_token
                    && msgs_view(final(out)@) == msgs_view(old(out)@),
            },
    {
        let duplicate = match &evt.id {
            Some(id) => self.seen(id),
            None => false,
        };
        if duplicate {
            assert(msgs_view(out@) =~= msgs_view(old(out)@));
            return;
        }
        let Event { age, id, data } = evt;
        match data {
            EventData::Room(room_id, room_event) => {
                proof {
                    lemma_room_index_bounds(old(self).rooms@, room_id@, 0);
                }
                let idx = self.room_from_matrix(&room_id);
                let ghost mid = self.rooms@;
                let ghost room_event_ghost = room_event;
                let mut room = self.rooms.remove(idx);
                assert(room == mid[idx as int]);
                room.handle_event(room_event, out, age);
                self.rooms.insert(idx, room);
                proof {
                    let r = self.rooms@;
                    assert(r == mid.remove(idx as int).insert(idx as int, r[idx as int]));
                    assert forall|a: int| 0 <= a < r.len() implies (#[trigger] r[a]).wf() by {
                        if a != idx {
                            assert(r[a] == mid[a]);
                        }
                    }
                    assert forall|a: int, b: int| 0 <= a < b < r.len() implies r[a].id@ != r[b].id@ by {
                        if a != idx {
                            assert(r[a] == mid[a]);
                        }
                        if b != idx {
                            assert(r[b] == mid[b]);
                        }
                    }
                    if (idx as int) == old(self).rooms@.len() {
                        assert(r.subrange(0, idx as int) =~= mid.subrange(0, idx as int));
                        assert(msgs_view(out@) =~= msgs_view(old(out)@));
                        assert(mid[idx as int].is_fresh(room_id@));
                        assert(mid[idx as int].applied(r[idx as int], room_event_ghost, age));
                    }
                    assert forall|a: int| 0 <= a < old(self).rooms@.len() implies {
                        &&& (#[trigger] r[a]).id == old(self).rooms@[a].id
                        &&& old(self).rooms@[a].irc_name is Some ==> r[a].irc_name == old(self).rooms@[a].irc_name
                    } by {
                        assert(mid.subrange(0, old(self).rooms@.len() as int)[a] == mid[a]);
                        assert(mid[a] == old(self).rooms@[a]);
                        if a != idx {
                            assert(r[a] == mid[a]);
                        }
                    }
                    assert(old(self).rooms_kept(*self));
                }
            },
            EventData::EndOfSync(token) => {
                self.finish_sync(out, token);
                proof {
                    if old(self).uid is Some {
                        assert forall|a: int| 0 <= a < old(self).rooms@.len() implies {
                            &&& (#[trigger] self.rooms@[a]).id == old(self).rooms@[a].id
                            &&& old(self).rooms@[a].irc_name is Some ==> self.rooms@[a].irc_name == old(self).rooms@[a].irc_name
                        } by {
                            assert(old(self).rooms@[a].finished(self.rooms@[a], old(self).uid->0));
                        }
                    }
                }
            },
            _ => {
                assert(msgs_view(out@) =~= msgs_view(old(out)@));
            },
        }
        assert(self.seen_events == old(self).seen_events);
        assert(forall|x: IdView| old(self).has_seen(x) ==> self.has_seen(x));
        match id {
            Some(id) => {
                self.message_sent(id);
            },
            None => {},
        }
    }

    /// Records the id that the chat service gave a message sent from this
    /// connection, so that the message is not echoed back when a later batch
    /// returns it.
    pub fn message_sent(&mut self, id: EventID)
        ensures
            final(self).has_seen(id@),
            forall|x: IdView| old(self).has_seen(x) ==> final(self).has_seen(x),
            old(self).same_session(*final(self)),
            final(self).rooms == old(self).rooms,
            final(self).last_token == old(self).last_token,
    {
        let ghost before = self.seen_events@;
        self.seen_events.push(id);
        proof {
            assert(self.seen_events@[before.len() as int] == id);
            assert forall|x: IdView| old(self).has_seen(x) implies self.has_seen(x) by {
                let j = choose|j: int| 0 <= j < before.len() && (#[trigger] before[j])@ == x;
                assert(self.seen_events@[j] == before[j]);
            }
        }
    }

    /// What a client command does. `PASS`, `NICK` and `USER` collect the
    /// handshake (ignored once logged in); `USER` asks for a password or guest
    /// login, or fails the handshake without a user name; `PING` is answered
    /// with `PONG`; `QUIT` ends the session; a `PRIVMSG` to a known channel
    /// asks for a send to its room; anything else does nothing.
    pub fn handle_client(&mut self, message: &Message, out: &mut Vec<Message>) -> (r: Action)
        requires
            old(self).wf(),
        ensures
            final(self).wf(),
            final(self).rooms == old(self).rooms,
            final(self).seen_events == old(self).seen_events,
            final(self).last_token == old(self).last_token,
            final(self).uid == old(self).uid,
            final(self).access_token == old(self).access_token,
            message.command@ is Ping ==> msgs_view(final(out)@) == msgs_view(old(out)@).push(pong_msg()),
            !(message.command@ is Ping) ==> msgs_view(final(out)@) == msgs_view(old(out)@),
            (r is Quit) == (message.command@ is Quit),
            !(message.command@ is User) ==> final(self).auth.auth.username == old(self).auth.auth.username,
            !(message.command@ is User) && !(message.command@ is Pass) ==> final(self).auth.auth.password
                == old(self).auth.auth.password,
            !(message.command@ is Nick) ==> final(self).nickname == old(self).nickname,
            !(message.command@ is Privmsg) ==> final(self).next_txn == old(self).next_txn,
            !(message.command@ is User) && !(message.command@ is Privmsg) && !(message.command@ is Quit)
                ==> r is Continue,
            message.command@ is Pass ==> if old(self).uid is None && message.args@.len() > 0 {
                final(self).auth.auth.password == Some(message.args@[0])
            } else {
                final(self).auth.auth.password == old(self).auth.auth.password
            },
            message.command@ is Nick ==> if nick_param(message@) is Some {
                opt_view(final(self).nickname) == nick_param(message@)
            } else {
                final(self).nickname == old(self).nickname
            },
            message.command@ is User ==> if old(self).uid is Some {
                &&& r is Continue
                &&& final(self).auth.auth.username == old(self).auth.auth.username
                &&& final(self).auth.auth.password == old(self).auth.auth.password
            } else {
                &&& final(self).auth.auth.username is None
                &&& final(self).auth.auth.password is None
                &&& message.args@.len() == 0 ==> r is AuthIncomplete
                &&& message.args@.len() > 0 ==> match old(self).auth.auth.password {
                    Some(p) => r == (Action::Login { username: message.args@[0], password: p }),
                    None => r == (Action::GuestLogin { username: message.args@[0] }),
                }
            },
            message.command@ is Privmsg ==> {
                let k = if message.args@.len() > 0 {
                    named_index(old(self).rooms@, message.args@[0]@, 0)
                } else {
                    old(self).rooms@.len() as int
                };
                let sendable = old(self).uid is Some && text_param(message@) is Some && k
                    < old(self).rooms@.len() && old(self).next_txn < u64::MAX;
                &&& sendable == (r is Send)
                &&& !sendable ==> r is Continue && final(self).next_txn == old(self).next_txn
                &&& sendable ==> (r matches Action::Send { room, txn_id, body } && room@ == old(
                    self,
                ).rooms@[k].id@ && txn_id == old(self).next_txn + 1 && final(self).next_txn == txn_id
                    && body@ == body_text(json_quoted(text_param(message@)->0)))
            },
    {
        match &message.command {
            Command::Pass => {
                if self.uid.is_none() && message.args.len() > 0 {
                    self.auth.set_password(message.args[0].clone());
                }
                assert(msgs_view(out@) =~= msgs_view(old(out)@));
                Action::Continue
            },
            Command::Nick => {
                let n = match &message.suffix {
                    Some(s) => Some(s.clone()),
                    None => if message.args.len() > 0 {
                        Some(message.args[0].clone())
                    } else {
                        None
                    },
                };
                match n {
                    Some(n) => {
                        self.nickname = Some(n);
                    },
                    None => {},
                }
                assert(msgs_view(out@) =~= msgs_view(old(out)@));
                Action::Continue
            },
            Command::User => {
                assert(msgs_view(out@) =~= msgs_view(old(out)@));
                if self.uid.is_some() {
                    return Action::Continue;
                }
                if message.args.len() == 0 {
                    let _ = self.auth.consume();
                    return Action::AuthIncomplete;
                }
                self.auth.set_username(message.args[0].clone());
                let auth = self.auth.consume();
                match (auth.username, auth.password) {
                    (Some(username), Some(password)) => Action::Login { username, password },
                    (Some(username), None) => Action::GuestLogin { username },
                    _ => Action::AuthIncomplete,
                }
            },
            Command::Ping => {
                let m = Message::from_command(Command::Pong);
                out.push(m);
                assert(msgs_view(out@) =~= msgs_view(old(out)@).push(pong_msg()));
                Action::Continue
            },
            Command::Quit => {
                assert(msgs_view(out@) =~= msgs_view(old(out)@));
                Action::Quit
            },
            Command::Privmsg => {
                assert(msgs_view(out@) =~= msgs_view(old(out)@));
                if self.uid.is_none() || message.args.len() == 0 || self.next_txn == u64::MAX {
                    return Action::Continue;
                }
                let text = match &message.suffix {
                    Some(s) => s,
                    None => if message.args.len() > 1 {
                        &message.args[1]
                    } else {
                        return Action::Continue;
                    },
                };
                let k = match self.room_from_irc(&message.args[0]) {
                    Some(k) => k,
                    None => return Action::Continue,
                };
                let room = self.rooms[k].id.duplicate();
                self.next_txn = self.next_txn + 1;
                let body = message_body(text.as_str());
                Action::Send { room, txn_id: self.next_txn, body }
            },
            _ => {
                assert(msgs_view(out@) =~= msgs_view(old(out)@));
                Action::Continue
            },
        }
    }

    /// The nickname the client goes by: the one it chose, else its user's.
    pub open spec fn nick_of(&self, uid: UserID) -> Seq<char> {
        match self.nickname {
            Some(n) => n@,
            None => uid.nickname@,
        }
    }

    /// A login went through: the session now belongs to `uid`, and the client
    /// is welcomed with `001`, `002` and `005`.
    pub fn logged_in(&mut self, uid: UserID, access_token: String, out: &mut Vec<Message>)
        requires
            old(self).wf(),
        ensures
            final(self).wf(),
            final(self).uid == Some(uid),
            final(self).access_token == Some(access_token),
            final(self).rooms == old(self).rooms,
            final(self).seen_events == old(self).seen_events,
            final(self).last_token == old(self).last_token,
            final(self).nickname == old(self).nickname,
            final(self).next_txn == old(self).next_txn,
            msgs_view(final(out)@) == msgs_view(old(out)@) + welcome_msgs(old(self).nick_of(uid)),
    {
        let nick = match &self.nickname {
            Some(n) => n.clone(),
            None => uid.nickname.clone(),
        };
        Bridge::welcome(&nick, out);
        self.uid = Some(uid);
        self.access_token = Some(access_token);
    }

    /// The welcome numerics for `nick`.
    pub fn welcome(nick: &String, out: &mut Vec<Message>)
        ensures
            msgs_view(final(out)@) == msgs_view(old(out)@) + welcome_msgs(nick@),
    {
        let m1 = Message {
            prefix: Some(String::from_str("pto")),
            command: Command::Numeric(1),
            args: vec![nick.clone()],
            suffix: Some(String::from_str("Welcome to Perpetually Talking Online ").concat(nick.as_str())),
        };
        let m2 = Message {
            prefix: Some(String::from_str("pto")),
            command: Command::Numeric(2),
            args: vec![nick.clone()],
            suffix: Some(String::from_str("Your host is running Perpetually Talking Online, the IRC frontend to Matrix.")),
        };
        let m5 = Message {
            prefix: Some(String::from_str("pto")),
            command: Command::Numeric(5),
            args: vec![nick.clone(), String::from_str("CHANTYPES=# NETWORK=matrix CHARSET=utf-8")],
            suffix: Some(String::from_str("are supported by this server")),
        };
        assert(m1@.args =~= seq![nick@]);
        assert(m2@.args =~= seq![nick@]);
        assert(m5@.args =~= seq![nick@, "CHANTYPES=# NETWORK=matrix CHARSET=utf-8"@]);
        out.push(m1);
        out.push(m2);
        out.push(m5);
        assert(msgs_view(out@) =~= msgs_view(old(out)@) + welcome_msgs(nick@));
    }
}

} // verus!
