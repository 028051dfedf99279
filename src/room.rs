//! One mirrored chat room: its aliases and members, the channel name chosen
//! for it, and the events held back until that name is known.
use vstd::prelude::*;
use crate::events::{IdView, MembershipAction, RoomEvent, RoomEventView};
use crate::ident::{
    id_text, lemma_lex_lt_irreflexive, lemma_lex_lt_total, lemma_lex_lt_transitive, lex_lt,
    user_text, RoomID, UserID,
};
use crate::protocol::{Command, CommandView, Message, MessageView};
use crate::text::{chars_of, opt_view, push_char, strs_view};

verus! {

/// The name this bridge gives itself as the prefix of its own replies.
pub open spec fn server_name() -> Seq<char> {
    "pto"@
}

pub open spec fn msgs_view(v: Seq<Message>) -> Seq<MessageView> {
    v.map_values(|m: Message| m@)
}

/// `nick!nick@homeserver`: how a user appears as a message prefix.
pub open spec fn user_prefix(u: IdView) -> Seq<char> {
    u.0 + seq!['!'] + u.0 + seq!['@'] + u.1
}

pub open spec fn channel_msg(
    prefix: Option<Seq<char>>,
    c: CommandView,
    name: Seq<char>,
    suffix: Option<Seq<char>>,
) -> MessageView {
    MessageView { prefix, command: c, args: seq![name], suffix }
}

pub open spec fn join_msg(u: IdView, name: Seq<char>) -> MessageView {
    channel_msg(Some(user_prefix(u)), CommandView::Join, name, None)
}

pub open spec fn part_msg(u: IdView, name: Seq<char>) -> MessageView {
    channel_msg(Some(user_prefix(u)), CommandView::Part, name, None)
}

/// A message in a channel; in a direct room only the other member's messages
/// carry a prefix.
pub open spec fn privmsg_msg(name: Seq<char>, is_pm: bool, u: IdView, text: Seq<char>) -> MessageView {
    channel_msg(
        if is_pm && name != u.0 { None } else { Some(user_prefix(u)) },
        CommandView::Privmsg,
        name,
        Some(text),
    )
}

pub open spec fn topic_msg(name: Seq<char>, u: IdView, text: Seq<char>) -> MessageView {
    channel_msg(Some(user_prefix(u)), CommandView::Topic, name, Some(text))
}

/// The events that wait for a channel name: messages and topic changes.
pub open spec fn replayable(e: RoomEventView) -> bool {
    e is Message || e is Topic
}

/// The line that a message or topic event becomes in a named room.
pub open spec fn event_msg(e: RoomEventView, name: Seq<char>, is_pm: bool) -> MessageView {
    match e {
        RoomEventView::Topic(u, t) => topic_msg(name, u, t),
        RoomEventView::Message(u, t) => privmsg_msg(name, is_pm, u, t),
        _ => channel_msg(None, CommandView::Privmsg, name, None),
    }
}

/// The lines that buffered events become, in order.
pub open spec fn replay_msgs(p: Seq<(u64, RoomEvent)>, name: Seq<char>, is_pm: bool) -> Seq<MessageView> {
    p.map_values(|x: (u64, RoomEvent)| event_msg(x.1@, name, is_pm))
}

/// The list of names: `353 <me> @ <channel> :<nick> <nick> ...`.
pub open spec fn names_msg(me: Seq<char>, name: Seq<char>, nicks: Seq<char>) -> MessageView {
    MessageView {
        prefix: Some(server_name()),
        command: CommandView::Numeric(353),
        args: seq![me, "@"@, name],
        suffix: Some(nicks),
    }
}

/// The end of the list of names: `366 <me> <channel> :End of /NAMES list`.
pub open spec fn end_names_msg(me: Seq<char>, name: Seq<char>) -> MessageView {
    MessageView {
        prefix: Some(server_name()),
        command: CommandView::Numeric(366),
        args: seq![me, name],
        suffix: Some("End of /NAMES list"@),
    }
}

/// Nicknames separated by single spaces.
pub open spec fn nick_list(m: Seq<UserID>) -> Seq<char>
    decreases m.len(),
{
    if m.len() == 0 {
        Seq::empty()
    } else if m.len() == 1 {
        m[0].nickname@
    } else {
        nick_list(m.drop_last()) + seq![' '] + m.last().nickname@
    }
}

pub open spec fn ends_with(s: Seq<char>, suffix: Seq<char>) -> bool {
    s.len() >= suffix.len() && s.subrange(s.len() - suffix.len(), s.len() as int) == suffix
}

/// Index of the first alias at or after `i` that ends with `suffix`, or the length.
pub open spec fn first_ending(als: Seq<Seq<char>>, suffix: Seq<char>, i: int) -> int
    decreases als.len() - i,
{
    if i < 0 || i >= als.len() {
        als.len() as int
    } else if ends_with(als[i], suffix) {
        i
    } else {
        first_ending(als, suffix, i + 1)
    }
}

/// Of two members, the nickname of the one that is not `me`.
pub open spec fn other_nick(m: Seq<UserID>, me: UserID) -> Seq<char> {
    if user_text(m[0]) == user_text(me) {
        m[1].nickname@
    } else {
        m[0].nickname@
    }
}

/// Index of the first pending event younger than `age`, or the length: where an
/// event of that age goes so that the buffer stays ordered by age, and by
/// arrival among equal ages.
pub open spec fn insert_pos(p: Seq<(u64, RoomEvent)>, age: u64, i: int) -> int
    decreases p.len() - i,
{
    if i < 0 || i >= p.len() {
        p.len() as int
    } else if p[i].0 > age {
        i
    } else {
        insert_pos(p, age, i + 1)
    }
}

pub struct Room {
    pub id: RoomID,
    pub irc_name: Option<String>,
    pub canonical_alias: Option<String>,
    pub join_rules: Option<String>,
    pub members: Vec<UserID>,
    pub aliases: Vec<String>,
    pub pending_events: Vec<(u64, RoomEvent)>,
    pub pending_sync: bool,
    pub is_pm: bool,
}

impl Room {
    pub open spec fn member_texts(&self) -> Seq<Seq<char>> {
        self.members@.map_values(|u: UserID| user_text(u))
    }

    /// The members, each as `@nickname:homeserver`.
    pub open spec fn member_set(&self) -> Set<Seq<char>> {
        self.member_texts().to_set()
    }

    /// Members kept in strictly increasing order; a name exactly when the
    /// first batch is done; buffered events only while there is no name,
    /// each a message or topic, ordered by age.
    pub open spec fn wf(&self) -> bool {
        &&& forall|i: int, j: int|
            0 <= i < j < self.members@.len() ==> lex_lt(
                user_text(self.members@[i]),
                user_text(self.members@[j]),
            )
        &&& (self.irc_name is Some) == !self.pending_sync
        &&& !self.pending_sync ==> self.pending_events@.len() == 0
        &&& forall|i: int| 0 <= i < self.pending_events@.len() ==> replayable(#[trigger] self.pending_events@[i].1@)
        &&& forall|i: int, j: int|
            0 <= i < j < self.pending_events@.len() ==> self.pending_events@[i].0 <= self.pending_events@[j].0
    }

    /// The channel name that the naming rule picks, and whether the room is a
    /// direct conversation.
    pub open spec fn chosen_name(&self, me: UserID) -> (Seq<char>, bool) {
        let als = strs_view(self.aliases@);
        let k = first_ending(als, seq![':'] + me.homeserver@, 0);
        if k < als.len() {
            (als[k], false)
        } else {
            match self.canonical_alias {
                Some(c) => (c@, false),
                None => if als.len() > 0 {
                    (als[0], false)
                } else if self.members@.len() == 2 {
                    (other_nick(self.members@, me), true)
                } else {
                    (seq!['#'] + self.id.id@ + seq![':'] + self.id.homeserver@, false)
                },
            }
        }
    }

    /// What the end of the first batch sends for this room: the local user's
    /// join and the names list (not for a direct room), then each buffered event.
    pub open spec fn transition_out(&self, me: UserID) -> Seq<MessageView> {
        if !self.pending_sync {
            Seq::empty()
        } else {
            let (n, pm) = self.chosen_name(me);
            (if pm {
                Seq::empty()
            } else {
                seq![
                    join_msg(me@, n),
                    names_msg(me.nickname@, n, nick_list(self.members@)),
                    end_names_msg(me.nickname@, n),
                ]
            }) + replay_msgs(self.pending_events@, n, pm)
        }
    }

    /// What applying `e` sends: nothing until the room has a name.
    pub open spec fn event_out(&self, e: RoomEventView) -> Seq<MessageView> {
        match self.irc_name {
            None => Seq::empty(),
            Some(n) => match e {
                RoomEventView::Membership(u, MembershipAction::Join) =>
                    if !self.member_set().contains(id_text('@', u.0, u.1)) {
                        seq![join_msg(u, n@)]
                    } else {
                        Seq::empty()
                    },
                RoomEventView::Membership(u, MembershipAction::Leave) =>
                    if self.member_set().contains(id_text('@', u.0, u.1)) {
                        seq![part_msg(u, n@)]
                    } else {
                        Seq::empty()
                    },
                RoomEventView::Message(u, t) => seq![privmsg_msg(n@, self.is_pm, u, t)],
                RoomEventView::Topic(u, t) => seq![topic_msg(n@, u, t)],
                _ => Seq::empty(),
            },
        }
    }

    /// What the end of a batch leaves of `self` in `next`: the same room and
    /// state, done with its first batch, with the name it had or the one the
    /// naming rule picks.
    pub open spec fn finished(&self, next: Room, me: UserID) -> bool {
        &&& next.wf()
        &&& next.id == self.id
        &&& self.same_state(next)
        &&& !next.pending_sync
        &&& self.irc_name is Some ==> next.irc_name == self.irc_name && next.is_pm == self.is_pm
        &&& self.pending_sync ==> opt_view(next.irc_name) == Some(self.chosen_name(me).0)
            && next.is_pm == self.chosen_name(me).1
    }

    /// A room just made for the id `id`: nothing known of it yet.
    pub open spec fn is_fresh(&self, id: IdView) -> bool {
        &&& self.wf()
        &&& self.id@ == id
        &&& self.irc_name is None
        &&& self.pending_sync
        &&& !self.is_pm
        &&& self.canonical_alias is None
        &&& self.join_rules is None
        &&& self.members@.len() == 0
        &&& self.aliases@.len() == 0
        &&& self.pending_events@.len() == 0
    }

    /// The fields that no event touches.
    pub open spec fn same_frame(&self, other: Room) -> bool {
        &&& other.id == self.id
        &&& other.irc_name == self.irc_name
        &&& other.pending_sync == self.pending_sync
        &&& other.is_pm == self.is_pm
    }

    /// The fields that only the naming and the buffer do not touch.
    pub open spec fn same_state(&self, other: Room) -> bool {
        &&& other.canonical_alias == self.canonical_alias
        &&& other.join_rules == self.join_rules
        &&& other.aliases == self.aliases
        &&& other.members == self.members
    }

    /// How applying `e` (of age `age`) turns `self` into `next`.
    pub open spec fn applied(&self, next: Room, e: RoomEvent, age: u64) -> bool {
        &&& self.same_frame(next)
        &&& match e {
            RoomEvent::CanonicalAlias(s) => next.canonical_alias == Some(s) && next.join_rules
                == self.join_rules && next.aliases == self.aliases && next.members == self.members
                && next.pending_events == self.pending_events,
            RoomEvent::JoinRules(s) => next.join_rules == Some(s) && next.canonical_alias
                == self.canonical_alias && next.aliases == self.aliases && next.members
                == self.members && next.pending_events == self.pending_events,
            RoomEvent::Aliases(v) => next.aliases == v && next.canonical_alias
                == self.canonical_alias && next.join_rules == self.join_rules && next.members
                == self.members && next.pending_events == self.pending_events,
            RoomEvent::Membership(u, MembershipAction::Join) => next.member_set()
                == self.member_set().insert(user_text(u)) && next.canonical_alias
                == self.canonical_alias && next.join_rules == self.join_rules && next.aliases
                == self.aliases && next.pending_events == self.pending_events,
            RoomEvent::Membership(u, MembershipAction::Leave) => next.member_set()
                == self.member_set().remove(user_text(u)) && next.canonical_alias
                == self.canonical_alias && next.join_rules == self.join_rules && next.aliases
                == self.aliases && next.pending_events == self.pending_events,
            RoomEvent::Message(_, _) | RoomEvent::Topic(_, _) => self.same_state(next) && if self.irc_name is Some {
                next.pending_events == self.pending_events
            } else {
                next.pending_events@ == self.pending_events@.insert(
                    insert_pos(self.pending_events@, age, 0),
                    (age, e),
                )
            },
            _ => self.same_state(next) && next.pending_events == self.pending_events,
        }
    }

    pub fn new(id: RoomID) -> (r: Self)
        ensures
            r.wf(),
            r.id == id,
            r.irc_name is None,
            r.pending_sync,
            r.canonical_alias is None,
            r.join_rules is None,
            r.members@.len() == 0,
            r.aliases@.len() == 0,
            r.pending_events@.len() == 0,
            !r.is_pm,
    {
        Room {
            id,
            canonical_alias: None,
            join_rules: None,
            members: Vec::new(),
            pending_events: Vec::new(),
            aliases: Vec::new(),
            pending_sync: true,
            irc_name: None,
            is_pm: false,
        }
    }

    /// `nick!nick@homeserver` for `uid`.
    pub fn userid_to_irc(uid: &UserID) -> (r: String)
        ensures
            r@ == user_prefix(uid@),
    {
        let mut r = uid.nickname.clone();
        push_char(&mut r, '!');
        r.append(uid.nickname.as_str());
        push_char(&mut r, '@');
        r.append(uid.homeserver.as_str());
        assert(r@ =~= user_prefix(uid@));
        r
    }

    pub fn has_irc_name(&self) -> (r: bool)
        ensures
            r == (self.irc_name is Some),
    {
        self.irc_name.is_some()
    }

    /// Where `user` stands among the members: the first position not before it,
    /// and whether the member there is `user`.
    fn member_pos(&self, user: &UserID) -> (r: (usize, bool))
        requires
            self.wf(),
        ensures
            r.0 <= self.members@.len(),
            forall|k: int| 0 <= k < r.0 ==> lex_lt(user_text(#[trigger] self.members@[k]), user_text(*user)),
            r.0 < self.members@.len() ==> !lex_lt(user_text(self.members@[r.0 as int]), user_text(*user)),
            r.1 == (r.0 < self.members@.len() && user_text(self.members@[r.0 as int]) == user_text(*user)),
            r.1 == self.member_set().contains(user_text(*user)),
    {
        let mut i: usize = 0;
        while i < self.members.len() && self.members[i].precedes(user)
            invariant
                i <= self.members@.len(),
                forall|k: int| 0 <= k < i ==> lex_lt(user_text(#[trigger] self.members@[k]), user_text(*user)),
            decreases self.members@.len() - i,
        {
            i = i + 1;
        }
        let found = i < self.members.len() && self.members[i].same_as(user);
        proof {
            let t = user_text(*user);
            if found {
                assert(self.member_texts()[i as int] == t);
                assert(self.member_texts().contains(t));
            } else {
                if self.member_texts().contains(t) {
                    let j = choose|j: int| 0 <= j < self.member_texts().len() && self.member_texts()[j] == t;
                    assert(user_text(self.members@[j]) == t);
                    if j < i {
                        lemma_lex_lt_irreflexive(t);
                    } else {
                        assert(i < self.members@.len());
                        if j > i {
                            lemma_lex_lt_total(user_text(self.members@[i as int]), t);
                        }
                    }
                }
            }
        }
        (i, found)
    }

    /// Adds `user` to the members; announces the join in a named room when it is new.
    pub fn handle_join(&mut self, user: UserID, out: &mut Vec<Message>)
        requires
            old(self).wf(),
        ensures
            final(self).wf(),
            old(self).same_frame(*final(self)),
            final(self).member_set() == old(self).member_set().insert(user_text(user)),
            final(self).canonical_alias == old(self).canonical_alias,
            final(self).join_rules == old(self).join_rules,
            final(self).aliases == old(self).aliases,
            final(self).pending_events == old(self).pending_events,
            msgs_view(final(out)@) == msgs_view(old(out)@) + old(self).event_out(
                RoomEventView::Membership(user@, MembershipAction::Join),
            ),
    {
        let ghost t = user_text(user);
        let (pos, found) = self.member_pos(&user);
        if found {
            assert(self.member_set().insert(t) =~= self.member_set());
            assert(msgs_view(out@) =~= msgs_view(out@) + Seq::<MessageView>::empty());
            return;
        }
        if self.has_irc_name() {
            let name = self.irc_name.as_ref().unwrap().clone();
            let m = Message {
                prefix: Some(Room::userid_to_irc(&user)),
                command: Command::Join,
                args: vec![name],
                suffix: None,
            };
            out.push(m);
            assert(m@.args =~= seq![self.irc_name->0@]);
            assert(msgs_view(out@) =~= msgs_view(old(out)@) + seq![m@]);
        } else {
            assert(msgs_view(out@) =~= msgs_view(old(out)@) + Seq::<MessageView>::empty());
        }
        let ghost old_m = self.members@;
        proof {
            assert forall|j: int| pos < j < old_m.len() implies lex_lt(t, user_text(#[trigger] old_m[j])) by {
                lemma_lex_lt_total(user_text(old_m[pos as int]), t);
                lemma_lex_lt_transitive(t, user_text(old_m[pos as int]), user_text(old_m[j]));
            }
            if (pos as int) < old_m.len() {
                lemma_lex_lt_total(user_text(old_m[pos as int]), t);
            }
        }
        self.members.insert(pos, user);
        proof {
            let m = self.members@;
            assert(m == old_m.insert(pos as int, user));
            assert forall|i: int, j: int| 0 <= i < j < m.len() implies lex_lt(
                user_text(m[i]),
                user_text(m[j]),
            ) by {
                if j < pos {
                } else if j == pos {
                } else if i < pos {
                    assert(m[j] == old_m[j - 1]);
                    lemma_lex_lt_transitive(user_text(m[i]), t, user_text(m[j]));
                } else if i == pos {
                } else {
                    assert(m[i] == old_m[i - 1]);
                    assert(m[j] == old_m[j - 1]);
                }
            }
            assert forall|x: Seq<char>| self.member_set().contains(x) == old(self).member_set().insert(t).contains(x) by {
                if old(self).member_set().insert(t).contains(x) {
                    if x == t {
                        assert(self.member_texts()[pos as int] == t);
                    } else {
                        let j = choose|j: int| 0 <= j < old(self).member_texts().len() && old(self).member_texts()[j] == x;
                        if j < pos {
                            assert(self.member_texts()[j] == x);
                        } else {
                            assert(self.member_texts()[j + 1] == x);
                        }
                    }
                }
                if self.member_set().contains(x) {
                    let j = choose|j: int| 0 <= j < self.member_texts().len() && self.member_texts()[j] == x;
                    if j < pos {
                        assert(old(self).member_texts()[j] == x);
                    } else if j > pos {
                        assert(old(self).member_texts()[j - 1] == x);
                    }
                }
            }
            assert(self.member_set() =~= old(self).member_set().insert(t));
        }
    }

    /// Removes `user` from the members; announces the part in a named room when
    /// it was a member.
    pub fn handle_part(&mut self, user: UserID, out: &mut Vec<Message>)
        requires
            old(self).wf(),
        ensures
            final(self).wf(),
            old(self).same_frame(*final(self)),
            final(self).member_set() == old(self).member_set().remove(user_text(user)),
            final(self).canonical_alias == old(self).canonical_alias,
            final(self).join_rules == old(self).join_rules,
            final(self).aliases == old(self).aliases,
            final(self).pending_events == old(self).pending_events,
            msgs_view(final(out)@) == msgs_view(old(out)@) + old(self).event_out(
                RoomEventView::Membership(user@, MembershipAction::Leave),
            ),
    {
        let ghost t = user_text(user);
        let (pos, found) = self.member_pos(&user);
        if !found {
            assert(self.member_set().remove(t) =~= self.member_set());
            assert(msgs_view(out@) =~= msgs_view(out@) + Seq::<MessageView>::empty());
            return;
        }
        let ghost old_m = self.members@;
        self.members.remove(pos);
        proof {
            let m = self.members@;
            assert(m == old_m.remove(pos as int));
            assert forall|i: int, j: int| 0 <= i < j < m.len() implies lex_lt(
                user_text(m[i]),
                user_text(m[j]),
            ) by {
                if i >= pos {
                    assert(m[i] == old_m[i + 1]);
                }
                if j >= pos {
                    assert(m[j] == old_m[j + 1]);
                }
            }
            assert forall|x: Seq<char>| self.member_set().contains(x) == old(self).member_set().remove(t).contains(x) by {
                if old(self).member_set().remove(t).contains(x) {
                    let j = choose|j: int| 0 <= j < old(self).member_texts().len() && old(self).member_texts()[j] == x;
                    if j < pos {
                        assert(self.member_texts()[j] == x);
                    } else {
                        assert(j != pos);
                        assert(self.member_texts()[j - 1] == x);
                    }
                }
                if self.member_set().contains(x) {
                    let j = choose|j: int| 0 <= j < self.member_texts().len() && self.member_texts()[j] == x;
                    if j < pos {
                        assert(old(self).member_texts()[j] == x);
                        lemma_lex_lt_irreflexive(t);
                        if x == t {
                            assert(lex_lt(user_text(old_m[j]), user_text(old_m[pos as int])));
                        }
                    } else {
                        assert(old(self).member_texts()[j + 1] == x);
                        if x == t {
                            lemma_lex_lt_irreflexive(t);
                            assert(lex_lt(user_text(old_m[pos as int]), user_text(old_m[j + 1])));
                        }
                    }
                }
            }
            assert(self.member_set() =~= old(self).member_set().remove(t));
        }
        if self.has_irc_name() {
            let name = self.irc_name.as_ref().unwrap().clone();
            let m = Message {
                prefix: Some(Room::userid_to_irc(&user)),
                command: Command::Part,
                args: vec![name],
                suffix: None,
            };
            out.push(m);
            assert(m@.args =~= seq![self.irc_name->0@]);
            assert(msgs_view(out@) =~= msgs_view(old(out)@) + seq![m@]);
        } else {
            assert(msgs_view(out@) =~= msgs_view(old(out)@) + Seq::<MessageView>::empty());
        }
    }

    /// The line that a message or topic event becomes in the channel `name`.
    fn event_line(e: &RoomEvent, name: &String, is_pm: bool) -> (r: Message)
        requires
            replayable(e@),
        ensures
            r@ == event_msg(e@, name@, is_pm),
    {
        match e {
            RoomEvent::Message(user, text) => {
                let prefix = if is_pm && *name != user.nickname {
                    None
                } else {
                    Some(Room::userid_to_irc(user))
                };
                let m = Message {
                    prefix,
                    command: Command::Privmsg,
                    args: vec![name.clone()],
                    suffix: Some(text.clone()),
                };
                assert(m@.args =~= seq![name@]);
                m
            },
            RoomEvent::Topic(user, text) => {
                let m = Message {
                    prefix: Some(Room::userid_to_irc(user)),
                    command: Command::Topic,
                    args: vec![name.clone()],
                    suffix: Some(text.clone()),
                };
                assert(m@.args =~= seq![name@]);
                m
            },
            _ => {
                assert(false);
                Message { prefix: None, command: Command::Privmsg, args: vec![name.clone()], suffix: None }
            },
        }
    }

    /// Sends a message or topic event to the channel, or holds it back while
    /// the room has no name.
    pub fn handle_with_alias(&mut self, evt: RoomEvent, out: &mut Vec<Message>, age: u64)
        requires
            old(self).wf(),
            replayable(evt@),
        ensures
            final(self).wf(),
            old(self).applied(*final(self), evt, age),
            msgs_view(final(out)@) == msgs_view(old(out)@) + old(self).event_out(evt@),
    {
        if self.has_irc_name() {
            let m = Room::event_line(&evt, self.irc_name.as_ref().unwrap(), self.is_pm);
            out.push(m);
            assert(msgs_view(out@) =~= msgs_view(old(out)@) + old(self).event_out(evt@));
        } else {
            let mut i: usize = 0;
            while i < self.pending_events.len() && self.pending_events[i].0 <= age
                invariant
                    i <= self.pending_events@.len(),
                    insert_pos(self.pending_events@, age, i as int) == insert_pos(self.pending_events@, age, 0),
                    forall|k: int| 0 <= k < i ==> (#[trigger] self.pending_events@[k]).0 <= age,
                decreases self.pending_events@.len() - i,
            {
                i = i + 1;
            }
            let ghost p = self.pending_events@;
            let ghost ev = evt;
            self.pending_events.insert(i, (age, evt));
            proof {
                let q = self.pending_events@;
                assert(q == p.insert(i as int, (age, ev)));
                assert forall|a: int, b: int| 0 <= a < b < q.len() implies q[a].0 <= q[b].0 by {
                    if b < i {
                    } else if b == i {
                    } else if a < i {
                        assert(q[b] == p[b - 1]);
                        if (i as int) < p.len() {
                            assert(p[i as int].0 <= p[b - 1].0 || b - 1 == i);
                        }
                    } else if a == i {
                        assert(q[b] == p[b - 1]);
                        assert(p[i as int].0 > age);
                        assert(p[i as int].0 <= p[b - 1].0 || b - 1 == i);
                    } else {
                        assert(q[a] == p[a - 1]);
                        assert(q[b] == p[b - 1]);
                    }
                }
                assert forall|k: int| 0 <= k < q.len() implies replayable(#[trigger] q[k].1@) by {
                    if k < i {
                        assert(q[k] == p[k]);
                    } else if k > i {
                        assert(q[k] == p[k - 1]);
                    }
                }
            }
            assert(msgs_view(out@) =~= msgs_view(old(out)@) + Seq::<MessageView>::empty());
        }
    }

    /// Applies one room event: state events update the room, membership
    /// changes the members, messages and topics go to the channel or wait.
    pub fn handle_event(&mut self, evt: RoomEvent, out: &mut Vec<Message>, age: u64)
        requires
            old(self).wf(),
        ensures
            final(self).wf(),
            old(self).applied(*final(self), evt, age),
            msgs_view(final(out)@) == msgs_view(old(out)@) + old(self).event_out(evt@),
            old(self).pending_sync ==> msgs_view(final(out)@) == msgs_view(old(out)@),
    {
        let ghost ev = evt;
        match evt {
            RoomEvent::CanonicalAlias(name) => {
                self.canonical_alias = Some(name);
            },
            RoomEvent::JoinRules(rules) => {
                self.join_rules = Some(rules);
            },
            RoomEvent::Aliases(aliases) => {
                self.aliases = aliases;
            },
            RoomEvent::Membership(user, MembershipAction::Join) => {
                self.handle_join(user, out);
                return;
            },
            RoomEvent::Membership(user, MembershipAction::Leave) => {
                self.handle_part(user, out);
                return;
            },
            RoomEvent::Message(_, _) | RoomEvent::Topic(_, _) => {
                self.handle_with_alias(evt, out, age);
                return;
            },
            _ => {},
        }
        assert(msgs_view(out@) =~= msgs_view(old(out)@) + old(self).event_out(ev@));
    }

    /// Picks the channel name of a room that has none yet (see `chosen_name`).
    pub fn update_irc_name(&mut self, my_uid: &UserID)
        requires
            old(self).irc_name is None,
        ensures
            opt_view(final(self).irc_name) == Some(old(self).chosen_name(*my_uid).0),
            final(self).is_pm == old(self).chosen_name(*my_uid).1,
            final(self).id == old(self).id,
            final(self).pending_sync == old(self).pending_sync,
            final(self).pending_events == old(self).pending_events,
            old(self).same_state(*final(self)),
    {
        let ghost als = strs_view(self.aliases@);
        let mut suffix: Vec<char> = Vec::new();
        suffix.push(':');
        let hs = chars_of(my_uid.homeserver.as_str());
        let mut j: usize = 0;
        while j < hs.len()
            invariant
                j <= hs@.len(),
                hs@ == my_uid.homeserver@,
                suffix@ == seq![':'] + hs@.subrange(0, j as int),
            decreases hs@.len() - j,
        {
            suffix.push(hs[j]);
            j = j + 1;
            assert(suffix@ =~= seq![':'] + hs@.subrange(0, j as int));
        }
        assert(hs@.subrange(0, j as int) =~= hs@);
        let mut i: usize = 0;
        while i < self.aliases.len()
            invariant
                i <= self.aliases@.len(),
                als == strs_view(self.aliases@),
                *self == *old(self),
                suffix@ == seq![':'] + my_uid.homeserver@,
                first_ending(als, suffix@, i as int) == first_ending(als, suffix@, 0),
            decreases self.aliases@.len() - i,
        {
            if ends_with_exec(&self.aliases[i], &suffix) {
                self.irc_name = Some(self.aliases[i].clone());
                self.is_pm = false;
                return;
            }
            i = i + 1;
        }
        match &self.canonical_alias {
            Some(a) => {
                self.irc_name = Some(a.clone());
                self.is_pm = false;
            },
            None => {
                if self.aliases.len() > 0 {
                    self.irc_name = Some(self.aliases[0].clone());
                    self.is_pm = false;
                } else if self.members.len() == 2 {
                    self.is_pm = true;
                    let other = if self.members[0].same_as(my_uid) { &self.members[1] } else { &self.members[0] };
                    self.irc_name = Some(other.nickname.clone());
                } else {
                    let mut n = String::new();
                    push_char(&mut n, '#');
                    n.append(self.id.id.as_str());
                    push_char(&mut n, ':');
                    n.append(self.id.homeserver.as_str());
                    assert(n@ =~= seq!['#'] + self.id.id@ + seq![':'] + self.id.homeserver@);
                    self.irc_name = Some(n);
                    self.is_pm = false;
                }
            },
        }
    }

    /// Sends the buffered events in order and empties the buffer.
    pub fn run_pending(&mut self, out: &mut Vec<Message>)
        requires
            old(self).irc_name is Some,
            forall|i: int| 0 <= i < old(self).pending_events@.len() ==> replayable(#[trigger] old(self).pending_events@[i].1@),
        ensures
            final(self).pending_events@.len() == 0,
            final(self).id == old(self).id,
            final(self).irc_name == old(self).irc_name,
            final(self).is_pm == old(self).is_pm,
            final(self).pending_sync == old(self).pending_sync,
            old(self).same_state(*final(self)),
            msgs_view(final(out)@) == msgs_view(old(out)@) + replay_msgs(
                old(self).pending_events@,
                old(self).irc_name->0@,
                old(self).is_pm,
            ),
    {
        let mut pending: Vec<(u64, RoomEvent)> = Vec::new();
        std::mem::swap(&mut pending, &mut self.pending_events);
        let name = self.irc_name.as_ref().unwrap();
        let ghost nm = old(self).irc_name->0@;
        let ghost pm = old(self).is_pm;
        let mut i: usize = 0;
        while i < pending.len()
            invariant
                i <= pending@.len(),
                pending@ == old(self).pending_events@,
                name@ == nm,
                nm == old(self).irc_name->0@,
                self.is_pm == pm,
                pm == old(self).is_pm,
                forall|k: int| 0 <= k < pending@.len() ==> replayable(#[trigger] pending@[k].1@),
                msgs_view(out@) == msgs_view(old(out)@) + replay_msgs(pending@.subrange(0, i as int), nm, pm),
            decreases pending@.len() - i,
        {
            let m = Room::event_line(&pending[i].1, name, self.is_pm);
            let ghost k = i as int;
            let ghost prev = out@;
            out.push(m);
            assert(msgs_view(out@) =~= msgs_view(prev).push(m@));
            i = i + 1;
            assert(pending@.subrange(0, k + 1) =~= pending@.subrange(0, k).push(pending@[k]));
            assert(replay_msgs(pending@.subrange(0, k + 1), nm, pm) =~= replay_msgs(pending@.subrange(0, k), nm, pm).push(m@));
            assert(msgs_view(out@) =~= msgs_view(old(out)@) + replay_msgs(pending@.subrange(0, i as int), nm, pm));
        }
        assert(pending@.subrange(0, i as int) =~= pending@);
    }

    /// The end of a batch: a room seen for the first time gets its name, the
    /// local user's join and the names list (unless it is a direct room), then
    /// its buffered events. A room that has a name is left as it is.
    pub fn finish_sync(&mut self, my_uid: &UserID, out: &mut Vec<Message>)
        requires
            old(self).wf(),
        ensures
            old(self).finished(*final(self), *my_uid),
            msgs_view(final(out)@) == msgs_view(old(out)@) + old(self).transition_out(*my_uid),
    {
        if !self.pending_sync {
            assert(msgs_view(out@) =~= msgs_view(old(out)@) + old(self).transition_out(*my_uid));
            return;
        }
        self.update_irc_name(my_uid);
        let name = self.irc_name.as_ref().unwrap().clone();
        let ghost head = msgs_view(out@);
        if !self.is_pm {
            let j = Message {
                prefix: Some(Room::userid_to_irc(my_uid)),
                command: Command::Join,
                args: vec![name.clone()],
                suffix: None,
            };
            assert(j@.args =~= seq![name@]);
            out.push(j);
            let names = Message {
                prefix: Some(String::from_str("pto")),
                command: Command::Numeric(353),
                args: vec![my_uid.nickname.clone(), String::from_str("@"), name.clone()],
                suffix: Some(nick_list_exec(&self.members)),
            };
            assert(names@.args =~= seq![my_uid.nickname@, "@"@, name@]);
            out.push(names);
            let end = Message {
                prefix: Some(String::from_str("pto")),
                command: Command::Numeric(366),
                args: vec![my_uid.nickname.clone(), name.clone()],
                suffix: Some(String::from_str("End of /NAMES list")),
            };
            assert(end@.args =~= seq![my_uid.nickname@, name@]);
            out.push(end);
            assert(msgs_view(out@) =~= head + seq![j@, names@, end@]);
        } else {
            assert(msgs_view(out@) =~= head + Seq::<MessageView>::empty());
        }
        self.run_pending(out);
        self.pending_sync = false;
        assert(msgs_view(out@) =~= msgs_view(old(out)@) + old(self).transition_out(*my_uid));
    }
}


/// Whether `s` ends with the characters of `suffix`.
fn ends_with_exec(s: &String, suffix: &Vec<char>) -> (r: bool)
    ensures
        r == ends_with(s@, suffix@),
{
    let v = chars_of(s.as_str());
    if v.len() < suffix.len() {
        return false;
    }
    let off = v.len() - suffix.len();
    let mut j: usize = off;
    while j < v.len()
        invariant
            v@ == s@,
            off == v@.len() - suffix@.len(),
            off <= j <= v@.len(),
            forall|k: int| 0 <= k < j - off ==> v@[off + k] == suffix@[k],
        decreases v@.len() - j,
    {
        if v[j] != suffix[j - off] {
            assert(v@.subrange(off as int, v@.len() as int)[j - off] != suffix@[j - off]);
            return false;
        }
        j = j + 1;
    }
    assert(v@.subrange(off as int, v@.len() as int) =~= suffix@);
    true
}

/// The members' nicknames separated by single spaces.
fn nick_list_exec(members: &Vec<UserID>) -> (r: String)
    ensures
        r@ == nick_list(members@),
{
    let mut r = String::new();
    let mut i: usize = 0;
    while i < members.len()
        invariant
            i <= members@.len(),
            r@ == nick_list(members@.subrange(0, i as int)),
        decreases members@.len() - i,
    {
        let ghost s1 = members@.subrange(0, i as int + 1);
        assert(s1.drop_last() =~= members@.subrange(0, i as int));
        if i > 0 {
            push_char(&mut r, ' ');
        }
        r.append(members[i].nickname.as_str());
        i = i + 1;
        assert(r@ =~= nick_list(s1));
    }
    assert(members@.subrange(0, i as int) =~= members@);
    r
}

} // verus!
