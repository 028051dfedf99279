//! The chat service's identifiers: `<sigil><local>:<homeserver>`.
use vstd::prelude::*;
use crate::text::{chars_of, find_char, find_char_exec, lemma_find_char_bounds, push_char, string_of};

verus! {

/// The part after the sigil and before the first `:`.
pub open spec fn id_local(s: Seq<char>) -> Seq<char> {
    if s.len() == 0 {
        Seq::empty()
    } else {
        s.subrange(1, find_char(s, ':', 1))
    }
}

/// The part after the first `:` (empty when there is none).
pub open spec fn id_server(s: Seq<char>) -> Seq<char> {
    let k = find_char(s, ':', 1);
    if s.len() > 0 && k < s.len() {
        s.subrange(k + 1, s.len() as int)
    } else {
        Seq::empty()
    }
}

pub open spec fn id_text(sigil: char, local: Seq<char>, server: Seq<char>) -> Seq<char> {
    seq![sigil] + local + seq![':'] + server
}

/// Strict lexicographic order on character sequences.
pub open spec fn lex_lt(a: Seq<char>, b: Seq<char>) -> bool
    decreases a.len(),
{
    if a.len() == 0 {
        b.len() > 0
    } else if b.len() == 0 {
        false
    } else if a[0] != b[0] {
        a[0] < b[0]
    } else {
        lex_lt(a.drop_first(), b.drop_first())
    }
}

pub proof fn lemma_lex_lt_irreflexive(a: Seq<char>)
    ensures
        !lex_lt(a, a),
    decreases a.len(),
{
    if a.len() > 0 {
        lemma_lex_lt_irreflexive(a.drop_first());
    }
}

pub proof fn lemma_lex_lt_total(a: Seq<char>, b: Seq<char>)
    ensures
        a != b ==> (lex_lt(a, b) || lex_lt(b, a)),
        !(lex_lt(a, b) && lex_lt(b, a)),
    decreases a.len(),
{
    if a.len() > 0 && b.len() > 0 && a[0] == b[0] {
        lemma_lex_lt_total(a.drop_first(), b.drop_first());
        if a != b {
            assert(a =~= seq![a[0]] + a.drop_first());
            assert(b =~= seq![b[0]] + b.drop_first());
        }
    } else if a.len() == 0 && b.len() == 0 {
        assert(a =~= b);
    }
}

pub proof fn lemma_lex_lt_transitive(a: Seq<char>, b: Seq<char>, c: Seq<char>)
    requires
        lex_lt(a, b),
        lex_lt(b, c),
    ensures
        lex_lt(a, c),
    decreases a.len(),
{
    if a.len() > 0 && a[0] == b[0] && b[0] == c[0] {
        lemma_lex_lt_transitive(a.drop_first(), b.drop_first(), c.drop_first());
    }
}

/// Splits `s` at its first `:` after the sigil.
fn split_id(s: &str) -> (r: (String, String))
    ensures
        r.0@ == id_local(s@),
        r.1@ == id_server(s@),
{
    let v = chars_of(s);
    if v.len() == 0 {
        return (String::new(), String::new());
    }
    let k = find_char_exec(&v, ':', 1);
    proof {
        lemma_find_char_bounds(v@, ':', 1);
    }
    let local = string_of(&v, 1, k);
    let server = if k < v.len() {
        string_of(&v, k + 1, v.len())
    } else {
        String::new()
    };
    (local, server)
}

fn render_id(sigil: char, local: &String, server: &String) -> (r: String)
    ensures
        r@ == id_text(sigil, local@, server@),
{
    let mut r = String::new();
    push_char(&mut r, sigil);
    r.append(local.as_str());
    push_char(&mut r, ':');
    r.append(server.as_str());
    assert(r@ =~= id_text(sigil, local@, server@));
    r
}

#[derive(Clone, Debug, Hash, PartialEq, Eq)]
pub struct RoomID {
    pub id: String,
    pub homeserver: String,
}

impl View for RoomID {
    type V = (Seq<char>, Seq<char>);

    open spec fn view(&self) -> (Seq<char>, Seq<char>) {
        (self.id@, self.homeserver@)
    }
}

impl RoomID {
    pub fn from_str(s: &str) -> (r: Self)
        ensures
            r.id@ == id_local(s@),
            r.homeserver@ == id_server(s@),
    {
        let (id, homeserver) = split_id(s);
        RoomID { id, homeserver }
    }

    /// `!<id>:<homeserver>`.
    pub fn to_string(&self) -> (r: String)
        ensures
            r@ == id_text('!', self.id@, self.homeserver@),
    {
        render_id('!', &self.id, &self.homeserver)
    }

    pub fn duplicate(&self) -> (r: Self)
        ensures
            r@ == self@,
    {
        RoomID { id: self.id.clone(), homeserver: self.homeserver.clone() }
    }
}

#[derive(Clone, Debug, Hash, PartialEq, Eq)]
pub struct UserID {
    pub nickname: String,
    pub homeserver: String,
}

impl View for UserID {
    type V = (Seq<char>, Seq<char>);

    open spec fn view(&self) -> (Seq<char>, Seq<char>) {
        (self.nickname@, self.homeserver@)
    }
}

/// `@<nickname>:<homeserver>`: what users are told apart and ordered by.
pub open spec fn user_text(u: UserID) -> Seq<char> {
    id_text('@', u.nickname@, u.homeserver@)
}

impl UserID {
    pub fn from_str(s: &str) -> (r: Self)
        ensures
            r.nickname@ == id_local(s@),
            r.homeserver@ == id_server(s@),
    {
        let (nickname, homeserver) = split_id(s);
        UserID { nickname, homeserver }
    }

    /// `@<nickname>:<homeserver>`.
    pub fn to_string(&self) -> (r: String)
        ensures
            r@ == user_text(*self),
    {
        render_id('@', &self.nickname, &self.homeserver)
    }

    pub fn duplicate(&self) -> (r: Self)
        ensures
            r@ == self@,
    {
        UserID { nickname: self.nickname.clone(), homeserver: self.homeserver.clone() }
    }

    /// Whether `self` comes before `other` in the lexicographic order of their texts.
    pub fn precedes(&self, other: &UserID) -> (r: bool)
        ensures
            r == lex_lt(user_text(*self), user_text(*other)),
    {
        let a = chars_of(self.to_string().as_str());
        let b = chars_of(other.to_string().as_str());
        let mut i: usize = 0;
        assert(a@.skip(0) =~= a@);
        assert(b@.skip(0) =~= b@);
        while i < a.len() && i < b.len() && a[i] == b[i]
            invariant
                i <= a@.len(),
                i <= b@.len(),
                lex_lt(a@.skip(i as int), b@.skip(i as int)) == lex_lt(a@, b@),
            decreases a@.len() - i,
        {
            proof {
                assert(a@.skip(i as int).drop_first() =~= a@.skip(i as int + 1));
                assert(b@.skip(i as int).drop_first() =~= b@.skip(i as int + 1));
            }
            i = i + 1;
        }
        if i == a.len() {
            i < b.len()
        } else if i == b.len() {
            false
        } else {
            a[i] < b[i]
        }
    }

    /// Whether the two ids have the same text.
    pub fn same_as(&self, other: &UserID) -> (r: bool)
        ensures
            r == (user_text(*self) == user_text(*other)),
    {
        let a = self.to_string();
        let b = other.to_string();
        a == b
    }
}

#[derive(Clone, Debug, Hash, PartialEq, Eq)]
pub struct EventID {
    pub id: String,
    pub homeserver: String,
}

impl View for EventID {
    type V = (Seq<char>, Seq<char>);

    open spec fn view(&self) -> (Seq<char>, Seq<char>) {
        (self.id@, self.homeserver@)
    }
}

impl EventID {
    pub fn from_str(s: &str) -> (r: Self)
        ensures
            r.id@ == id_local(s@),
            r.homeserver@ == id_server(s@),
    {
        let (id, homeserver) = split_id(s);
        EventID { id, homeserver }
    }

    pub fn duplicate(&self) -> (r: Self)
        ensures
            r@ == self@,
    {
        EventID { id: self.id.clone(), homeserver: self.homeserver.clone() }
    }

    /// Whether the two ids are equal.
    pub fn same_as(&self, other: &EventID) -> (r: bool)
        ensures
            r == (self@ == other@),
    {
        self.id == other.id && self.homeserver == other.homeserver
    }
}

} // verus!
