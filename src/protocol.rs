//! Line-protocol messages: `[':' prefix SP] command (SP arg)* [SP ':' trailing]`.
use vstd::prelude::*;
use crate::text::{
    back_ws, chars_of, chars_eq, find_char, find_char_exec, find_trailing, find_trailing_exec,
    is_ws, opt_view, push_char, skip_ws, slice_vec, split_words, split_on_exec, string_of,
    strs_view, trim, trim_bounds, lemma_split_on_len,
};

verus! {

#[derive(Debug, Clone, PartialEq, Eq)]
pub enum Command {
    Nick,
    User,
    Join,
    Part,
    Quit,
    Ping,
    Mode,
    Pong,
    Pass,
    Privmsg,
    Topic,
    Numeric(u32),
    Unknown(String),
}

/// The mathematical value of a [`Command`].
pub enum CommandView {
    Nick,
    User,
    Join,
    Part,
    Quit,
    Ping,
    Mode,
    Pong,
    Pass,
    Privmsg,
    Topic,
    Numeric(u32),
    Unknown(Seq<char>),
}

impl View for Command {
    type V = CommandView;

    open spec fn view(&self) -> CommandView {
        match self {
            Command::Nick => CommandView::Nick,
            Command::User => CommandView::User,
            Command::Join => CommandView::Join,
            Command::Part => CommandView::Part,
            Command::Quit => CommandView::Quit,
            Command::Ping => CommandView::Ping,
            Command::Mode => CommandView::Mode,
            Command::Pong => CommandView::Pong,
            Command::Pass => CommandView::Pass,
            Command::Privmsg => CommandView::Privmsg,
            Command::Topic => CommandView::Topic,
            Command::Numeric(n) => CommandView::Numeric(*n),
            Command::Unknown(s) => CommandView::Unknown(s@),
        }
    }
}

pub open spec fn digit_char(d: nat) -> char {
    if d == 0 { '0' }
    else if d == 1 { '1' }
    else if d == 2 { '2' }
    else if d == 3 { '3' }
    else if d == 4 { '4' }
    else if d == 5 { '5' }
    else if d == 6 { '6' }
    else if d == 7 { '7' }
    else if d == 8 { '8' }
    else { '9' }
}

pub open spec fn is_digit(c: char) -> bool {
    '0' <= c && c <= '9'
}

pub open spec fn digit_value(c: char) -> nat {
    (c as u32 - '0' as u32) as nat
}

/// Decimal digits of `n`, most significant first.
pub open spec fn decimal(n: nat) -> Seq<char>
    decreases n,
{
    if n < 10 {
        seq![digit_char(n)]
    } else {
        decimal(n / 10).push(digit_char(n % 10))
    }
}

/// A numeric reply code, zero-padded to three digits.
pub open spec fn numeric_text(n: u32) -> Seq<char> {
    if n < 10 {
        seq!['0', '0'] + decimal(n as nat)
    } else if n < 100 {
        seq!['0'] + decimal(n as nat)
    } else {
        decimal(n as nat)
    }
}

/// The word that stands for `c` on the wire.
pub open spec fn command_text(c: CommandView) -> Seq<char> {
    match c {
        CommandView::Nick => "NICK"@,
        CommandView::User => "USER"@,
        CommandView::Join => "JOIN"@,
        CommandView::Part => "PART"@,
        CommandView::Quit => "QUIT"@,
        CommandView::Ping => "PING"@,
        CommandView::Mode => "MODE"@,
        CommandView::Pong => "PONG"@,
        CommandView::Pass => "PASS"@,
        CommandView::Privmsg => "PRIVMSG"@,
        CommandView::Topic => "TOPIC"@,
        CommandView::Numeric(n) => numeric_text(n),
        CommandView::Unknown(s) => s,
    }
}

pub open spec fn is_numeric_word(w: Seq<char>) -> bool {
    w.len() == 3 && is_digit(w[0]) && is_digit(w[1]) && is_digit(w[2])
}

pub open spec fn numeric_value(w: Seq<char>) -> u32 {
    (100 * digit_value(w[0]) + 10 * digit_value(w[1]) + digit_value(w[2])) as u32
}

/// The command that a word on the wire names: a recognised verb, a three-digit
/// numeric, or an opaque token kept as it is.
pub open spec fn command_of_word(w: Seq<char>) -> CommandView {
    if w == "NICK"@ {
        CommandView::Nick
    } else if w == "USER"@ {
        CommandView::User
    } else if w == "JOIN"@ {
        CommandView::Join
    } else if w == "PART"@ {
        CommandView::Part
    } else if w == "QUIT"@ {
        CommandView::Quit
    } else if w == "PING"@ {
        CommandView::Ping
    } else if w == "MODE"@ {
        CommandView::Mode
    } else if w == "PONG"@ {
        CommandView::Pong
    } else if w == "PASS"@ {
        CommandView::Pass
    } else if w == "PRIVMSG"@ {
        CommandView::Privmsg
    } else if w == "TOPIC"@ {
        CommandView::Topic
    } else if is_numeric_word(w) {
        CommandView::Numeric(numeric_value(w))
    } else {
        CommandView::Unknown(w)
    }
}

fn push_decimal(s: &mut String, n: u32)
    ensures
        final(s)@ == old(s)@ + decimal(n as nat),
    decreases n,
{
    if n >= 10 {
        push_decimal(s, n / 10);
    }
    let d: u32 = n % 10;
    let c = if d == 0 { '0' }
        else if d == 1 { '1' }
        else if d == 2 { '2' }
        else if d == 3 { '3' }
        else if d == 4 { '4' }
        else if d == 5 { '5' }
        else if d == 6 { '6' }
        else if d == 7 { '7' }
        else if d == 8 { '8' }
        else { '9' };
    push_char(s, c);
    proof {
        if n < 10 {
            assert(old(s)@.push(c) =~= old(s)@ + decimal(n as nat));
        } else {
            assert(old(s)@ + decimal(n as nat) =~= (old(s)@ + decimal((n / 10) as nat)).push(c));
        }
    }
}

impl Command {
    /// The word that stands for this command on the wire.
    pub fn as_string(&self) -> (r: String)
        ensures
            r@ == command_text(self@),
    {
        match self {
            Command::Nick => String::from_str("NICK"),
            Command::Join => String::from_str("JOIN"),
            Command::Part => String::from_str("PART"),
            Command::Pong => String::from_str("PONG"),
            Command::Privmsg => String::from_str("PRIVMSG"),
            Command::User => String::from_str("USER"),
            Command::Quit => String::from_str("QUIT"),
            Command::Ping => String::from_str("PING"),
            Command::Mode => String::from_str("MODE"),
            Command::Pass => String::from_str("PASS"),
            Command::Topic => String::from_str("TOPIC"),
            Command::Numeric(n) => {
                let mut s = String::new();
                if *n < 10 {
                    push_char(&mut s, '0');
                    push_char(&mut s, '0');
                } else if *n < 100 {
                    push_char(&mut s, '0');
                }
                push_decimal(&mut s, *n);
                proof {
                    if *n < 10 {
                        assert(seq!['0', '0'] =~= Seq::<char>::empty().push('0').push('0'));
                    } else if *n < 100 {
                        assert(seq!['0'] =~= Seq::<char>::empty().push('0'));
                    } else {
                        assert(Seq::<char>::empty() + decimal(*n as nat) =~= decimal(*n as nat));
                    }
                }
                s
            },
            Command::Unknown(s) => s.clone(),
        }
    }

    /// The command that the word `w` names.
    pub fn from_word(w: &Vec<char>) -> (r: Command)
        ensures
            r@ == command_of_word(w@),
    {
        if chars_eq(w, "NICK") {
            Command::Nick
        } else if chars_eq(w, "USER") {
            Command::User
        } else if chars_eq(w, "JOIN") {
            Command::Join
        } else if chars_eq(w, "PART") {
            Command::Part
        } else if chars_eq(w, "QUIT") {
            Command::Quit
        } else if chars_eq(w, "PING") {
            Command::Ping
        } else if chars_eq(w, "MODE") {
            Command::Mode
        } else if chars_eq(w, "PONG") {
            Command::Pong
        } else if chars_eq(w, "PASS") {
            Command::Pass
        } else if chars_eq(w, "PRIVMSG") {
            Command::Privmsg
        } else if chars_eq(w, "TOPIC") {
            Command::Topic
        } else if w.len() == 3 && '0' <= w[0] && w[0] <= '9' && '0' <= w[1] && w[1] <= '9'
            && '0' <= w[2] && w[2] <= '9' {
            let a = (w[0] as u32) - ('0' as u32);
            let b = (w[1] as u32) - ('0' as u32);
            let c = (w[2] as u32) - ('0' as u32);
            Command::Numeric(100 * a + 10 * b + c)
        } else {
            assert(w@.subrange(0, w@.len() as int) =~= w@);
            Command::Unknown(string_of(w, 0, w.len()))
        }
    }
}

#[derive(Debug, Clone, PartialEq, Eq)]
pub struct Message {
    pub prefix: Option<String>,
    pub command: Command,
    pub args: Vec<String>,
    pub suffix: Option<String>,
}

/// The mathematical value of a [`Message`].
pub struct MessageView {
    pub prefix: Option<Seq<char>>,
    pub command: CommandView,
    pub args: Seq<Seq<char>>,
    pub suffix: Option<Seq<char>>,
}

impl View for Message {
    type V = MessageView;

    open spec fn view(&self) -> MessageView {
        MessageView {
            prefix: opt_view(self.prefix),
            command: self.command@,
            args: strs_view(self.args@),
            suffix: opt_view(self.suffix),
        }
    }
}

/// Each argument preceded by one space.
pub open spec fn join_args(args: Seq<Seq<char>>) -> Seq<char>
    decreases args.len(),
{
    if args.len() == 0 {
        Seq::empty()
    } else {
        join_args(args.drop_last()) + seq![' '] + args.last()
    }
}

pub open spec fn render_prefix(p: Option<Seq<char>>) -> Seq<char> {
    match p {
        Some(p) => seq![':'] + p + seq![' '],
        None => Seq::empty(),
    }
}

pub open spec fn render_suffix(s: Option<Seq<char>>) -> Seq<char> {
    match s {
        Some(s) => seq![' ', ':'] + s,
        None => Seq::empty(),
    }
}

/// A message written out as one line, without its terminator.
pub open spec fn render(m: MessageView) -> Seq<char> {
    render_prefix(m.prefix) + command_text(m.command) + join_args(m.args) + render_suffix(m.suffix)
}

/// Where the prefix of a trimmed line ends: at its first space, when the line
/// starts with `:`; otherwise there is none and it ends at 0.
pub open spec fn prefix_end(t: Seq<char>) -> int {
    if t.len() > 0 && t[0] == ':' { find_char(t, ' ', 1) } else { 0 }
}

/// The prefix of a trimmed line.
pub open spec fn line_prefix(t: Seq<char>) -> Option<Seq<char>> {
    if t.len() > 0 && t[0] == ':' { Some(t.subrange(1, prefix_end(t))) } else { None }
}

/// The command word and arguments of a trimmed line, without blanks around them.
pub open spec fn line_words(t: Seq<char>) -> Seq<char> {
    trim(t.subrange(prefix_end(t), find_trailing(t, prefix_end(t))))
}

/// The trailing part of a trimmed line: what follows the first `:` that
/// comes after a space.
pub open spec fn line_suffix(t: Seq<char>) -> Option<Seq<char>> {
    let ts = find_trailing(t, prefix_end(t));
    if ts < t.len() { Some(t.subrange(ts + 2, t.len() as int)) } else { None }
}

/// The message that a line reads as. Blanks around the line are dropped; a
/// line that starts with `:` has a prefix up to the first space; the trailing
/// part starts at the first `:` that follows a space; what lies between is
/// trimmed and split at single spaces into the command word and its arguments.
pub open spec fn parse_line(line: Seq<char>) -> MessageView {
    let t = trim(line);
    let words = split_words(line_words(t));
    MessageView {
        prefix: line_prefix(t),
        command: command_of_word(words[0]),
        args: words.drop_first(),
        suffix: line_suffix(t),
    }
}

impl Message {
    /// The message as one line, without its terminator.
    pub fn to_string(&self) -> (r: String)
        ensures
            r@ == render(self@),
    {
        let mut ret = String::new();
        match &self.prefix {
            Some(pfx) => {
                push_char(&mut ret, ':');
                ret.append(pfx.as_str());
                push_char(&mut ret, ' ');
            },
            None => {},
        }
        assert(ret@ =~= render_prefix(self@.prefix));
        let cmd = self.command.as_string();
        ret.append(cmd.as_str());
        let ghost head = ret@;
        let mut i: usize = 0;
        while i < self.args.len()
            invariant
                i <= self.args@.len(),
                ret@ == head + join_args(strs_view(self.args@).subrange(0, i as int)),
            decreases self.args@.len() - i,
        {
            push_char(&mut ret, ' ');
            ret.append(self.args[i].as_str());
            proof {
                let a = strs_view(self.args@);
                assert(a.subrange(0, i as int + 1).drop_last() =~= a.subrange(0, i as int));
                assert(ret@ =~= head + join_args(a.subrange(0, i as int + 1)));
            }
            i = i + 1;
        }
        assert(strs_view(self.args@).subrange(0, i as int) =~= strs_view(self.args@));
        match &self.suffix {
            Some(sfx) => {
                push_char(&mut ret, ' ');
                push_char(&mut ret, ':');
                ret.append(sfx.as_str());
            },
            None => {},
        }
        assert(ret@ =~= render(self@));
        ret
    }

    /// The message as one line ending in CRLF, as it goes out to a client.
    pub fn to_line(&self) -> (r: String)
        ensures
            r@ == render(self@) + seq!['\r', '\n'],
    {
        let mut r = self.to_string();
        push_char(&mut r, '\r');
        push_char(&mut r, '\n');
        assert(r@ =~= render(self@) + seq!['\r', '\n']);
        r
    }

    /// A message that is only `c`: no prefix, arguments or trailing part.
    pub fn from_command(c: Command) -> (r: Message)
        ensures
            r@ == (MessageView { prefix: None, command: c@, args: Seq::empty(), suffix: None }),
    {
        let r = Message { prefix: None, command: c, args: Vec::new(), suffix: None };
        assert(r@.args =~= Seq::<Seq<char>>::empty());
        r
    }

    /// Splits a trimmed line into its prefix, the bounds of its command word
    /// and arguments, and its trailing part.
    pub fn split_parts(t: &Vec<char>) -> (r: (Option<String>, usize, usize, Option<String>))
        ensures
            opt_view(r.0) == line_prefix(t@),
            r.1 <= r.2 <= t@.len(),
            t@.subrange(r.1 as int, r.2 as int) == line_words(t@),
            opt_view(r.3) == line_suffix(t@),
    {
        let has_prefix = t.len() > 0 && t[0] == ':';
        let pe: usize = if has_prefix { find_char_exec(t, ' ', 1) } else { 0 };
        proof {
            if has_prefix {
                crate::text::lemma_find_char_bounds(t@, ' ', 1);
            }
        }
        let ts = find_trailing_exec(t, pe);
        let (lo, hi) = trim_bounds(t, pe, ts);
        let prefix = if has_prefix { Some(string_of(t, 1, pe)) } else { None };
        let suffix = if ts < t.len() { Some(string_of(t, ts + 2, t.len())) } else { None };
        (prefix, lo, hi, suffix)
    }

    /// Parses one line (its terminator, if any, is dropped with the blanks).
    pub fn from_str(line: &str) -> (r: Message)
        ensures
            r@ == parse_line(line@),
    {
        let v = chars_of(line);
        let (lo, hi) = trim_bounds(&v, 0, v.len());
        let t = slice_vec(&v, lo, hi);
        assert(v@.subrange(0, v@.len() as int) =~= line@);
        let (prefix, blo, bhi, suffix) = Message::split_parts(&t);
        let mut words = split_on_exec(&t, blo, bhi, ' ');
        proof {
            lemma_split_on_len(t@.subrange(blo as int, bhi as int), ' ');
        }
        let ghost wv = strs_view(words@);
        let first = words.remove(0);
        let command = Command::from_word(&chars_of(first.as_str()));
        let r = Message { prefix, command, args: words, suffix };
        assert(r@.args =~= wv.drop_first());
        r
    }
}

/// No blank characters at all.
pub open spec fn no_ws(s: Seq<char>) -> bool {
    forall|i: int| 0 <= i < s.len() ==> !is_ws(#[trigger] s[i])
}

/// A command word or argument that reads back as itself: non-empty, without
/// blanks, and not starting with `:`.
pub open spec fn plain_word(s: Seq<char>) -> bool {
    s.len() > 0 && no_ws(s) && s[0] != ':'
}

/// A message that a line holds without loss: a prefix without blanks; a
/// command whose word is plain (a numeric below 1000, an unknown word that
/// names no other command); plain arguments; a trailing part that does not
/// end in a blank.
pub open spec fn writable(m: MessageView) -> bool {
    &&& m.prefix matches Some(p) ==> no_ws(p)
    &&& plain_word(command_text(m.command))
    &&& m.command matches CommandView::Numeric(n) ==> n <= 999
    &&& m.command matches CommandView::Unknown(w) ==> command_of_word(w) == m.command
    &&& forall|i: int| 0 <= i < m.args.len() ==> plain_word(#[trigger] m.args[i])
    &&& m.suffix matches Some(s) ==> s.len() == 0 || !is_ws(s.last())
}

proof fn lemma_digit(d: nat)
    requires
        d < 10,
    ensures
        is_digit(digit_char(d)),
        digit_value(digit_char(d)) == d,
{
}

proof fn lemma_command_word(c: CommandView)
    requires
        c matches CommandView::Numeric(n) ==> n <= 999,
        c matches CommandView::Unknown(w) ==> command_of_word(w) == c,
    ensures
        command_of_word(command_text(c)) == c,
{
    reveal_strlit("NICK");
    reveal_strlit("USER");
    reveal_strlit("JOIN");
    reveal_strlit("PART");
    reveal_strlit("QUIT");
    reveal_strlit("PING");
    reveal_strlit("MODE");
    reveal_strlit("PONG");
    reveal_strlit("PASS");
    reveal_strlit("PRIVMSG");
    reveal_strlit("TOPIC");
    assert("NICK"@.len() == 4 && "NICK"@[0] == 'N' && "NICK"@[1] == 'I' && "NICK"@[2] == 'C');
    assert("USER"@.len() == 4 && "USER"@[0] == 'U' && "USER"@[1] == 'S' && "USER"@[2] == 'E');
    assert("JOIN"@.len() == 4 && "JOIN"@[0] == 'J' && "JOIN"@[1] == 'O' && "JOIN"@[2] == 'I');
    assert("PART"@.len() == 4 && "PART"@[0] == 'P' && "PART"@[1] == 'A' && "PART"@[2] == 'R');
    assert("QUIT"@.len() == 4 && "QUIT"@[0] == 'Q' && "QUIT"@[1] == 'U' && "QUIT"@[2] == 'I');
    assert("PING"@.len() == 4 && "PING"@[0] == 'P' && "PING"@[1] == 'I' && "PING"@[2] == 'N');
    assert("MODE"@.len() == 4 && "MODE"@[0] == 'M' && "MODE"@[1] == 'O' && "MODE"@[2] == 'D');
    assert("PONG"@.len() == 4 && "PONG"@[0] == 'P' && "PONG"@[1] == 'O' && "PONG"@[2] == 'N');
    assert("PASS"@.len() == 4 && "PASS"@[0] == 'P' && "PASS"@[1] == 'A' && "PASS"@[2] == 'S');
    assert("PRIVMSG"@.len() == 7 && "PRIVMSG"@[0] == 'P' && "PRIVMSG"@[1] == 'R' && "PRIVMSG"@[2] == 'I');
    assert("TOPIC"@.len() == 5 && "TOPIC"@[0] == 'T' && "TOPIC"@[1] == 'O' && "TOPIC"@[2] == 'P');
    match c {
        CommandView::Nick => {},
        CommandView::User => assert(command_of_word("USER"@) == c),
        CommandView::Join => assert(command_of_word("JOIN"@) == c),
        CommandView::Part => assert(command_of_word("PART"@) == c),
        CommandView::Quit => assert(command_of_word("QUIT"@) == c),
        CommandView::Ping => assert(command_of_word("PING"@) == c),
        CommandView::Mode => assert(command_of_word("MODE"@) == c),
        CommandView::Pong => assert(command_of_word("PONG"@) == c),
        CommandView::Pass => assert(command_of_word("PASS"@) == c),
        CommandView::Privmsg => assert(command_of_word("PRIVMSG"@) == c),
        CommandView::Topic => assert(command_of_word("TOPIC"@) == c),
        _ => {},
    }
    if let CommandView::Numeric(n) = c {
        let w = numeric_text(n);
        let a = (n / 100) as nat;
        let b = ((n / 10) % 10) as nat;
        let d = (n % 10) as nat;
        lemma_digit(a);
        lemma_digit(b);
        lemma_digit(d);
        if n < 10 {
            assert(w =~= seq![digit_char(0), digit_char(0), digit_char(d)]);
        } else if n < 100 {
            assert(decimal((n / 10) as nat) == seq![digit_char(b)]);
            assert(w =~= seq![digit_char(0), digit_char(b), digit_char(d)]);
        } else {
            assert(decimal((n / 100) as nat) == seq![digit_char(a)]);
            assert(decimal((n / 10) as nat) == seq![digit_char(a)].push(digit_char(b)));
            assert(w =~= seq![digit_char(a), digit_char(b), digit_char(d)]);
        }
        lemma_digit(0);
        assert(is_numeric_word(w));
        assert(numeric_value(w) == n);
        assert(w.len() == 3);
        assert(command_of_word(w) == c);
    }
}

proof fn lemma_split_plain(w: Seq<char>)
    requires
        no_ws(w),
    ensures
        split_words(w) == seq![w],
    decreases w.len(),
{
    if w.len() > 0 {
        lemma_split_plain(w.drop_last());
        assert(w.drop_last().push(w.last()) =~= w);
        assert(seq![w.drop_last()].update(0, w.drop_last().push(w.last())) =~= seq![w]);
    } else {
        assert(w =~= Seq::<char>::empty());
    }
}

proof fn lemma_split_append(x: Seq<char>, a: Seq<char>)
    requires
        no_ws(a),
    ensures
        split_words(x + seq![' '] + a) == split_words(x).push(a),
    decreases a.len(),
{
    let y = x + seq![' '] + a;
    if a.len() == 0 {
        assert(y.drop_last() =~= x);
        assert(a =~= Seq::<char>::empty());
    } else {
        let a0 = a.drop_last();
        assert(no_ws(a0));
        lemma_split_append(x, a0);
        assert(y.drop_last() =~= x + seq![' '] + a0);
        assert(y.last() == a.last());
        assert(!is_ws(a[a.len() - 1]));
        let w = split_words(x).push(a0);
        assert(a0.push(a.last()) =~= a);
        assert(w.update(w.len() - 1, a0.push(a.last())) =~= split_words(x).push(a));
    }
}

/// The command word followed by its arguments.
pub open spec fn words_text(cmd: Seq<char>, args: Seq<Seq<char>>) -> Seq<char> {
    cmd + join_args(args)
}

proof fn lemma_words(cmd: Seq<char>, args: Seq<Seq<char>>)
    requires
        plain_word(cmd),
        forall|i: int| 0 <= i < args.len() ==> plain_word(#[trigger] args[i]),
    ensures
        split_words(words_text(cmd, args)) == seq![cmd] + args,
        words_text(cmd, args).len() > 0,
        words_text(cmd, args)[0] == cmd[0],
        !is_ws(words_text(cmd, args).last()),
        forall|j: int| 0 <= j < words_text(cmd, args).len() - 1 && #[trigger] words_text(cmd, args)[j] == ' '
            ==> words_text(cmd, args)[j + 1] != ':' && !is_ws(words_text(cmd, args)[j + 1]),
    decreases args.len(),
{
    let t = words_text(cmd, args);
    if args.len() == 0 {
        assert(t =~= cmd);
        lemma_split_plain(cmd);
        assert(seq![cmd] + args =~= seq![cmd]);
    } else {
        let a = args.last();
        let rest = args.drop_last();
        assert forall|i: int| 0 <= i < rest.len() implies plain_word(#[trigger] rest[i]) by {
            assert(rest[i] == args[i]);
        }
        assert(plain_word(args[args.len() - 1]));
        lemma_words(cmd, rest);
        let x = words_text(cmd, rest);
        assert(t =~= x + seq![' '] + a);
        lemma_split_append(x, a);
        assert(seq![cmd] + rest.push(a) =~= seq![cmd] + args);
        assert(rest.push(a) =~= args);
        assert((seq![cmd] + rest).push(a) =~= seq![cmd] + args);
        assert(!is_ws(a[a.len() - 1]));
        assert forall|j: int| 0 <= j < t.len() - 1 && #[trigger] t[j] == ' ' implies t[j + 1] != ':' && !is_ws(t[j + 1]) by {
            if j < x.len() - 1 {
                assert(t[j] == x[j]);
                assert(t[j + 1] == x[j + 1]);
            } else if j == x.len() - 1 {
                assert(t[j] == x.last());
            } else if j == x.len() {
                assert(t[j + 1] == a[0]);
            } else {
                assert(t[j] == a[j - x.len() - 1]);
            }
        }
    }
}

proof fn lemma_find_char_at(s: Seq<char>, c: char, i: int, k: int)
    requires
        0 <= i <= k <= s.len(),
        forall|j: int| i <= j < k ==> s[j] != c,
        k < s.len() ==> s[k] == c,
    ensures
        find_char(s, c, i) == k,
    decreases k - i,
{
    if i < k {
        lemma_find_char_at(s, c, i + 1, k);
    }
}

proof fn lemma_find_trailing_at(s: Seq<char>, i: int, k: int)
    requires
        0 <= i <= k <= s.len(),
        forall|j: int| i <= j < k && j + 1 < s.len() ==> !(#[trigger] s[j] == ' ' && s[j + 1] == ':'),
        k < s.len() ==> k + 1 < s.len() && s[k] == ' ' && s[k + 1] == ':',
        k == s.len() && k > 0 ==> !(s[k - 1] == ' '),
    ensures
        find_trailing(s, i) == k,
    decreases k - i,
{
    if i < k {
        if i + 1 >= s.len() {
            assert(k == s.len());
        } else {
            lemma_find_trailing_at(s, i + 1, k);
        }
    } else if k == s.len() {
    }
}

proof fn lemma_trim_line(r: Seq<char>)
    requires
        r.len() > 0,
        !is_ws(r[0]),
        !is_ws(r.last()),
    ensures
        trim(r + seq!['\r', '\n']) == r,
{
    let line = r + seq!['\r', '\n'];
    assert(line[0] == r[0]);
    assert(skip_ws(line, 0) == 0);
    assert(line[line.len() - 1] == '\n');
    assert(line[line.len() - 2] == '\r');
    assert(line[line.len() - 3] == r.last());
    assert(back_ws(line, line.len() as int - 2) == r.len());
    assert(back_ws(line, line.len() as int - 1) == back_ws(line, line.len() as int - 2));
    assert(back_ws(line, line.len() as int) == back_ws(line, line.len() as int - 1));
    assert(line.subrange(0, r.len() as int) =~= r);
}

proof fn lemma_prefix_end(t: Seq<char>, p: Seq<char>, rest: Seq<char>)
    requires
        no_ws(p),
        t == seq![':'] + p + seq![' '] + rest,
    ensures
        find_char(t, ' ', 1) == p.len() as int + 1,
        t.subrange(1, p.len() as int + 1) == p,
{
    assert forall|j: int| 1 <= j < p.len() as int + 1 implies t[j] != ' ' by {
        assert(t[j] == p[j - 1]);
    }
    assert(t[p.len() as int + 1] == ' ');
    lemma_find_char_at(t, ' ', 1, p.len() as int + 1);
    assert(t.subrange(1, p.len() as int + 1) =~= p);
}

proof fn lemma_trailing_start(t: Seq<char>, pre: Seq<char>, w: Seq<char>, suf: Seq<char>, pe: int)
    requires
        t == pre + w + suf,
        w.len() > 0,
        w[0] != ':',
        !is_ws(w.last()),
        forall|j: int| 0 <= j < w.len() - 1 && #[trigger] w[j] == ' ' ==> w[j + 1] != ':',
        pre.len() == 0 ==> pe == 0,
        pre.len() > 0 ==> pe == pre.len() - 1 && pre[pe] == ' ',
        suf.len() == 0 || (suf.len() >= 2 && suf[0] == ' ' && suf[1] == ':'),
    ensures
        find_trailing(t, pe) == pre.len() + w.len(),
{
    let o = pre.len() as int;
    let end_w = o + w.len();
    assert forall|j: int| pe <= j < end_w && j + 1 < t.len() implies !(#[trigger] t[j] == ' ' && t[j + 1] == ':') by {
        if j < o {
            assert(t[j + 1] == w[0]);
        } else if j < end_w - 1 {
            assert(t[j] == w[j - o]);
            assert(t[j + 1] == w[j - o + 1]);
        } else {
            assert(t[j] == w.last());
        }
    }
    if suf.len() > 0 {
        assert(t[end_w] == ' ');
        assert(t[end_w + 1] == ':');
    } else {
        assert(t.len() == end_w);
        assert(t[end_w - 1] == w.last());
    }
    lemma_find_trailing_at(t, pe, end_w);
}

proof fn lemma_trim_words(body: Seq<char>, w: Seq<char>, lead: bool)
    requires
        w.len() > 0,
        !is_ws(w[0]),
        !is_ws(w.last()),
        body == (if lead { seq![' '] + w } else { w }),
    ensures
        trim(body) == w,
{
    if lead {
        assert(skip_ws(body, 0) == skip_ws(body, 1));
        assert(body[1] == w[0]);
        assert(skip_ws(body, 1) == 1);
        assert(body.last() == w.last());
        assert(body.subrange(1, body.len() as int) =~= w);
    } else {
        assert(skip_ws(body, 0) == 0);
        assert(body.subrange(0, body.len() as int) =~= w);
    }
    assert(back_ws(body, body.len() as int) == body.len());
}

/// Writing a message as a line and reading the line back gives the message.
pub proof fn lemma_round_trip(m: MessageView)
    requires
        writable(m),
    ensures
        parse_line(render(m) + seq!['\r', '\n']) == m,
{
    let cmd = command_text(m.command);
    let w = words_text(cmd, m.args);
    lemma_words(cmd, m.args);
    lemma_command_word(m.command);
    let pre = render_prefix(m.prefix);
    let suf = render_suffix(m.suffix);
    let r = render(m);
    assert(r =~= pre + w + suf);
    assert(r[0] == if m.prefix is Some { ':' } else { w[0] });
    assert(!is_ws(r.last())) by {
        if let Some(sx) = m.suffix {
            if sx.len() == 0 {
                assert(r.last() == ':');
            } else {
                assert(r.last() == sx.last());
            }
        } else {
            assert(r.last() == w.last());
        }
    }
    lemma_trim_line(r);
    let t = r;
    let has_prefix = t.len() > 0 && t[0] == ':';
    assert(has_prefix == m.prefix is Some);
    let pe = prefix_end(t);
    if let Some(p) = m.prefix {
        assert(t =~= seq![':'] + p + seq![' '] + (w + suf));
        lemma_prefix_end(t, p, w + suf);
        assert(pe == pre.len() - 1);
        assert(pre[pe] == ' ');
    }
    lemma_trailing_start(t, pre, w, suf, pe);
    let ts = find_trailing(t, pe);
    if let Some(sx) = m.suffix {
        assert(t.subrange(ts + 2, t.len() as int) =~= sx);
    }
    let body = t.subrange(pe, ts);
    assert(body =~= (if m.prefix is Some { seq![' '] + w } else { w }));
    lemma_trim_words(body, w, m.prefix is Some);
    let words = split_words(trim(body));
    assert(words == seq![cmd] + m.args);
    assert(words[0] == cmd);
    assert(words.drop_first() =~= m.args);
}

} // verus!
