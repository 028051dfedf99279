use pto::protocol::{Command, Message};

#[test]
fn classic_irc_session() {
    let msg = Message::from_str("USER nick 0 * hostname");
    assert_eq!(msg.prefix, None);
    assert_eq!(msg.command, Command::User);
    assert_eq!(msg.args, &["nick", "0", "*", "hostname"]);
    assert_eq!(msg.suffix, None);

    let msg = Message::from_str("NICK nick");
    assert_eq!(msg.prefix, None);
    assert_eq!(msg.command, Command::Nick);
    assert_eq!(msg.args, &["nick"]);
    assert_eq!(msg.suffix, None);

    let msg = Message::from_str(":nick!nick@hostname JOIN #foo");
    assert_eq!(msg.prefix, Some("nick!nick@hostname".to_owned()));
    assert_eq!(msg.command, Command::Join);
    assert_eq!(msg.args, &["#foo"]);
    assert_eq!(msg.suffix, None);

    let msg = Message::from_str(":nick!nick@hostname PRIVMSG #foo :Hello World!");
    assert_eq!(msg.prefix, Some("nick!nick@hostname".to_owned()));
    assert_eq!(msg.command, Command::Privmsg);
    assert_eq!(msg.args, &["#foo"]);
    assert_eq!(msg.suffix, Some("Hello World!".to_owned()));

    let msg = Message::from_str(":nick!nick@hostname QUIT :Goodbye!");
    assert_eq!(msg.prefix, Some("nick!nick@hostname".to_owned()));
    assert_eq!(msg.command, Command::Quit);
    assert!(msg.args.len() == 0);
    assert_eq!(msg.suffix, Some("Goodbye!".to_owned()));
}

#[test]
fn weird_cases() {
    let msg = Message::from_str("USER nick:name 0 * hostname");
    assert_eq!(msg.prefix, None);
    assert_eq!(msg.command, Command::User);
    assert_eq!(msg.args, &["nick:name", "0", "*", "hostname"]);
    assert_eq!(msg.suffix, None);

    let msg = Message::from_str("USER  nick  0  *  hostname");
    assert_eq!(msg.prefix, None);
    assert_eq!(msg.command, Command::User);
    assert_eq!(msg.args, &["", "nick", "", "0", "", "*", "", "hostname"]);
    assert_eq!(msg.suffix, None);
}

#[test]
fn utf8_messages() {
    let msg = Message::from_str(":nick!nick@hostname PRIVMSG #foo :Some utf8 fun éèàåöþœðßä");
    assert_eq!(msg.prefix, Some("nick!nick@hostname".to_owned()));
    assert_eq!(msg.command, Command::Privmsg);
    assert_eq!(msg.args, &["#foo"]);
    assert_eq!(msg.suffix, Some("Some utf8 fun éèàåöþœðßä".to_owned()));

    let msg = Message::from_str(":nick!nick@hostname PRIVMSG #héhé :In a chan with utf8 in its name!");
    assert_eq!(msg.prefix, Some("nick!nick@hostname".to_owned()));
    assert_eq!(msg.command, Command::Privmsg);
    assert_eq!(msg.args, &["#héhé"]);
    assert_eq!(msg.suffix, Some("In a chan with utf8 in its name!".to_owned()));
}

fn msg(prefix: Option<&str>, command: Command, args: &[&str], suffix: Option<&str>) -> Message {
    Message {
        prefix: prefix.map(|p| p.to_string()),
        command,
        args: args.iter().map(|a| a.to_string()).collect(),
        suffix: suffix.map(|s| s.to_string()),
    }
}

#[test]
fn serialises_prefix_args_and_trailing() {
    let m = msg(Some("pto"), Command::Numeric(353), &["alice", "@", "#general:example.org"], Some("alice bob carol"));
    assert_eq!(m.to_string(), ":pto 353 alice @ #general:example.org :alice bob carol");
    assert_eq!(m.to_line(), ":pto 353 alice @ #general:example.org :alice bob carol\r\n");
}

#[test]
fn numeric_codes_are_three_digits() {
    assert_eq!(Command::Numeric(1).as_string(), "001");
    assert_eq!(Command::Numeric(42).as_string(), "042");
    assert_eq!(Command::Numeric(366).as_string(), "366");
    assert_eq!(Command::Numeric(1000).as_string(), "1000");
    assert_eq!(Message::from_str(":pto 005 alice").command, Command::Numeric(5));
    assert_eq!(Message::from_str("12A x").command, Command::Unknown("12A".to_string()));
}

#[test]
fn round_trip_of_output_lines() {
    let cases = vec![
        msg(Some("alice!alice@example.org"), Command::Join, &["#general:example.org"], None),
        msg(Some("bob!bob@example.org"), Command::Privmsg, &["bob"], Some("hi there")),
        msg(None, Command::Privmsg, &["bob"], Some("")),
        msg(Some("pto"), Command::Numeric(1), &["alice"], Some("Welcome")),
        msg(None, Command::Pong, &[], None),
        msg(None, Command::Unknown("WHO".to_string()), &["x:y"], Some(" :odd")),
    ];
    for m in cases {
        let line = m.to_line();
        assert!(line.ends_with("\r\n"));
        assert_eq!(Message::from_str(&line), m);
    }
}

#[test]
fn trailing_begins_only_after_a_space() {
    let m = Message::from_str("PRIVMSG #a:b :x :y");
    assert_eq!(m.args, &["#a:b"]);
    assert_eq!(m.suffix, Some("x :y".to_string()));
    let m = Message::from_str("PRIVMSG #a  :x");
    assert_eq!(m.args, &["#a"]);
    assert_eq!(m.suffix, Some("x".to_string()));
}

#[test]
fn blank_line_has_empty_command() {
    let m = Message::from_str("   \r\n");
    assert_eq!(m.prefix, None);
    assert_eq!(m.command, Command::Unknown(String::new()));
    assert!(m.args.is_empty());
}
