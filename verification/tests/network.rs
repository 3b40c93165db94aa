use boulder_relay::network::{
    connect_failed, connection_closed, connection_plan, identify_failed, stream_error, IrcEvent,
    LinkSession, NetAction, ServerReply,
};

fn session(password: &str) -> LinkSession {
    LinkSession::new(
        String::from("Me"),
        password,
        vec![String::from("#fedora"), String::from("#rust")],
    )
}

fn describe(actions: &[NetAction]) -> Vec<String> {
    actions
        .iter()
        .map(|a| match a {
            NetAction::Deliver(i) => format!("{i:?}"),
            NetAction::SendJoin(c) => format!("JOIN {c}"),
        })
        .collect()
}

fn reply(code: ServerReply, name: &str, args: &[&str]) -> IrcEvent {
    IrcEvent::Response {
        code,
        name: String::from(name),
        args: args.iter().map(|a| a.to_string()).collect(),
    }
}

#[test]
fn connection_plan_uses_tls_and_nickserv() {
    let p = connection_plan("Me", "irc.libera.chat", "");
    assert_eq!(p.port, 6697);
    assert!(p.use_tls);
    assert_eq!(p.nick_password, None);
    let p = connection_plan("Me", "irc.libera.chat", "pw");
    assert_eq!(p.nick_password, Some(String::from("pw")));
}

#[test]
fn private_messages_go_to_sender() {
    let mut s = session("");
    let a = s.on_message(
        Some(String::from("bob")),
        IrcEvent::Privmsg { target: String::from("Me"), body: String::from("hi") },
    );
    assert_eq!(describe(&a), vec![r#"ReceiveMessage { channel: "bob", user: "bob", body: "hi" }"#]);
    let a = s.on_message(
        None,
        IrcEvent::Privmsg { target: String::from("#fedora"), body: String::from("yo") },
    );
    assert_eq!(
        describe(&a),
        vec![r##"ReceiveMessage { channel: "#fedora", user: "Unknown", body: "yo" }"##]
    );
}

#[test]
fn joins_parts_and_quits() {
    let mut s = session("");
    let a = s.on_message(Some(String::from("amy")), IrcEvent::Join { channel: String::from("#rust") });
    assert_eq!(
        describe(&a),
        vec![
            r##"UserJoined { channel: "#rust", user: "amy" }"##,
            r##"ReceiveMessage { channel: "#rust", user: "System", body: "amy joined." }"##
        ]
    );
    let a = s.on_message(Some(String::from("amy")), IrcEvent::Part { channel: String::from("#rust") });
    assert_eq!(describe(&a)[1], r##"ReceiveMessage { channel: "#rust", user: "System", body: "amy left." }"##);
    let a = s.on_message(Some(String::from("amy")), IrcEvent::Quit);
    assert_eq!(describe(&a), vec![r#"UserQuit { user: "amy" }"#]);
    assert!(s.on_message(None, IrcEvent::Other).is_empty());
}

#[test]
fn joins_after_motd_without_password_once() {
    let mut s = session("");
    let a = s.on_message(None, reply(ServerReply::EndOfMotd, "RPL_ENDOFMOTD", &["Me"]));
    assert_eq!(
        describe(&a),
        vec![
            "JOIN #fedora",
            "JOIN #rust",
            r#"ReceiveServerMessage("[System]: Joining 2 channel(s).")"#
        ]
    );
    assert!(s.channels_joined);
    let a = s.on_message(None, reply(ServerReply::NoMotd, "ERR_NOMOTD", &["Me"]));
    assert!(a.is_empty());
}

#[test]
fn with_password_joins_after_identification() {
    let mut s = session("pw");
    let a = s.on_message(None, reply(ServerReply::EndOfMotd, "RPL_ENDOFMOTD", &["Me"]));
    assert!(a.is_empty());
    assert!(!s.channels_joined);
    let a = s.on_message(
        None,
        IrcEvent::Notice { body: String::from("You are now identified for Me.") },
    );
    assert_eq!(
        describe(&a),
        vec![
            r#"ReceiveServerMessage("[Notice]: You are now identified for Me.")"#,
            "JOIN #fedora",
            "JOIN #rust",
            r#"ReceiveServerMessage("[System]: Joining 2 channel(s).")"#
        ]
    );
    let mut t = session("pw");
    let a = t.on_message(None, reply(ServerReply::LoggedIn, "RPL_LOGGEDIN", &["Me"]));
    assert_eq!(a.len(), 3);
}

#[test]
fn names_replies_and_other_numerics() {
    let mut s = session("");
    s.channels_joined = true;
    let a = s.on_message(
        None,
        reply(ServerReply::NamReply, "RPL_NAMREPLY", &["Me", "=", "#rust", "@amy  bob +cy"]),
    );
    assert_eq!(
        describe(&a),
        vec![r##"BatchAddUsers { channel: "#rust", users: ["@amy", "bob", "+cy"] }"##]
    );
    let a = s.on_message(
        None,
        reply(ServerReply::NamReply, "RPL_NAMREPLY", &["Me", "=", "chan", "x"]),
    );
    assert_eq!(describe(&a), vec![r#"BatchAddUsers { channel: "chan", users: ["x"] }"#]);
    let a = s.on_message(None, reply(ServerReply::Other, "RPL_WELCOME", &["Me", "Welcome", "to Libera"]));
    assert_eq!(describe(&a), vec![r#"ReceiveServerMessage("[RPL_WELCOME]: Welcome to Libera")"#]);
    assert!(s.on_message(None, reply(ServerReply::Other, "X", &["Me"])).is_empty());
}

#[test]
fn lifecycle_reports() {
    assert_eq!(format!("{:?}", connect_failed("refused")), r#"NetworkStatus("Connection failed: refused")"#);
    assert_eq!(format!("{:?}", identify_failed("x")), r#"NetworkStatus("NickServ auth failed: x")"#);
    assert_eq!(format!("{:?}", stream_error("bad")), r#"ReceiveServerMessage("[Error]: bad")"#);
    let closed = connection_closed();
    assert_eq!(format!("{:?}", closed[0]), r#"NetworkStatus("Disconnected")"#);
    assert_eq!(format!("{:?}", closed[1]), r#"ReceiveServerMessage("[System]: Connection closed.")"#);
}
