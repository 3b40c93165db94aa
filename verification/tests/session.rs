use boulder_relay::config::Settings;
use boulder_relay::panels::{line_styles, status_css_class, tag_style, timestamp_prefix};
use boulder_relay::session::{
    message_style, normalized_nick, style_tag, AppState, ConnectionState, Effect, Input, LineStyle,
};

const STAMP: &str = "[12:34] ";

fn fresh() -> AppState {
    AppState::new(&Settings::default())
}

fn run(state: &mut AppState, input: Input) -> Vec<Effect> {
    state.update(input, STAMP)
}

fn history(state: &AppState, channel: &str) -> Vec<String> {
    state
        .chat_histories
        .get(channel)
        .map(|h| h.iter().map(|l| l.text.clone()).collect())
        .unwrap_or_default()
}

fn users(state: &AppState, channel: &str) -> Vec<String> {
    state.channel_users.get(channel).cloned().unwrap_or_default()
}

fn dispatched(effects: &[Effect]) -> Vec<String> {
    effects
        .iter()
        .filter_map(|e| match e {
            Effect::Dispatch(i) => Some(format!("{i:?}")),
            _ => None,
        })
        .collect()
}

#[test]
fn initial_state_lists_server_and_defaults() {
    let s = fresh();
    assert_eq!(s.active_channel, "Server");
    assert_eq!(s.connection, ConnectionState::Offline);
    assert_eq!(s.status, "Offline");
    assert_eq!(s.channels[0], "Server");
    assert_eq!(s.channels.len(), 7);
    assert_eq!(s.favorite_channels, vec!["Server", "#rockylinux", "#rockylinux-devel"]);
    assert_eq!(history(&s, "Server").len(), 5);
    assert_eq!(s.nickname, "SisyphusCode");
    let blank = AppState::new(&Settings {
        nickname: String::new(),
        server: String::new(),
        password: String::new(),
        favorites: vec![],
        ..Settings::default()
    });
    assert_eq!(blank.nickname, "SisyphusCode");
    assert_eq!(blank.server, "irc.libera.chat");
    assert_eq!(
        blank.favorite_channels,
        vec!["Server", "#rockylinux-devel", "#fedora-devel", "#rhel-devel"]
    );
}

#[test]
fn join_lists_and_activates() {
    let mut s = fresh();
    let fx = run(&mut s, Input::JoinChannel(String::from("#archlinux")));
    assert!(s.channels.contains(&String::from("#archlinux")));
    assert_eq!(s.active_channel, "#archlinux");
    assert_eq!(history(&s, "#archlinux"), vec!["[System]: Tracking #archlinux\n"]);
    assert!(matches!(fx[0], Effect::RefreshChannels));
    // Offline: no JOIN is sent.
    assert!(!fx.iter().any(|e| matches!(e, Effect::SendJoin(_))));
    let before = s.channels.len();
    let fx = run(&mut s, Input::JoinChannel(String::from("#archlinux")));
    assert_eq!(s.channels.len(), before);
    assert!(matches!(fx[0], Effect::ShowHistory));
}

#[test]
fn join_sends_join_when_connected() {
    let mut s = fresh();
    run(&mut s, Input::NetworkConnected);
    assert_eq!(s.connection, ConnectionState::Connected);
    assert!(history(&s, "Server")
        .last()
        .unwrap()
        .ends_with("[System]: Connected to irc.libera.chat as SisyphusCode.\n"));
    let fx = run(&mut s, Input::JoinChannel(String::from("#rust")));
    assert!(fx.iter().any(|e| matches!(e, Effect::SendJoin(c) if c == "#rust")));
    let fx = run(&mut s, Input::JoinChannel(String::from("alice")));
    assert!(!fx.iter().any(|e| matches!(e, Effect::SendJoin(_))));
}

#[test]
fn part_forgets_channel() {
    let mut s = fresh();
    run(&mut s, Input::JoinChannel(String::from("#tmp")));
    run(&mut s, Input::UserJoined { channel: String::from("#tmp"), user: String::from("bob") });
    let fx = run(&mut s, Input::PartChannel(String::from("#tmp")));
    assert!(!s.channels.contains(&String::from("#tmp")));
    assert!(s.chat_histories.get("#tmp").is_none());
    assert!(s.channel_users.get("#tmp").is_none());
    assert_eq!(s.active_channel, "Server");
    assert!(matches!(fx[0], Effect::ShowHistory));
    // The server tab and private chats cannot be left.
    assert!(run(&mut s, Input::PartChannel(String::from("Server"))).is_empty());
    assert!(run(&mut s, Input::PartChannel(String::from("alice"))).is_empty());
    assert!(s.channels.contains(&String::from("Server")));
}

#[test]
fn toggle_favorite_twice() {
    let mut s = fresh();
    assert!(!s.favorite_channels.contains(&String::from("#fedora")));
    run(&mut s, Input::ToggleFavorite(String::from("#fedora")));
    assert!(s.favorite_channels.contains(&String::from("#fedora")));
    run(&mut s, Input::ToggleFavorite(String::from("#fedora")));
    assert!(!s.favorite_channels.contains(&String::from("#fedora")));
}

#[test]
fn mute_drops_messages() {
    let mut s = fresh();
    run(&mut s, Input::SelectChannel(String::from("#fedora")));
    let fx = run(&mut s, Input::ToggleMute { channel: String::from("#fedora"), user: String::from("troll") });
    assert_eq!(s.muted_users.get("#fedora").unwrap(), &vec![String::from("troll")]);
    assert!(matches!(&fx[0], Effect::ShowLine { text, .. } if text == "[12:34] [System]: Muted troll\n"));
    assert!(matches!(fx[1], Effect::RefreshUsers));
    let before = history(&s, "#fedora").len();
    let fx = run(&mut s, Input::ReceiveMessage {
        channel: String::from("#fedora"),
        user: String::from("@troll"),
        body: String::from("spam"),
    });
    assert!(fx.is_empty());
    assert_eq!(history(&s, "#fedora").len(), before);
    run(&mut s, Input::ToggleMute { channel: String::from("#fedora"), user: String::from("troll") });
    assert!(s.muted_users.get("#fedora").unwrap().is_empty());
    assert_eq!(history(&s, "#fedora").last().unwrap(), "[12:34] [System]: Unmuted troll\n");
}

#[test]
fn muted_list_is_sorted_without_case() {
    let mut s = fresh();
    for u in ["zed", "Bob", "alice"] {
        run(&mut s, Input::ToggleMute { channel: String::from("#x"), user: String::from(u) });
    }
    assert_eq!(s.muted_users.get("#x").unwrap(), &vec!["alice", "Bob", "zed"]);
}

#[test]
fn messages_and_private_chats() {
    let mut s = fresh();
    run(&mut s, Input::SelectChannel(String::from("#fedora")));
    let fx = run(&mut s, Input::ReceiveMessage {
        channel: String::from("#fedora"),
        user: String::from("ann"),
        body: String::from("hi SisyphusCode"),
    });
    assert!(matches!(&fx[0], Effect::ShowLine { text, style: LineStyle::Mention } if text == "[12:34] <ann> hi SisyphusCode\n"));
    let fx = run(&mut s, Input::ReceiveMessage {
        channel: String::from("carol"),
        user: String::from("carol"),
        body: String::from("psst"),
    });
    assert!(matches!(fx[0], Effect::RefreshChannels));
    assert!(s.channels.contains(&String::from("carol")));
    assert_eq!(history(&s, "carol"), vec!["[12:34] <carol> psst\n"]);
    // An unlisted channel is not listed by a message.
    run(&mut s, Input::ReceiveMessage {
        channel: String::from("#other"),
        user: String::from("dan"),
        body: String::from("x"),
    });
    assert!(!s.channels.contains(&String::from("#other")));
}

#[test]
fn user_lists() {
    let mut s = fresh();
    run(&mut s, Input::SelectChannel(String::from("#rhel-devel")));
    let fx = run(&mut s, Input::BatchAddUsers {
        channel: String::from("#rhel-devel"),
        users: vec![String::from("@zoe"), String::from("Amy"), String::from("bo"), String::from("Amy")],
    });
    assert!(matches!(fx[0], Effect::RefreshUsers));
    assert_eq!(users(&s, "#rhel-devel"), vec!["@zoe", "Amy", "bo"]);
    run(&mut s, Input::UserJoined { channel: String::from("#rhel-devel"), user: String::from("carl") });
    assert_eq!(users(&s, "#rhel-devel"), vec!["@zoe", "Amy", "bo", "carl"]);
    run(&mut s, Input::UserLeft { channel: String::from("#rhel-devel"), user: String::from("bo") });
    assert_eq!(users(&s, "#rhel-devel"), vec!["@zoe", "Amy", "carl"]);
    run(&mut s, Input::UserJoined { channel: String::from("#fedora"), user: String::from("Amy") });
    let fx = run(&mut s, Input::UserQuit { user: String::from("Amy") });
    assert!(matches!(fx[0], Effect::RefreshUsers));
    assert_eq!(users(&s, "#rhel-devel"), vec!["@zoe", "carl"]);
    assert!(users(&s, "#fedora").is_empty());
    let rows = s.user_rows();
    assert_eq!(rows.len(), 2);
    assert_eq!(rows[0].label, "@zoe");
    assert_eq!(rows[0].nick, "zoe");
    assert!(!rows[0].muted);
}

#[test]
fn connect_and_disconnect() {
    let mut s = fresh();
    let fx = run(&mut s, Input::Connect);
    assert_eq!(s.connection, ConnectionState::Connecting);
    assert_eq!(s.status, "Connecting...");
    assert!(matches!(fx[0], Effect::PersistSettings));
    match &fx[1] {
        Effect::StartConnection { nickname, server, password, channels } => {
            assert_eq!(nickname, "SisyphusCode");
            assert_eq!(server, "irc.libera.chat");
            assert_eq!(password, "");
            assert_eq!(channels.len(), 6);
            assert!(!channels.contains(&String::from("Server")));
        }
        other => panic!("unexpected {other:?}"),
    }
    assert!(run(&mut s, Input::Connect).is_empty());
    run(&mut s, Input::NetworkConnected);
    let fx = run(&mut s, Input::Disconnect);
    assert!(matches!(&fx[0], Effect::SendQuit(m) if m == "Boulder Relay signing off"));
    assert_eq!(s.connection, ConnectionState::Offline);
    assert!(!s.has_link);
    assert!(run(&mut s, Input::Disconnect).is_empty());
}

#[test]
fn network_status_reports() {
    let mut s = fresh();
    run(&mut s, Input::NetworkConnected);
    let fx = run(&mut s, Input::NetworkStatus(String::from("NickServ auth failed: x")));
    assert!(fx.is_empty());
    assert_eq!(s.connection, ConnectionState::Connected);
    let fx = run(&mut s, Input::NetworkStatus(String::from("Connection failed: refused")));
    assert!(matches!(fx[0], Effect::DropLink));
    assert_eq!(s.connection, ConnectionState::Offline);
    assert_eq!(s.status, "Connection failed: refused");
}

#[test]
fn slash_commands() {
    let mut s = fresh();
    let fx = run(&mut s, Input::SendMessage(String::from("  /join fedora-devel ")));
    assert_eq!(dispatched(&fx), vec![r##"JoinChannel("#fedora-devel")"##]);
    let fx = run(&mut s, Input::SendMessage(String::from("/j #rust")));
    assert_eq!(dispatched(&fx), vec![r##"JoinChannel("#rust")"##]);
    let fx = run(&mut s, Input::SendMessage(String::from("/msg bob")));
    assert_eq!(dispatched(&fx), vec![r#"JoinChannel("bob")"#]);
    // Offline /msg with a body does nothing.
    assert!(run(&mut s, Input::SendMessage(String::from("/msg bob hi there"))).is_empty());
    let fx = run(&mut s, Input::SendMessage(String::from("/part")));
    assert_eq!(dispatched(&fx), vec![r#"PartChannel("Server")"#]);
    let fx = run(&mut s, Input::SendMessage(String::from("/clear")));
    assert_eq!(dispatched(&fx), vec![r#"ClearChannel("Server")"#]);
    run(&mut s, Input::SendMessage(String::from("/nick Neo")));
    assert_eq!(s.nickname, "Neo");
    assert_eq!(
        history(&s, "Server").last().unwrap(),
        "[12:34] [System]: Nickname updated locally to Neo. Reconnect to apply.\n"
    );
    run(&mut s, Input::SendMessage(String::from("/help")));
    assert!(history(&s, "Server").last().unwrap().starts_with("Commands: /join chan"));
    run(&mut s, Input::SendMessage(String::from("/unknown x")));
    assert_eq!(
        history(&s, "Server").last().unwrap(),
        "[12:34] [System]: Select a channel or DM before sending.\n"
    );
}

#[test]
fn plain_messages() {
    let mut s = fresh();
    run(&mut s, Input::SelectChannel(String::from("#fedora")));
    run(&mut s, Input::SendMessage(String::from("hello")));
    assert_eq!(
        history(&s, "#fedora").last().unwrap(),
        "[12:34] [System]: Cannot send message, not connected.\n"
    );
    run(&mut s, Input::NetworkConnected);
    let fx = run(&mut s, Input::SendMessage(String::from(" hello ")));
    match &fx[0] {
        Effect::SendPrivmsgThenEcho { target, body, line } => {
            assert_eq!(target, "#fedora");
            assert_eq!(body, "hello");
            assert_eq!(line, "[12:34] <SisyphusCode> hello\n");
            s.echo_own_message(target, line.clone());
        }
        other => panic!("unexpected {other:?}"),
    }
    assert_eq!(history(&s, "#fedora").last().unwrap(), "[12:34] <SisyphusCode> hello\n");
    let fx = run(&mut s, Input::SendMessage(String::from("/msg bob  hi there")));
    assert!(matches!(&fx[0], Effect::SendPrivmsg { target, body } if target == "bob" && body == " hi there"));
    assert_eq!(history(&s, "bob"), vec!["[12:34] <SisyphusCode>  hi there\n"]);
}

#[test]
fn join_entry_box() {
    let mut s = fresh();
    assert_eq!(dispatched(&run(&mut s, Input::JoinEntry(String::from(" #linux ")))), vec![r##"JoinChannel("#linux")"##]);
    assert_eq!(dispatched(&run(&mut s, Input::JoinEntry(String::from("alice")))), vec![r#"JoinChannel("alice")"#]);
    assert_eq!(dispatched(&run(&mut s, Input::JoinEntry(String::from("/nick x")))), vec![r#"SendMessage("/nick x")"#]);
    assert!(run(&mut s, Input::JoinEntry(String::from("   "))).is_empty());
}

#[test]
fn clear_and_server_messages() {
    let mut s = fresh();
    let fx = run(&mut s, Input::ReceiveServerMessage(String::from("[Notice]: hi")));
    assert!(matches!(&fx[0], Effect::ShowLine { text, style: LineStyle::System } if text == "[12:34] [Notice]: hi\n"));
    let fx = run(&mut s, Input::ClearChannel(String::from("Server")));
    assert!(matches!(fx[0], Effect::ClearView));
    assert!(history(&s, "Server").is_empty());
}

#[test]
fn settings_fields_and_snapshot() {
    let mut s = fresh();
    run(&mut s, Input::UpdateNickname(String::from("n")));
    run(&mut s, Input::UpdateServer(String::from("srv")));
    run(&mut s, Input::UpdatePassword(String::from("pw")));
    let fx = run(&mut s, Input::SaveSettings);
    assert!(matches!(fx[0], Effect::PersistSettings));
    let snap = s.settings_snapshot();
    assert_eq!(snap.nickname, "n");
    assert_eq!(snap.server, "srv");
    assert_eq!(snap.password, "pw");
    assert_eq!(snap.favorites, s.favorite_channels);
    assert_eq!(s.status_label(), "Status: Offline");
    assert_eq!(s.context_label(), "Active Context: Server");
}

#[test]
fn message_styles() {
    assert_eq!(message_style("Me", "System", "x"), LineStyle::System);
    assert_eq!(message_style("Me", "@me", "x"), LineStyle::SelfMsg);
    assert_eq!(message_style("Me", "you", "hey Me!"), LineStyle::Mention);
    assert_eq!(message_style("Me", "you", "hey me"), LineStyle::Normal);
    assert_eq!(normalized_nick("@+%~&nick"), "nick");
    assert_eq!(normalized_nick("ni@ck"), "ni@ck");
    assert_eq!(style_tag(LineStyle::SelfMsg), "self-msg");
    assert_eq!(style_tag(LineStyle::Mention), "mention");
}

#[test]
fn channel_sections_grouped() {
    let mut s = fresh();
    run(&mut s, Input::JoinChannel(String::from("#zeta")));
    run(&mut s, Input::JoinChannel(String::from("#Alpha")));
    run(&mut s, Input::JoinChannel(String::from("bob")));
    let sections = s.channel_sections();
    let labels: Vec<_> = sections.iter().map(|x| x.label.clone()).collect();
    assert_eq!(labels, vec!["★ Favorites", "Rocky Linux", "Fedora & RHEL", "Other"]);
    assert_eq!(sections[0].channels, vec!["Server", "#rockylinux", "#rockylinux-devel"]);
    assert_eq!(sections[1].channels, vec!["#rockylinux-social"]);
    assert_eq!(sections[2].channels, vec!["#fedora", "#fedora-devel", "#rhel-devel"]);
    assert_eq!(sections[3].channels, vec!["#Alpha", "#zeta", "bob"]);
    let row = s.channel_row("#rockylinux");
    assert!(row.is_favorite);
    assert_eq!(row.favorite_icon, "★");
    assert_eq!(row.favorite_tooltip, "Remove from favorites");
    assert_eq!(row.tooltip, Some("General Rocky Linux support and discussion"));
    assert_eq!(row.css_class, Some("channel-rocky"));
    assert!(row.can_part);
    let row = s.channel_row("bob");
    assert!(!row.is_favorite);
    assert_eq!(row.favorite_icon, "☆");
    assert_eq!(row.tooltip, None);
    assert!(!row.can_part);
}

#[test]
fn time_prefix_and_styles() {
    assert_eq!(timestamp_prefix(Some((9, 5))), "[09:05] ");
    assert_eq!(timestamp_prefix(Some((23, 59))), "[23:59] ");
    assert_eq!(timestamp_prefix(None), "[??:??] ");
    assert_eq!(status_css_class(ConnectionState::Connecting), "status-connecting");
    let styles = line_styles();
    assert_eq!(styles.len(), 4);
    let mention = tag_style(LineStyle::Mention);
    assert_eq!(mention.foreground, "#fe8019");
    assert_eq!(mention.background, Some("#3c3836"));
    assert_eq!(tag_style(LineStyle::Normal).background, None);
}

const DEFAULTS: [&str; 6] = [
    "#rockylinux",
    "#rockylinux-devel",
    "#rockylinux-social",
    "#fedora",
    "#fedora-devel",
    "#rhel-devel",
];

#[test]
fn custom_channels_are_remembered_between_sessions() {
    let mut s = fresh();
    run(&mut s, Input::JoinChannel(String::from("#archlinux")));
    assert_eq!(s.extra_channels(), vec!["#archlinux"]);
    let saved = s.settings_snapshot();
    assert_eq!(saved.extra_channels, vec!["#archlinux"]);
    assert_eq!(saved.last_channel, "#archlinux");
    let file = saved.to_config();
    let next = AppState::new(&Settings::from_config(&file));
    let mut expected = vec!["Server"];
    expected.extend(DEFAULTS);
    expected.push("#archlinux");
    assert_eq!(next.channels, expected);
    assert_eq!(next.channels.iter().filter(|c| *c == "#archlinux").count(), 1);
    assert_eq!(next.active_channel, "#archlinux");
}

#[test]
fn restart_lists_saved_channels_once_and_checks_last_channel() {
    let settings = Settings {
        extra_channels: vec![
            String::from("#fedora"),
            String::from("#gentoo"),
            String::from("#gentoo"),
            String::from("Server"),
            String::from("bob"),
        ],
        last_channel: String::from("#nowhere"),
        ..Settings::default()
    };
    let s = AppState::new(&settings);
    let mut expected = vec!["Server"];
    expected.extend(DEFAULTS);
    expected.push("#gentoo");
    expected.push("bob");
    assert_eq!(s.channels, expected);
    assert_eq!(s.active_channel, "Server");
    let dm = AppState::new(&Settings { last_channel: String::from("bob"), ..settings.clone() });
    assert_eq!(dm.active_channel, "bob");
    let blank = AppState::new(&Settings { last_channel: String::new(), ..settings });
    assert_eq!(blank.active_channel, "Server");
}

#[test]
fn extra_channels_skip_server_and_defaults() {
    let mut s = fresh();
    run(&mut s, Input::JoinChannel(String::from("#zeta")));
    run(&mut s, Input::JoinChannel(String::from("alice")));
    run(&mut s, Input::PartChannel(String::from("#fedora")));
    run(&mut s, Input::JoinChannel(String::from("#alpha")));
    assert_eq!(s.extra_channels(), vec!["#zeta", "alice", "#alpha"]);
    let saved = s.settings_snapshot();
    assert_eq!(saved.last_channel, "#alpha");
    assert_eq!(saved.favorites, s.favorite_channels);
    // A parted default channel is listed again at the next start.
    let next = AppState::new(&Settings::from_config(&saved.to_config()));
    assert!(next.channels.contains(&String::from("#fedora")));
    assert_eq!(&next.channels[7..], ["#zeta", "alice", "#alpha"]);
}

#[test]
fn user_lists_stay_sorted_without_repeats() {
    let mut s = fresh();
    let ch = String::from("#fedora");
    run(&mut s, Input::BatchAddUsers {
        channel: ch.clone(),
        users: vec![String::from("dave"), String::from("Bob"), String::from("alice")],
    });
    assert_eq!(users(&s, "#fedora"), vec!["alice", "Bob", "dave"]);
    run(&mut s, Input::BatchAddUsers {
        channel: ch.clone(),
        users: vec![String::from("Carol"), String::from("alice"), String::from("Carol")],
    });
    assert_eq!(users(&s, "#fedora"), vec!["alice", "Bob", "Carol", "dave"]);
    run(&mut s, Input::UserJoined { channel: ch.clone(), user: String::from("bob") });
    assert_eq!(users(&s, "#fedora"), vec!["alice", "Bob", "bob", "Carol", "dave"]);
    run(&mut s, Input::UserJoined { channel: ch.clone(), user: String::from("Carol") });
    assert_eq!(users(&s, "#fedora"), vec!["alice", "Bob", "bob", "Carol", "dave"]);
}
