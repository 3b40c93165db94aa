//! The state of the chat window and how each user action or network event
//! changes it. `AppState::update` takes one event and returns the effects
//! the window must carry out (draw a line, refresh a list, send to the
//! server, save the settings, queue a further event).
use vstd::prelude::*;
use crate::channel_map::ChannelMap;
use crate::channels::{default_names, names_channel, normalized};
use crate::order::sorted_by_lowercase;
use crate::channels::{is_channel_target, parse_join_command, parse_join_entry, JoinTarget};
use crate::order::sort_by_lowercase;
use crate::text::{
    chars_of, concat, contains_text, eq_ignore_ascii_case, eq_ignoring_ascii_case, find_first,
    lemma_find_first, list_contains, occurs_in, owned, remove_all, same_text, starts_with_char,
    starts_with_text, string_of_range, texts, trim, trimmed, without,
};

verus! {

/// Whether the client is talking to a server.
#[derive(Clone, Copy, Debug, PartialEq, Eq, Structural)]
pub enum ConnectionState {
    Offline,
    Connecting,
    Connected,
}

/// How a chat line is drawn.
#[derive(Clone, Copy, Debug, PartialEq, Eq, Structural)]
pub enum LineStyle {
    Normal,
    SelfMsg,
    System,
    Mention,
}

/// One line of a channel's history.
#[derive(Clone, Debug)]
pub struct ChatLine {
    pub text: String,
    pub style: LineStyle,
}

impl DeepView for ChatLine {
    type V = (Seq<char>, LineStyle);

    open spec fn deep_view(&self) -> (Seq<char>, LineStyle) {
        (self.text@, self.style)
    }
}

/// What the window or the network reports to the chat state.
#[derive(Debug, Clone)]
pub enum Input {
    UpdateNickname(String),
    UpdateServer(String),
    UpdatePassword(String),
    Connect,
    Disconnect,
    NetworkStatus(String),
    NetworkConnected,
    SelectChannel(String),
    JoinChannel(String),
    PartChannel(String),
    ClearChannel(String),
    ToggleFavorite(String),
    ToggleMute { channel: String, user: String },
    ReceiveMessage { channel: String, user: String, body: String },
    ReceiveServerMessage(String),
    BatchAddUsers { channel: String, users: Vec<String> },
    UserJoined { channel: String, user: String },
    UserLeft { channel: String, user: String },
    UserQuit { user: String },
    SendMessage(String),
    JoinEntry(String),
    SaveSettings,
}

/// An `Input` with its strings taken as texts.
pub enum InputView {
    UpdateNickname(Seq<char>),
    UpdateServer(Seq<char>),
    UpdatePassword(Seq<char>),
    Connect,
    Disconnect,
    NetworkStatus(Seq<char>),
    NetworkConnected,
    SelectChannel(Seq<char>),
    JoinChannel(Seq<char>),
    PartChannel(Seq<char>),
    ClearChannel(Seq<char>),
    ToggleFavorite(Seq<char>),
    ToggleMute { channel: Seq<char>, user: Seq<char> },
    ReceiveMessage { channel: Seq<char>, user: Seq<char>, body: Seq<char> },
    ReceiveServerMessage(Seq<char>),
    BatchAddUsers { channel: Seq<char>, users: Seq<Seq<char>> },
    UserJoined { channel: Seq<char>, user: Seq<char> },
    UserLeft { channel: Seq<char>, user: Seq<char> },
    UserQuit { user: Seq<char> },
    SendMessage(Seq<char>),
    JoinEntry(Seq<char>),
    SaveSettings,
}

impl View for Input {
    type V = InputView;

    open spec fn view(&self) -> InputView {
        match self {
            Input::UpdateNickname(s) => InputView::UpdateNickname(s@),
            Input::UpdateServer(s) => InputView::UpdateServer(s@),
            Input::UpdatePassword(s) => InputView::UpdatePassword(s@),
            Input::Connect => InputView::Connect,
            Input::Disconnect => InputView::Disconnect,
            Input::NetworkStatus(s) => InputView::NetworkStatus(s@),
            Input::NetworkConnected => InputView::NetworkConnected,
            Input::SelectChannel(s) => InputView::SelectChannel(s@),
            Input::JoinChannel(s) => InputView::JoinChannel(s@),
            Input::PartChannel(s) => InputView::PartChannel(s@),
            Input::ClearChannel(s) => InputView::ClearChannel(s@),
            Input::ToggleFavorite(s) => InputView::ToggleFavorite(s@),
            Input::ToggleMute { channel, user } => InputView::ToggleMute {
                channel: channel@,
                user: user@,
            },
            Input::ReceiveMessage { channel, user, body } => InputView::ReceiveMessage {
                channel: channel@,
                user: user@,
                body: body@,
            },
            Input::ReceiveServerMessage(s) => InputView::ReceiveServerMessage(s@),
            Input::BatchAddUsers { channel, users } => InputView::BatchAddUsers {
                channel: channel@,
                users: texts(users@),
            },
            Input::UserJoined { channel, user } => InputView::UserJoined {
                channel: channel@,
                user: user@,
            },
            Input::UserLeft { channel, user } => InputView::UserLeft {
                channel: channel@,
                user: user@,
            },
            Input::UserQuit { user } => InputView::UserQuit { user: user@ },
            Input::SendMessage(s) => InputView::SendMessage(s@),
            Input::JoinEntry(s) => InputView::JoinEntry(s@),
            Input::SaveSettings => InputView::SaveSettings,
        }
    }
}

/// What the window must do after an update, in order, against the state as
/// it stands after the update.
#[derive(Debug, Clone)]
pub enum Effect {
    /// Draw one line at the end of the chat view.
    ShowLine { text: String, style: LineStyle },
    /// Redraw the chat view from the active channel's history.
    ShowHistory,
    /// Empty the chat view.
    ClearView,
    /// Rebuild the channel list.
    RefreshChannels,
    /// Rebuild the user list of the active channel.
    RefreshUsers,
    /// Save the settings snapshot.
    PersistSettings,
    /// Send JOIN for a channel.
    SendJoin(String),
    /// Send PART for a channel.
    SendPart(String),
    /// Send QUIT with a message, and let go of the connection.
    SendQuit(String),
    /// Send a message; what the server answers does not matter.
    SendPrivmsg { target: String, body: String },
    /// Send a message; when the send succeeds, record `line` as our own.
    SendPrivmsgThenEcho { target: String, body: String, line: String },
    /// Open a connection with these details and, once logged in, join these
    /// channels.
    StartConnection { nickname: String, server: String, password: String, channels: Vec<String> },
    /// Let go of the connection.
    DropLink,
    /// Queue a further event.
    Dispatch(Input),
}

/// An `Effect` with its strings taken as texts.
pub enum EffectView {
    ShowLine { text: Seq<char>, style: LineStyle },
    ShowHistory,
    ClearView,
    RefreshChannels,
    RefreshUsers,
    PersistSettings,
    SendJoin(Seq<char>),
    SendPart(Seq<char>),
    SendQuit(Seq<char>),
    SendPrivmsg { target: Seq<char>, body: Seq<char> },
    SendPrivmsgThenEcho { target: Seq<char>, body: Seq<char>, line: Seq<char> },
    StartConnection {
        nickname: Seq<char>,
        server: Seq<char>,
        password: Seq<char>,
        channels: Seq<Seq<char>>,
    },
    DropLink,
    Dispatch(InputView),
}

impl View for Effect {
    type V = EffectView;

    open spec fn view(&self) -> EffectView {
        match self {
            Effect::ShowLine { text, style } => EffectView::ShowLine { text: text@, style: *style },
            Effect::ShowHistory => EffectView::ShowHistory,
            Effect::ClearView => EffectView::ClearView,
            Effect::RefreshChannels => EffectView::RefreshChannels,
            Effect::RefreshUsers => EffectView::RefreshUsers,
            Effect::PersistSettings => EffectView::PersistSettings,
            Effect::SendJoin(s) => EffectView::SendJoin(s@),
            Effect::SendPart(s) => EffectView::SendPart(s@),
            Effect::SendQuit(s) => EffectView::SendQuit(s@),
            Effect::SendPrivmsg { target, body } => EffectView::SendPrivmsg {
                target: target@,
                body: body@,
            },
            Effect::SendPrivmsgThenEcho { target, body, line } => EffectView::SendPrivmsgThenEcho {
                target: target@,
                body: body@,
                line: line@,
            },
            Effect::StartConnection { nickname, server, password, channels } =>
                EffectView::StartConnection {
                nickname: nickname@,
                server: server@,
                password: password@,
                channels: texts(channels@),
            },
            Effect::DropLink => EffectView::DropLink,
            Effect::Dispatch(i) => EffectView::Dispatch(i@),
        }
    }
}

/// The views of a list of effects.
pub open spec fn effects_view(e: Seq<Effect>) -> Seq<EffectView> {
    e.map_values(|x: Effect| x@)
}

/// The chat window's state.
pub struct AppState {
    pub connection: ConnectionState,
    /// Whether a connection to the server is held.
    pub has_link: bool,
    pub status: String,
    pub active_channel: String,
    pub channels: Vec<String>,
    pub favorite_channels: Vec<String>,
    pub muted_users: ChannelMap<Vec<String>>,
    pub chat_histories: ChannelMap<Vec<ChatLine>>,
    pub channel_users: ChannelMap<Vec<String>>,
    pub nickname: String,
    pub server: String,
    pub password: String,
}

/// The chat state with its strings taken as texts and its per-channel data
/// as maps.
#[verifier::ext_equal]
pub struct AppView {
    pub connection: ConnectionState,
    pub has_link: bool,
    pub status: Seq<char>,
    pub active: Seq<char>,
    pub channels: Seq<Seq<char>>,
    pub favorites: Seq<Seq<char>>,
    pub muted: Map<Seq<char>, Seq<Seq<char>>>,
    pub histories: Map<Seq<char>, Seq<(Seq<char>, LineStyle)>>,
    pub users: Map<Seq<char>, Seq<Seq<char>>>,
    pub nickname: Seq<char>,
    pub server: Seq<char>,
    pub password: Seq<char>,
}

impl View for AppState {
    type V = AppView;

    open spec fn view(&self) -> AppView {
        AppView {
            connection: self.connection,
            has_link: self.has_link,
            status: self.status@,
            active: self.active_channel@,
            channels: texts(self.channels@),
            favorites: texts(self.favorite_channels@),
            muted: self.muted_users@,
            histories: self.chat_histories@,
            users: self.channel_users@,
            nickname: self.nickname@,
            server: self.server@,
            password: self.password@,
        }
    }
}

/// The name of the tab that holds server messages.
pub open spec fn server_tab() -> Seq<char> {
    "Server"@
}

/// The state's invariant: the server tab is always listed, and no channel is
/// listed twice.
pub open spec fn app_wf(v: AppView) -> bool {
    &&& v.channels.contains(server_tab())
    &&& v.channels.no_duplicates()
}

impl AppState {
    /// The state's invariant.
    pub open spec fn wf(&self) -> bool {
        app_wf(self@)
    }
}

/// A channel's history, empty when it has none.
pub open spec fn history_of(v: AppView, channel: Seq<char>) -> Seq<(Seq<char>, LineStyle)> {
    if v.histories.contains_key(channel) {
        v.histories[channel]
    } else {
        seq![]
    }
}

/// A channel's list in a per-channel map, empty when it has none.
pub open spec fn list_of(m: Map<Seq<char>, Seq<Seq<char>>>, channel: Seq<char>) -> Seq<Seq<char>> {
    if m.contains_key(channel) {
        m[channel]
    } else {
        seq![]
    }
}

/// Adds a line to a channel's history; it is drawn too when the channel is
/// the active one.
pub open spec fn append_line(v: AppView, channel: Seq<char>, text: Seq<char>, style: LineStyle) -> (
    AppView,
    Seq<EffectView>,
) {
    (
        AppView {
            histories: v.histories.insert(channel, history_of(v, channel).push((text, style))),
            ..v
        },
        if v.active == channel {
            seq![EffectView::ShowLine { text, style }]
        } else {
            seq![]
        },
    )
}

/// Whether a nickname starts with a channel-status mark.
pub open spec fn nick_mark(c: char) -> bool {
    c == '@' || c == '+' || c == '%' || c == '~' || c == '&'
}

/// A nickname without the status marks in front of it.
pub open spec fn stripped_nick(u: Seq<char>) -> Seq<char>
    decreases u.len(),
{
    if u.len() > 0 && nick_mark(u[0]) {
        stripped_nick(u.drop_first())
    } else {
        u
    }
}

/// Whether `user` is muted in `channel`.
pub open spec fn muted_in(v: AppView, channel: Seq<char>, user: Seq<char>) -> bool {
    v.muted.contains_key(channel) && v.muted[channel].contains(stripped_nick(user))
}

/// How a message from `user` is drawn for someone called `nick`: the user
/// "System" draws system lines, our own nickname (ASCII case ignored, status
/// marks dropped) draws our lines, a body that holds our nickname is a mention.
pub open spec fn style_of(nick: Seq<char>, user: Seq<char>, body: Seq<char>) -> LineStyle {
    if user == "System"@ {
        LineStyle::System
    } else if eq_ignoring_ascii_case(stripped_nick(user), nick) {
        LineStyle::SelfMsg
    } else if occurs_in(body, nick) {
        LineStyle::Mention
    } else {
        LineStyle::Normal
    }
}

/// The listed channels that name IRC channels, in order.
pub open spec fn channel_targets(cs: Seq<Seq<char>>) -> Seq<Seq<char>>
    decreases cs.len(),
{
    if cs.len() == 0 {
        cs
    } else if names_channel(cs.last()) {
        channel_targets(cs.drop_last()).push(cs.last())
    } else {
        channel_targets(cs.drop_last())
    }
}

/// `list` with each of `more` appended unless already there.
pub open spec fn add_missing(list: Seq<Seq<char>>, more: Seq<Seq<char>>) -> Seq<Seq<char>>
    decreases more.len(),
{
    if more.len() == 0 {
        list
    } else {
        let l = add_missing(list, more.drop_last());
        if l.contains(more.last()) {
            l
        } else {
            l.push(more.last())
        }
    }
}

/// Whether a text begins with `c`.
pub open spec fn begins_with(s: Seq<char>, c: char) -> bool {
    s.len() > 0 && s[0] == c
}

/// A JOIN for `target` when connected and `target` is a channel.
pub open spec fn join_effects(v: AppView, target: Seq<char>) -> Seq<EffectView> {
    if v.has_link && names_channel(target) {
        seq![EffectView::SendJoin(target)]
    } else {
        seq![]
    }
}

/// The parts of a command line: split at the first two spaces
/// (`splitn(3, ' ')`).
pub open spec fn command_parts(t: Seq<char>) -> Seq<Seq<char>> {
    match find_first(t, ' ') {
        None => seq![t],
        Some(i) => {
            let rest = t.skip(i + 1);
            match find_first(rest, ' ') {
                None => seq![t.take(i), rest],
                Some(j) => seq![t.take(i), rest.take(j), rest.skip(j + 1)],
            }
        },
    }
}

/// The text `/help` shows.
pub open spec fn help_lines() -> Seq<char> {
    "Commands: /join chan, /j chan, /part [#chan], /msg nick text, /clear, /nick name, /help\nJoin box: type #channel to join, or a nick for a DM. Any channel is supported.\n"@
}

/// The state after one event, and the effects it asks for. `stamp` is the
/// time prefix of lines written now.
pub open spec fn step(v: AppView, input: InputView, stamp: Seq<char>) -> (
    AppView,
    Seq<EffectView>,
) {
    match input {
        InputView::UpdateNickname(n) => (AppView { nickname: n, ..v }, seq![]),
        InputView::UpdateServer(s) => (AppView { server: s, ..v }, seq![]),
        InputView::UpdatePassword(p) => (AppView { password: p, ..v }, seq![]),
        InputView::SaveSettings => (v, seq![EffectView::PersistSettings]),
        InputView::Connect => connect_step(v),
        InputView::Disconnect => disconnect_step(v, stamp),
        InputView::NetworkStatus(s) => status_step(v, s),
        InputView::NetworkConnected => append_line(
            AppView {
                has_link: true,
                connection: ConnectionState::Connected,
                status: "Connected"@,
                ..v
            },
            server_tab(),
            stamp + "[System]: Connected to "@ + v.server + " as "@ + v.nickname + ".\n"@,
            LineStyle::System,
        ),
        InputView::SelectChannel(c) => (
            AppView { active: c, ..v },
            seq![EffectView::ShowHistory, EffectView::RefreshUsers, EffectView::PersistSettings],
        ),
        InputView::JoinChannel(t) => join_step(v, t),
        InputView::PartChannel(c) => part_step(v, c),
        InputView::ClearChannel(c) => (
            AppView { histories: v.histories.insert(c, seq![]), ..v },
            if v.active == c {
                seq![EffectView::ClearView]
            } else {
                seq![]
            },
        ),
        InputView::ToggleFavorite(c) => (
            AppView {
                favorites: if v.favorites.contains(c) {
                    without(v.favorites, c)
                } else {
                    v.favorites.push(c)
                },
                ..v
            },
            seq![EffectView::RefreshChannels, EffectView::PersistSettings],
        ),
        InputView::ToggleMute { channel, user } => mute_step(v, channel, user, stamp),
        InputView::ReceiveMessage { channel, user, body } => receive_step(
            v,
            channel,
            user,
            body,
            stamp,
        ),
        InputView::ReceiveServerMessage(b) => append_line(
            v,
            server_tab(),
            stamp + b + "\n"@,
            LineStyle::System,
        ),
        InputView::BatchAddUsers { channel, users } => (
            AppView {
                users: v.users.insert(
                    channel,
                    sorted_by_lowercase(add_missing(list_of(v.users, channel), users)),
                ),
                ..v
            },
            refresh_if_active(v, channel),
        ),
        InputView::UserJoined { channel, user } => (
            AppView {
                users: v.users.insert(
                    channel,
                    if list_of(v.users, channel).contains(user) {
                        list_of(v.users, channel)
                    } else {
                        sorted_by_lowercase(list_of(v.users, channel).push(user))
                    },
                ),
                ..v
            },
            refresh_if_active(v, channel),
        ),
        InputView::UserLeft { channel, user } => (
            AppView {
                users: if v.users.contains_key(channel) {
                    v.users.insert(channel, without(v.users[channel], user))
                } else {
                    v.users
                },
                ..v
            },
            refresh_if_active(v, channel),
        ),
        InputView::UserQuit { user } => (
            AppView {
                users: Map::new(
                    |k: Seq<char>| v.users.contains_key(k),
                    |k: Seq<char>| without(v.users[k], user),
                ),
                ..v
            },
            seq![EffectView::RefreshUsers],
        ),
        InputView::JoinEntry(text) => (v, join_entry_effects(text)),
        InputView::SendMessage(text) => send_step(v, trimmed(text), stamp),
    }
}

/// A refresh of the user list when `channel` is the active one.
pub open spec fn refresh_if_active(v: AppView, channel: Seq<char>) -> Seq<EffectView> {
    if v.active == channel {
        seq![EffectView::RefreshUsers]
    } else {
        seq![]
    }
}

/// Connecting: only when offline; then the settings are saved and a
/// connection is opened that joins every listed channel.
pub open spec fn connect_step(v: AppView) -> (AppView, Seq<EffectView>) {
    if v.connection != ConnectionState::Offline {
        (v, seq![])
    } else {
        (
            AppView { connection: ConnectionState::Connecting, status: "Connecting..."@, ..v },
            seq![
                EffectView::PersistSettings,
                EffectView::StartConnection {
                    nickname: v.nickname,
                    server: v.server,
                    password: v.password,
                    channels: channel_targets(v.channels),
                },
            ],
        )
    }
}

/// Disconnecting: only with a connection; it is let go with a QUIT.
pub open spec fn disconnect_step(v: AppView, stamp: Seq<char>) -> (AppView, Seq<EffectView>) {
    if !v.has_link {
        (v, seq![])
    } else {
        let (w, fx) = append_line(
            AppView {
                has_link: false,
                connection: ConnectionState::Offline,
                status: "Offline"@,
                ..v
            },
            server_tab(),
            stamp + "[System]: Disconnected by user.\n"@,
            LineStyle::System,
        );
        (w, seq![EffectView::SendQuit("Boulder Relay signing off"@)] + fx)
    }
}

/// A status report from the network; "Disconnected" or a failed connection
/// takes the client offline.
pub open spec fn status_step(v: AppView, s: Seq<char>) -> (AppView, Seq<EffectView>) {
    let failed = "Connection failed"@;
    if s == "Disconnected"@ || (failed.len() <= s.len() && s.take(failed.len() as int) == failed) {
        (
            AppView { status: s, connection: ConnectionState::Offline, has_link: false, ..v },
            seq![EffectView::DropLink],
        )
    } else {
        (AppView { status: s, ..v }, seq![])
    }
}

/// Joining: a new target is listed with a first history line; then it is
/// made active.
pub open spec fn join_step(v: AppView, t: Seq<char>) -> (AppView, Seq<EffectView>) {
    let (w, fx) = if !v.channels.contains(t) {
        (
            AppView {
                channels: v.channels.push(t),
                histories: v.histories.insert(
                    t,
                    seq![("[System]: Tracking "@ + t + "\n"@, LineStyle::System)],
                ),
                ..v
            },
            seq![EffectView::RefreshChannels] + join_effects(v, t),
        )
    } else {
        (v, join_effects(v, t))
    };
    (
        AppView { active: t, ..w },
        fx + seq![EffectView::ShowHistory, EffectView::RefreshUsers, EffectView::PersistSettings],
    )
}

/// Leaving a channel: never the server tab, only names that begin with `#`;
/// the channel and all it held are forgotten.
pub open spec fn part_step(v: AppView, c: Seq<char>) -> (AppView, Seq<EffectView>) {
    if c == server_tab() || !begins_with(c, '#') {
        (v, seq![])
    } else {
        let w = AppView {
            channels: without(v.channels, c),
            histories: v.histories.remove(c),
            users: v.users.remove(c),
            muted: v.muted.remove(c),
            active: if v.active == c {
                server_tab()
            } else {
                v.active
            },
            ..v
        };
        (
            w,
            (if v.has_link {
                seq![EffectView::SendPart(c)]
            } else {
                seq![]
            }) + (if v.active == c {
                seq![EffectView::ShowHistory]
            } else {
                seq![]
            }) + seq![
                EffectView::RefreshChannels,
                EffectView::RefreshUsers,
                EffectView::PersistSettings,
            ],
        )
    }
}

/// Muting or unmuting a user in a channel; the list of muted users stays
/// sorted without regard to case.
pub open spec fn mute_step(v: AppView, channel: Seq<char>, user: Seq<char>, stamp: Seq<char>) -> (
    AppView,
    Seq<EffectView>,
) {
    let list = list_of(v.muted, channel);
    let was = list.contains(user);
    let w = AppView {
        muted: v.muted.insert(
            channel,
            if was {
                without(list, user)
            } else {
                sorted_by_lowercase(list.push(user))
            },
        ),
        ..v
    };
    let (w2, fx) = append_line(
        w,
        channel,
        stamp + (if was {
            "[System]: Unmuted "@
        } else {
            "[System]: Muted "@
        }) + user + "\n"@,
        LineStyle::System,
    );
    (w2, fx + refresh_if_active(v, channel))
}

/// A message from the server: dropped when the sender is muted; a private
/// chat that is not listed yet is listed.
pub open spec fn receive_step(
    v: AppView,
    channel: Seq<char>,
    user: Seq<char>,
    body: Seq<char>,
    stamp: Seq<char>,
) -> (AppView, Seq<EffectView>) {
    if muted_in(v, channel, user) {
        (v, seq![])
    } else {
        let adds = !v.channels.contains(channel) && !begins_with(channel, '#');
        let w = if adds {
            AppView { channels: v.channels.push(channel), ..v }
        } else {
            v
        };
        let (w2, fx) = append_line(
            w,
            channel,
            stamp + "<"@ + user + "> "@ + body + "\n"@,
            style_of(v.nickname, user, body),
        );
        (
            w2,
            (if adds {
                seq![EffectView::RefreshChannels]
            } else {
                seq![]
            }) + fx,
        )
    }
}

/// The join box: blank text does nothing, text starting with `/` is a
/// command, anything else (channel or nickname) is joined.
pub open spec fn join_entry_effects(text: Seq<char>) -> Seq<EffectView> {
    let t = trimmed(text);
    if t.len() == 0 {
        seq![]
    } else if begins_with(t, '/') {
        seq![EffectView::Dispatch(InputView::SendMessage(t))]
    } else {
        seq![EffectView::Dispatch(InputView::JoinChannel(t))]
    }
}

/// Our own line for a message we send.
pub open spec fn own_line(stamp: Seq<char>, nick: Seq<char>, body: Seq<char>) -> Seq<char> {
    stamp + "<"@ + nick + "> "@ + body + "\n"@
}

/// The message box, `t` being the trimmed text.
pub open spec fn send_step(v: AppView, t: Seq<char>, stamp: Seq<char>) -> (
    AppView,
    Seq<EffectView>,
) {
    if t.len() == 0 {
        (v, seq![])
    } else if begins_with(t, '/') && command_step(v, t, stamp) is Some {
        command_step(v, t, stamp)->0
    } else {
        plain_message_step(v, t, stamp)
    }
}

/// A known slash command, or `None` for any other text starting with `/`.
pub open spec fn command_step(v: AppView, t: Seq<char>, stamp: Seq<char>) -> Option<
    (AppView, Seq<EffectView>),
> {
    let parts = command_parts(t);
    let cmd = parts[0];
    if cmd == "/join"@ || cmd == "/j"@ {
        Some(
            (
                v,
                if parts.len() >= 2 && trimmed(parts[1]).len() > 0 {
                    seq![EffectView::Dispatch(InputView::JoinChannel(normalized(parts[1])))]
                } else {
                    seq![]
                },
            ),
        )
    } else if cmd == "/msg"@ || cmd == "/query"@ {
        if parts.len() < 2 {
            Some((v, seq![]))
        } else {
            let target = parts[1];
            let body = if parts.len() >= 3 {
                parts[2]
            } else {
                seq![]
            };
            if body.len() == 0 {
                Some((v, seq![EffectView::Dispatch(InputView::JoinChannel(target))]))
            } else if v.has_link {
                let (w, fx) = append_line(
                    v,
                    target,
                    own_line(stamp, v.nickname, body),
                    LineStyle::SelfMsg,
                );
                Some((w, seq![EffectView::SendPrivmsg { target, body }] + fx))
            } else {
                Some((v, seq![]))
            }
        }
    } else if cmd == "/nick"@ {
        if parts.len() < 2 {
            Some((v, seq![]))
        } else {
            let w = AppView { nickname: parts[1], ..v };
            let (w2, fx) = append_line(
                w,
                server_tab(),
                stamp + "[System]: Nickname updated locally to "@ + parts[1]
                    + ". Reconnect to apply.\n"@,
                LineStyle::System,
            );
            Some((w2, seq![EffectView::PersistSettings] + fx))
        }
    } else if cmd == "/part"@ {
        Some(
            (
                v,
                seq![
                    EffectView::Dispatch(
                        InputView::PartChannel(
                            if parts.len() >= 2 {
                                parts[1]
                            } else {
                                v.active
                            },
                        ),
                    ),
                ],
            ),
        )
    } else if cmd == "/clear"@ {
        Some((v, seq![EffectView::Dispatch(InputView::ClearChannel(v.active))]))
    } else if cmd == "/help"@ {
        Some(append_line(v, v.active, help_lines(), LineStyle::System))
    } else {
        None
    }
}

/// Text that is not a known command: sent to the active channel, which must
/// not be the server tab, and only when connected.
pub open spec fn plain_message_step(v: AppView, t: Seq<char>, stamp: Seq<char>) -> (
    AppView,
    Seq<EffectView>,
) {
    if v.active == server_tab() {
        append_line(
            v,
            server_tab(),
            stamp + "[System]: Select a channel or DM before sending.\n"@,
            LineStyle::System,
        )
    } else if v.has_link {
        (
            v,
            seq![
                EffectView::SendPrivmsgThenEcho {
                    target: v.active,
                    body: t,
                    line: own_line(stamp, v.nickname, t),
                },
            ],
        )
    } else {
        append_line(
            v,
            v.active,
            stamp + "[System]: Cannot send message, not connected.\n"@,
            LineStyle::System,
        )
    }
}

/// A nickname without the status marks (`@`, `+`, `%`, `~`, `&`) in front
/// of it.
pub fn normalized_nick(user: &str) -> (r: String)
    ensures
        r@ == stripped_nick(user@),
{
    let v = chars_of(user);
    let mut i: usize = 0;
    assert(v@.skip(0) =~= v@);
    while i < v.len() && (v[i] == '@' || v[i] == '+' || v[i] == '%' || v[i] == '~' || v[i] == '&')
        invariant
            v@ == user@,
            i <= v.len(),
            stripped_nick(user@) == stripped_nick(v@.skip(i as int)),
        decreases v.len() - i,
    {
        assert(v@.skip(i as int).drop_first() =~= v@.skip(i + 1));
        i += 1;
    }
    let r = string_of_range(&v, i, v.len());
    assert(r@ =~= v@.skip(i as int));
    r
}

/// How a message is drawn (see `style_of`).
pub fn message_style(nickname: &str, user: &str, body: &str) -> (s: LineStyle)
    ensures
        s == style_of(nickname@, user@, body@),
{
    if same_text(user, "System") {
        return LineStyle::System;
    }
    let clean = normalized_nick(user);
    if eq_ignore_ascii_case(clean.as_str(), nickname) {
        return LineStyle::SelfMsg;
    }
    if contains_text(body, nickname) {
        return LineStyle::Mention;
    }
    LineStyle::Normal
}

/// The name of the style a line is drawn with.
pub fn style_tag(style: LineStyle) -> (s: &'static str)
    ensures
        s@ == style_name(style),
{
    match style {
        LineStyle::Normal => "normal",
        LineStyle::SelfMsg => "self-msg",
        LineStyle::System => "system",
        LineStyle::Mention => "mention",
    }
}

/// The name of the style a line is drawn with.
pub open spec fn style_name(style: LineStyle) -> Seq<char> {
    match style {
        LineStyle::Normal => "normal"@,
        LineStyle::SelfMsg => "self-msg"@,
        LineStyle::System => "system"@,
        LineStyle::Mention => "mention"@,
    }
}

/// The parts of a command line, split at the first two spaces.
pub fn split_command(t: &str) -> (parts: Vec<String>)
    ensures
        texts(parts@) == command_parts(t@),
{
    let v = chars_of(t);
    let mut i: usize = 0;
    while i < v.len() && v[i] != ' '
        invariant
            v@ == t@,
            i <= v.len(),
            forall|k: int| 0 <= k < i ==> v@[k] != ' ',
        decreases v.len() - i,
    {
        i += 1;
    }
    proof {
        lemma_find_first(v@, ' ', i as int);
    }
    let mut parts: Vec<String> = Vec::new();
    if i == v.len() {
        parts.push(owned(t));
        assert(texts(parts@) =~= command_parts(t@));
        return parts;
    }
    let ghost rest = v@.skip(i + 1);
    let mut j: usize = i + 1;
    while j < v.len() && v[j] != ' '
        invariant
            v@ == t@,
            i < j <= v.len(),
            rest == v@.skip(i + 1),
            forall|k: int| i + 1 <= k < j ==> v@[k] != ' ',
        decreases v.len() - j,
    {
        j += 1;
    }
    proof {
        assert forall|k: int| 0 <= k < j - (i + 1) implies rest[k] != ' ' by {
            assert(rest[k] == v@[k + i + 1]);
        }
        if j < v.len() {
            assert(rest[j - (i + 1)] == v@[j as int]);
        }
        lemma_find_first(rest, ' ', j - (i + 1));
    }
    parts.push(string_of_range(&v, 0, i));
    parts.push(string_of_range(&v, i + 1, j));
    assert(v@.subrange(0, i as int) =~= v@.take(i as int));
    assert(v@.subrange(i + 1, j as int) =~= rest.take(j - (i + 1)));
    if j < v.len() {
        parts.push(string_of_range(&v, j + 1, v.len()));
        assert(v@.subrange(j + 1, v.len() as int) =~= rest.skip(j - (i + 1) + 1));
        assert(texts(parts@) =~= seq![
            v@.take(i as int),
            rest.take(j - (i + 1)),
            rest.skip(j - (i + 1) + 1),
        ]);
    } else {
        assert(v@.subrange(i + 1, j as int) =~= rest);
        assert(texts(parts@) =~= seq![v@.take(i as int), rest]);
    }
    parts
}

/// The listed channels that name IRC channels, in order.
pub fn channel_target_list(cs: &Vec<String>) -> (r: Vec<String>)
    ensures
        texts(r@) == channel_targets(texts(cs@)),
{
    let mut r: Vec<String> = Vec::new();
    let mut i: usize = 0;
    while i < cs.len()
        invariant
            i <= cs.len(),
            texts(r@) == channel_targets(texts(cs@).take(i as int)),
        decreases cs.len() - i,
    {
        assert(texts(cs@).take(i + 1).drop_last() =~= texts(cs@).take(i as int));
        assert(texts(cs@).take(i + 1).last() == cs@[i as int]@);
        if is_channel_target(cs[i].as_str()) {
            let ghost prev = texts(r@);
            r.push(cs[i].clone());
            assert(texts(r@) =~= prev.push(cs@[i as int]@));
        }
        i += 1;
    }
    assert(texts(cs@).take(cs.len() as int) =~= texts(cs@));
    r
}

fn add_missing_names(list: &mut Vec<String>, more: &Vec<String>)
    ensures
        texts(final(list)@) == add_missing(texts(old(list)@), texts(more@)),
{
    let ghost start = texts(list@);
    let mut i: usize = 0;
    while i < more.len()
        invariant
            i <= more.len(),
            texts(list@) == add_missing(start, texts(more@).take(i as int)),
        decreases more.len() - i,
    {
        assert(texts(more@).take(i + 1).drop_last() =~= texts(more@).take(i as int));
        assert(texts(more@).take(i + 1).last() == more@[i as int]@);
        if !list_contains(list, more[i].as_str()) {
            let ghost prev = texts(list@);
            list.push(more[i].clone());
            assert(texts(list@) =~= prev.push(more@[i as int]@));
        }
        i += 1;
    }
    assert(texts(more@).take(more.len() as int) =~= texts(more@));
}

/// The views of a list of effects with one more at the end.
proof fn lemma_effects_push(e: Seq<Effect>, x: Effect)
    ensures
        effects_view(e.push(x)) == effects_view(e).push(x@),
{
    assert(effects_view(e.push(x)) =~= effects_view(e).push(x@));
}

/// The views of two lists of effects one after the other.
proof fn lemma_effects_append(a: Seq<Effect>, b: Seq<Effect>)
    ensures
        effects_view(a + b) == effects_view(a) + effects_view(b),
{
    assert(effects_view(a + b) =~= effects_view(a) + effects_view(b));
}

/// The text `/help` shows.
pub fn help_text() -> (s: &'static str)
    ensures
        s@ == help_lines(),
{
    "Commands: /join chan, /j chan, /part [#chan], /msg nick text, /clear, /nick name, /help\nJoin box: type #channel to join, or a nick for a DM. Any channel is supported.\n"
}

pub(crate) proof fn lemma_without_no_duplicates(l: Seq<Seq<char>>, x: Seq<char>)
    requires
        l.no_duplicates(),
    ensures
        without(l, x).no_duplicates(),
    decreases l.len(),
{
    if l.len() > 0 {
        let init = l.drop_last();
        assert(init.no_duplicates()) by {
            assert forall|i: int, j: int| 0 <= i < init.len() && 0 <= j < init.len() && i != j implies init[i]
                != init[j] by {
                assert(init[i] == l[i] && init[j] == l[j]);
            }
        }
        lemma_without_no_duplicates(init, x);
        if l.last() != x {
            crate::text::lemma_without_contains(init, x, l.last());
            if init.contains(l.last()) {
                let k = choose|k: int| 0 <= k < init.len() && init[k] == l.last();
                assert(l[k] == l[l.len() - 1]);
            }
            let w = without(init, x);
            assert forall|i: int, j: int| 0 <= i < w.len() + 1 && 0 <= j < w.len() + 1 && i != j implies w.push(l.last())[i]
                != w.push(l.last())[j] by {
                if i == w.len() {
                    assert(!w.contains(l.last()));
                    assert(w.push(l.last())[j] == w[j]);
                } else if j == w.len() {
                    assert(!w.contains(l.last()));
                    assert(w.push(l.last())[i] == w[i]);
                }
            }
        }
    }
}

pub(crate) proof fn lemma_push_no_duplicates(l: Seq<Seq<char>>, x: Seq<char>)
    requires
        l.no_duplicates(),
        !l.contains(x),
    ensures
        l.push(x).no_duplicates(),
        forall|y: Seq<char>| l.contains(y) ==> l.push(x).contains(y),
{
    assert forall|y: Seq<char>| l.contains(y) implies l.push(x).contains(y) by {
        let k = choose|k: int| 0 <= k < l.len() && l[k] == y;
        assert(l.push(x)[k] == y);
    }
}

/// Adding the missing names of `more` to `list`: a name is in the result
/// when it is in `list` or in `more`, and the result holds no name twice
/// when `list` holds none twice.
pub proof fn lemma_add_missing(list: Seq<Seq<char>>, more: Seq<Seq<char>>)
    ensures
        forall|x: Seq<char>|
            #[trigger] add_missing(list, more).contains(x) <==> list.contains(x) || more.contains(
                x,
            ),
        list.no_duplicates() ==> add_missing(list, more).no_duplicates(),
    decreases more.len(),
{
    if more.len() > 0 {
        let init = more.drop_last();
        let y = more.last();
        lemma_add_missing(list, init);
        let l = add_missing(list, init);
        assert forall|x: Seq<char>| more.contains(x) <==> init.contains(x) || x == y by {
            if more.contains(x) {
                let k = choose|k: int| 0 <= k < more.len() && more[k] == x;
                if k < more.len() - 1 {
                    assert(init[k] == x);
                }
            }
            if init.contains(x) {
                let k = choose|k: int| 0 <= k < init.len() && init[k] == x;
                assert(more[k] == x);
            }
            if x == y {
                assert(more[more.len() - 1] == x);
            }
        }
        if !l.contains(y) {
            if list.no_duplicates() {
                lemma_push_no_duplicates(l, y);
            }
            assert forall|x: Seq<char>| l.push(y).contains(x) <==> l.contains(x) || x == y by {
                if l.push(y).contains(x) {
                    let k = choose|k: int| 0 <= k < l.len() + 1 && l.push(y)[k] == x;
                    if k < l.len() {
                        assert(l[k] == x);
                    }
                }
                if l.contains(x) {
                    let k = choose|k: int| 0 <= k < l.len() && l[k] == x;
                    assert(l.push(y)[k] == x);
                }
                if x == y {
                    assert(l.push(y)[l.len() as int] == x);
                }
            }
        }
        assert forall|x: Seq<char>| #[trigger]
            add_missing(list, more).contains(x) <==> list.contains(x) || more.contains(x) by {
            assert(l.contains(x) <==> list.contains(x) || init.contains(x));
        }
    }
}

/// The lines of the server tab when the client starts.
pub open spec fn welcome_lines() -> Seq<(Seq<char>, LineStyle)> {
    seq![
        ("[System]: Ready for Libera.Chat. Register with NickServ and connect.\n"@, LineStyle::System),
        ("[System]: #fedora, #fedora-devel, and #rhel-devel require a registered nick.\n"@, LineStyle::System),
        ("[System]: Rocky channels also require registration (wiki.rockylinux.org/irc).\n"@, LineStyle::System),
        ("[System]: Join any channel via the sidebar (#channel) or /join channel. Custom channels are saved.\n"@, LineStyle::System),
        ("[System]: Settings are saved to ~/.config/boulder-relay/settings.conf\n"@, LineStyle::System),
    ]
}

/// The favorites shown when the settings name none.
pub open spec fn starter_favorites() -> Seq<Seq<char>> {
    seq!["Server"@, "#rockylinux-devel"@, "#fedora-devel"@, "#rhel-devel"@]
}

/// `value`, or `fallback` when `value` is empty.
pub open spec fn or_default(value: Seq<char>, fallback: Seq<char>) -> Seq<char> {
    if value.len() == 0 {
        fallback
    } else {
        value
    }
}

/// The channels listed when the client starts: the server tab, the default
/// channels, then each saved custom channel not listed yet.
pub open spec fn initial_channels(s: crate::config::SettingsView) -> Seq<Seq<char>> {
    add_missing(seq![server_tab()] + default_names(), s.extra_channels)
}

/// The state when the client starts with the given settings: offline, the
/// server tab, the default channels and the saved custom channels listed;
/// the saved last channel active when it is listed, else the server tab.
pub open spec fn initial_view(s: crate::config::SettingsView) -> AppView {
    AppView {
        connection: ConnectionState::Offline,
        has_link: false,
        status: "Offline"@,
        active: if s.last_channel.len() > 0 && initial_channels(s).contains(s.last_channel) {
            s.last_channel
        } else {
            server_tab()
        },
        channels: initial_channels(s),
        favorites: if s.favorites.len() == 0 {
            starter_favorites()
        } else {
            s.favorites
        },
        muted: Map::empty(),
        histories: Map::empty().insert(server_tab(), welcome_lines()),
        users: Map::empty(),
        nickname: or_default(s.nickname, "SisyphusCode"@),
        server: or_default(s.server, "irc.libera.chat"@),
        password: s.password,
    }
}

fn system_line(text: &str) -> (l: ChatLine)
    ensures
        l.deep_view() == (text@, LineStyle::System),
{
    ChatLine { text: owned(text), style: LineStyle::System }
}

fn or_default_text(value: &String, fallback: &str) -> (r: String)
    ensures
        r@ == or_default(value@, fallback@),
{
    if value.as_str().is_empty() {
        owned(fallback)
    } else {
        value.clone()
    }
}

impl AppState {
    /// The state when the client starts with `settings`.
    pub fn new(settings: &crate::config::Settings) -> (st: AppState)
        ensures
            st@ == initial_view(settings@),
            st.wf(),
    {
        let mut chat_histories: ChannelMap<Vec<ChatLine>> = ChannelMap::new();
        let welcome = vec![
            system_line(
                "[System]: Ready for Libera.Chat. Register with NickServ and connect.\n",
            ),
            system_line(
                "[System]: #fedora, #fedora-devel, and #rhel-devel require a registered nick.\n",
            ),
            system_line(
                "[System]: Rocky channels also require registration (wiki.rockylinux.org/irc).\n",
            ),
            system_line(
                "[System]: Join any channel via the sidebar (#channel) or /join channel. Custom channels are saved.\n",
            ),
            system_line("[System]: Settings are saved to ~/.config/boulder-relay/settings.conf\n"),
        ];
        assert(welcome.deep_view() =~= welcome_lines());
        chat_histories.insert(owned("Server"), welcome);
        let mut channels: Vec<String> = vec![owned("Server")];
        let mut defaults = crate::channels::default_channel_names();
        let ghost first = texts(channels@);
        let ghost d = texts(defaults@);
        channels.append(&mut defaults);
        assert(texts(channels@) =~= first + d);
        assert(first =~= seq![server_tab()]);
        assert(texts(channels@) == seq![server_tab()] + default_names());
        add_missing_names(&mut channels, &settings.extra_channels);
        let active_channel = if !settings.last_channel.as_str().is_empty() && list_contains(
            &channels,
            settings.last_channel.as_str(),
        ) {
            settings.last_channel.clone()
        } else {
            owned("Server")
        };
        let favorites = if settings.favorites.len() == 0 {
            let v = vec![
                owned("Server"),
                owned("#rockylinux-devel"),
                owned("#fedora-devel"),
                owned("#rhel-devel"),
            ];
            assert(texts(v@) =~= starter_favorites());
            v
        } else {
            settings.favorites.clone()
        };
        let st = AppState {
            connection: ConnectionState::Offline,
            has_link: false,
            status: owned("Offline"),
            active_channel,
            channels,
            favorite_channels: favorites,
            muted_users: ChannelMap::new(),
            chat_histories,
            channel_users: ChannelMap::new(),
            nickname: or_default_text(&settings.nickname, "SisyphusCode"),
            server: or_default_text(&settings.server, "irc.libera.chat"),
            password: settings.password.clone(),
        };
        proof {
            assert(st@ =~= initial_view(settings@));
            lemma_initial_wf();
            lemma_add_missing(seq![server_tab()] + default_names(), settings@.extra_channels);
        }
        st
    }

    fn append_line(&mut self, channel: &str, text: String, style: LineStyle) -> (fx: Vec<Effect>)
        ensures
            (final(self)@, effects_view(fx@)) == append_line(old(self)@, channel@, text@, style),
    {
        let ghost v = self@;
        let mut history = match self.chat_histories.take(channel) {
            Some(h) => h,
            None => Vec::new(),
        };
        assert(history.deep_view() =~= history_of(v, channel@));
        let ghost before = history@;
        history.push(ChatLine { text: text.clone(), style });
        assert(history.deep_view() =~= history_of(v, channel@).push((text@, style)));
        self.chat_histories.insert(owned(channel), history);
        let mut fx: Vec<Effect> = Vec::new();
        if same_text(self.active_channel.as_str(), channel) {
            fx.push(Effect::ShowLine { text, style });
        }
        proof {
            assert(self.chat_histories@ =~= v.histories.insert(
                channel@,
                history_of(v, channel@).push((text@, style)),
            ));
            assert(self@ =~= append_line(v, channel@, text@, style).0);
            assert(effects_view(fx@) =~= append_line(v, channel@, text@, style).1);
        }
        fx
    }

    /// Records our own message after the server took it (the follow-up of
    /// `Effect::SendPrivmsgThenEcho`).
    pub fn echo_own_message(&mut self, channel: &str, line: String) -> (fx: Vec<Effect>)
        requires
            old(self).wf(),
        ensures
            final(self).wf(),
            (final(self)@, effects_view(fx@)) == append_line(
                old(self)@,
                channel@,
                line@,
                LineStyle::SelfMsg,
            ),
    {
        self.append_line(channel, line, LineStyle::SelfMsg)
    }
}

proof fn lemma_initial_wf()
    ensures
        (seq![server_tab()] + default_names()).contains(server_tab()),
        (seq![server_tab()] + default_names()).no_duplicates(),
{
    let l = seq![server_tab()] + default_names();
    assert(l[0] == server_tab());
    crate::channels::lemma_default_names_are_distinct_channels();
    reveal_strlit("Server");
    assert forall|i: int, j: int| 0 <= i < l.len() && 0 <= j < l.len() && i != j implies l[i]
        != l[j] by {
        if i > 0 && j > 0 {
            assert(l[i] == crate::channels::default_table()[i - 1].name@);
            assert(l[j] == crate::channels::default_table()[j - 1].name@);
        } else if i == 0 {
            assert(l[j] == crate::channels::default_table()[j - 1].name@);
            assert(l[j][0] == '#');
        } else {
            assert(l[i] == crate::channels::default_table()[i - 1].name@);
            assert(l[i][0] == '#');
        }
    }
}

impl AppState {
    fn connect(&mut self) -> (fx: Vec<Effect>)
        requires
            old(self).wf(),
        ensures
            final(self).wf(),
            (final(self)@, effects_view(fx@)) == connect_step(old(self)@),
    {
        if self.connection != ConnectionState::Offline {
            return Vec::new();
        }
        let ghost v = self@;
        self.connection = ConnectionState::Connecting;
        self.status = owned("Connecting...");
        let channels = channel_target_list(&self.channels);
        let fx = vec![
            Effect::PersistSettings,
            Effect::StartConnection {
                nickname: self.nickname.clone(),
                server: self.server.clone(),
                password: self.password.clone(),
                channels,
            },
        ];
        proof {
            assert(self@ =~= connect_step(v).0);
            assert(effects_view(fx@) =~= connect_step(v).1);
        }
        fx
    }

    fn disconnect(&mut self, stamp: &str) -> (fx: Vec<Effect>)
        requires
            old(self).wf(),
        ensures
            final(self).wf(),
            (final(self)@, effects_view(fx@)) == disconnect_step(old(self)@, stamp@),
    {
        if !self.has_link {
            return Vec::new();
        }
        let ghost v = self@;
        self.has_link = false;
        self.connection = ConnectionState::Offline;
        self.status = owned("Offline");
        let ghost w = self@;
        assert(w =~= AppView {
            has_link: false,
            connection: ConnectionState::Offline,
            status: "Offline"@,
            ..v
        });
        let mut fx = vec![Effect::SendQuit(owned("Boulder Relay signing off"))];
        let mut more = self.append_line(
            "Server",
            concat(stamp, "[System]: Disconnected by user.\n"),
            LineStyle::System,
        );
        let ghost a = fx@;
        let ghost b = more@;
        fx.append(&mut more);
        proof {
            lemma_effects_append(a, b);
            assert(effects_view(a) =~= seq![EffectView::SendQuit("Boulder Relay signing off"@)]);
        }
        fx
    }

    fn network_status(&mut self, s: String) -> (fx: Vec<Effect>)
        requires
            old(self).wf(),
        ensures
            final(self).wf(),
            (final(self)@, effects_view(fx@)) == status_step(old(self)@, s@),
    {
        let ghost v = self@;
        let offline = same_text(s.as_str(), "Disconnected") || starts_with_text(
            s.as_str(),
            "Connection failed",
        );
        self.status = s;
        let mut fx: Vec<Effect> = Vec::new();
        if offline {
            self.connection = ConnectionState::Offline;
            self.has_link = false;
            fx.push(Effect::DropLink);
        }
        proof {
            assert(self@ =~= status_step(v, s@).0);
            assert(effects_view(fx@) =~= status_step(v, s@).1);
        }
        fx
    }

    fn network_connected(&mut self, stamp: &str) -> (fx: Vec<Effect>)
        requires
            old(self).wf(),
        ensures
            final(self).wf(),
            (final(self)@, effects_view(fx@)) == step(old(self)@, InputView::NetworkConnected, stamp@),
    {
        let ghost v = self@;
        self.has_link = true;
        self.connection = ConnectionState::Connected;
        self.status = owned("Connected");
        let line = concat(stamp, "[System]: Connected to ");
        let line = concat(line.as_str(), self.server.as_str());
        let line = concat(line.as_str(), " as ");
        let line = concat(line.as_str(), self.nickname.as_str());
        let line = concat(line.as_str(), ".\n");
        assert(self@ =~= AppView {
            has_link: true,
            connection: ConnectionState::Connected,
            status: "Connected"@,
            ..v
        });
        self.append_line("Server", line, LineStyle::System)
    }

    fn join_channel(&mut self, target: String) -> (fx: Vec<Effect>)
        requires
            old(self).wf(),
        ensures
            final(self).wf(),
            (final(self)@, effects_view(fx@)) == join_step(old(self)@, target@),
    {
        let ghost v = self@;
        let mut fx: Vec<Effect> = Vec::new();
        if !list_contains(&self.channels, target.as_str()) {
            let ghost prev = texts(self.channels@);
            self.channels.push(target.clone());
            assert(texts(self.channels@) =~= prev.push(target@));
            proof {
                lemma_push_no_duplicates(prev, target@);
            }
            let first = concat("[System]: Tracking ", target.as_str());
            let first = concat(first.as_str(), "\n");
            let history = vec![ChatLine { text: first, style: LineStyle::System }];
            assert(history.deep_view() =~= seq![
                ("[System]: Tracking "@ + target@ + "\n"@, LineStyle::System),
            ]);
            self.chat_histories.insert(target.clone(), history);
            fx.push(Effect::RefreshChannels);
        }
        if self.has_link && is_channel_target(target.as_str()) {
            fx.push(Effect::SendJoin(target.clone()));
        }
        self.active_channel = target;
        fx.push(Effect::ShowHistory);
        fx.push(Effect::RefreshUsers);
        fx.push(Effect::PersistSettings);
        proof {
            assert(self@ =~= join_step(v, target@).0);
            assert(effects_view(fx@) =~= join_step(v, target@).1);
        }
        fx
    }

    fn part_channel(&mut self, channel: String) -> (fx: Vec<Effect>)
        requires
            old(self).wf(),
        ensures
            final(self).wf(),
            (final(self)@, effects_view(fx@)) == part_step(old(self)@, channel@),
    {
        let ghost v = self@;
        proof {
            reveal_strlit("Server");
        }
        if same_text(channel.as_str(), "Server") || !starts_with_char(channel.as_str(), '#') {
            return Vec::new();
        }
        let mut fx: Vec<Effect> = Vec::new();
        if self.has_link {
            fx.push(Effect::SendPart(channel.clone()));
        }
        let ghost prev = texts(self.channels@);
        self.channels = remove_all(&self.channels, channel.as_str());
        proof {
            lemma_without_no_duplicates(prev, channel@);
            crate::text::lemma_without_contains(prev, channel@, server_tab());
        }
        self.chat_histories.remove(channel.as_str());
        self.channel_users.remove(channel.as_str());
        self.muted_users.remove(channel.as_str());
        if same_text(self.active_channel.as_str(), channel.as_str()) {
            self.active_channel = owned("Server");
            fx.push(Effect::ShowHistory);
        }
        fx.push(Effect::RefreshChannels);
        fx.push(Effect::RefreshUsers);
        fx.push(Effect::PersistSettings);
        proof {
            assert(self@ =~= part_step(v, channel@).0);
            assert(effects_view(fx@) =~= part_step(v, channel@).1);
        }
        fx
    }

    fn clear_channel(&mut self, channel: String) -> (fx: Vec<Effect>)
        requires
            old(self).wf(),
        ensures
            final(self).wf(),
            (final(self)@, effects_view(fx@)) == step(old(self)@, InputView::ClearChannel(channel@), seq![]),
    {
        let ghost v = self@;
        let empty: Vec<ChatLine> = Vec::new();
        assert(empty.deep_view() =~= Seq::<(Seq<char>, LineStyle)>::empty());
        let active = same_text(self.active_channel.as_str(), channel.as_str());
        self.chat_histories.insert(channel, empty);
        let mut fx: Vec<Effect> = Vec::new();
        if active {
            fx.push(Effect::ClearView);
        }
        proof {
            assert(self@ =~= step(v, InputView::ClearChannel(channel@), seq![]).0);
            assert(effects_view(fx@) =~= step(v, InputView::ClearChannel(channel@), seq![]).1);
        }
        fx
    }

    fn toggle_favorite(&mut self, channel: String) -> (fx: Vec<Effect>)
        requires
            old(self).wf(),
        ensures
            final(self).wf(),
            (final(self)@, effects_view(fx@)) == step(old(self)@, InputView::ToggleFavorite(channel@), seq![]),
    {
        let ghost v = self@;
        if list_contains(&self.favorite_channels, channel.as_str()) {
            self.favorite_channels = remove_all(&self.favorite_channels, channel.as_str());
        } else {
            let ghost prev = texts(self.favorite_channels@);
            self.favorite_channels.push(channel.clone());
            assert(texts(self.favorite_channels@) =~= prev.push(channel@));
        }
        let fx = vec![Effect::RefreshChannels, Effect::PersistSettings];
        proof {
            assert(self@ =~= step(v, InputView::ToggleFavorite(channel@), seq![]).0);
            assert(effects_view(fx@) =~= step(v, InputView::ToggleFavorite(channel@), seq![]).1);
        }
        fx
    }
}

impl AppState {
    /// A channel's list taken out of a per-channel map, empty when it has none.
    fn take_list(m: &mut ChannelMap<Vec<String>>, channel: &str) -> (list: Vec<String>)
        ensures
            final(m)@ == old(m)@.remove(channel@),
            texts(list@) == list_of(old(m)@, channel@),
    {
        match m.take(channel) {
            Some(l) => {
                proof {
                    crate::channel_map::lemma_texts_deep_view(l);
                }
                l
            },
            None => {
                let l: Vec<String> = Vec::new();
                assert(texts(l@) =~= Seq::<Seq<char>>::empty());
                l
            },
        }
    }

    /// Puts a list back into a per-channel map.
    fn put_list(m: &mut ChannelMap<Vec<String>>, channel: &str, list: Vec<String>)
        ensures
            final(m)@ == old(m)@.insert(channel@, texts(list@)),
    {
        proof {
            crate::channel_map::lemma_texts_deep_view(list);
        }
        m.insert(owned(channel), list);
    }

    fn toggle_mute(&mut self, channel: String, user: String, stamp: &str) -> (fx: Vec<Effect>)
        requires
            old(self).wf(),
        ensures
            final(self).wf(),
            (final(self)@, effects_view(fx@)) == mute_step(old(self)@, channel@, user@, stamp@),
    {
        let ghost v = self@;
        let list = Self::take_list(&mut self.muted_users, channel.as_str());
        let was = list_contains(&list, user.as_str());
        let new_list = if was {
            remove_all(&list, user.as_str())
        } else {
            let mut l = list;
            let ghost prev = texts(l@);
            l.push(user.clone());
            assert(texts(l@) =~= prev.push(user@));
            sort_by_lowercase(&l)
        };
        Self::put_list(&mut self.muted_users, channel.as_str(), new_list);
        assert(self.muted_users@ =~= v.muted.insert(
            channel@,
            if was {
                without(list_of(v.muted, channel@), user@)
            } else {
                sorted_by_lowercase(list_of(v.muted, channel@).push(user@))
            },
        ));
        let ghost w = self@;
        let line = concat(stamp, if was {
            "[System]: Unmuted "
        } else {
            "[System]: Muted "
        });
        let line = concat(line.as_str(), user.as_str());
        let line = concat(line.as_str(), "\n");
        let active = same_text(self.active_channel.as_str(), channel.as_str());
        let mut fx = self.append_line(channel.as_str(), line, LineStyle::System);
        if active {
            let ghost a = fx@;
            fx.push(Effect::RefreshUsers);
            proof {
                lemma_effects_push(a, Effect::RefreshUsers);
            }
        }
        proof {
            assert(effects_view(fx@) =~= mute_step(v, channel@, user@, stamp@).1);
        }
        fx
    }

    /// Whether `user` is muted in `channel`.
    pub fn is_muted(&self, channel: &str, user: &str) -> (b: bool)
        ensures
            b == muted_in(self@, channel@, user@),
    {
        let clean = normalized_nick(user);
        match self.muted_users.get(channel) {
            Some(list) => {
                proof {
                    crate::channel_map::lemma_texts_deep_view(*list);
                }
                list_contains(list, clean.as_str())
            },
            None => false,
        }
    }

    fn receive_message(&mut self, channel: String, user: String, body: String, stamp: &str) -> (fx:
        Vec<Effect>)
        requires
            old(self).wf(),
        ensures
            final(self).wf(),
            (final(self)@, effects_view(fx@)) == receive_step(
                old(self)@,
                channel@,
                user@,
                body@,
                stamp@,
            ),
    {
        let ghost v = self@;
        if self.is_muted(channel.as_str(), user.as_str()) {
            return Vec::new();
        }
        let mut fx: Vec<Effect> = Vec::new();
        if !list_contains(&self.channels, channel.as_str()) && !starts_with_char(
            channel.as_str(),
            '#',
        ) {
            let ghost prev = texts(self.channels@);
            self.channels.push(channel.clone());
            assert(texts(self.channels@) =~= prev.push(channel@));
            proof {
                lemma_push_no_duplicates(prev, channel@);
            }
            fx.push(Effect::RefreshChannels);
        }
        let style = message_style(self.nickname.as_str(), user.as_str(), body.as_str());
        let line = concat(stamp, "<");
        let line = concat(line.as_str(), user.as_str());
        let line = concat(line.as_str(), "> ");
        let line = concat(line.as_str(), body.as_str());
        let line = concat(line.as_str(), "\n");
        let ghost a = fx@;
        let mut more = self.append_line(channel.as_str(), line, style);
        let ghost b = more@;
        fx.append(&mut more);
        proof {
            lemma_effects_append(a, b);
            assert(effects_view(fx@) =~= receive_step(v, channel@, user@, body@, stamp@).1);
        }
        fx
    }

    fn batch_add_users(&mut self, channel: String, users: Vec<String>) -> (fx: Vec<Effect>)
        requires
            old(self).wf(),
        ensures
            final(self).wf(),
            (final(self)@, effects_view(fx@)) == step(
                old(self)@,
                InputView::BatchAddUsers { channel: channel@, users: texts(users@) },
                seq![],
            ),
    {
        let ghost v = self@;
        let mut list = Self::take_list(&mut self.channel_users, channel.as_str());
        add_missing_names(&mut list, &users);
        let sorted = sort_by_lowercase(&list);
        Self::put_list(&mut self.channel_users, channel.as_str(), sorted);
        let mut fx: Vec<Effect> = Vec::new();
        if same_text(self.active_channel.as_str(), channel.as_str()) {
            fx.push(Effect::RefreshUsers);
        }
        proof {
            let g = step(v, InputView::BatchAddUsers { channel: channel@, users: texts(users@) }, seq![]);
            assert(self.channel_users@ =~= g.0.users);
            assert(self@ =~= g.0);
            assert(effects_view(fx@) =~= g.1);
        }
        fx
    }

    fn user_joined(&mut self, channel: String, user: String) -> (fx: Vec<Effect>)
        requires
            old(self).wf(),
        ensures
            final(self).wf(),
            (final(self)@, effects_view(fx@)) == step(
                old(self)@,
                InputView::UserJoined { channel: channel@, user: user@ },
                seq![],
            ),
    {
        let ghost v = self@;
        let list = Self::take_list(&mut self.channel_users, channel.as_str());
        let new_list = if list_contains(&list, user.as_str()) {
            list
        } else {
            let mut l = list;
            let ghost prev = texts(l@);
            l.push(user);
            assert(texts(l@) =~= prev.push(user@));
            sort_by_lowercase(&l)
        };
        Self::put_list(&mut self.channel_users, channel.as_str(), new_list);
        let mut fx: Vec<Effect> = Vec::new();
        if same_text(self.active_channel.as_str(), channel.as_str()) {
            fx.push(Effect::RefreshUsers);
        }
        proof {
            let g = step(v, InputView::UserJoined { channel: channel@, user: user@ }, seq![]);
            assert(self.channel_users@ =~= g.0.users);
            assert(self@ =~= g.0);
            assert(effects_view(fx@) =~= g.1);
        }
        fx
    }

    fn user_left(&mut self, channel: String, user: String) -> (fx: Vec<Effect>)
        requires
            old(self).wf(),
        ensures
            final(self).wf(),
            (final(self)@, effects_view(fx@)) == step(
                old(self)@,
                InputView::UserLeft { channel: channel@, user: user@ },
                seq![],
            ),
    {
        let ghost v = self@;
        match self.channel_users.take(channel.as_str()) {
            Some(list) => {
                proof {
                    crate::channel_map::lemma_texts_deep_view(list);
                }
                let kept = remove_all(&list, user.as_str());
                Self::put_list(&mut self.channel_users, channel.as_str(), kept);
            },
            None => {},
        }
        let mut fx: Vec<Effect> = Vec::new();
        if same_text(self.active_channel.as_str(), channel.as_str()) {
            fx.push(Effect::RefreshUsers);
        }
        proof {
            let g = step(v, InputView::UserLeft { channel: channel@, user: user@ }, seq![]);
            assert(self.channel_users@ =~= g.0.users);
            assert(self@ =~= g.0);
            assert(effects_view(fx@) =~= g.1);
        }
        fx
    }

    fn user_quit(&mut self, user: String) -> (fx: Vec<Effect>)
        requires
            old(self).wf(),
        ensures
            final(self).wf(),
            (final(self)@, effects_view(fx@)) == step(
                old(self)@,
                InputView::UserQuit { user: user@ },
                seq![],
            ),
    {
        let ghost v = self@;
        self.channel_users.remove_from_all(user.as_str());
        let fx = vec![Effect::RefreshUsers];
        proof {
            let g = step(v, InputView::UserQuit { user: user@ }, seq![]);
            assert(self.channel_users@ =~= g.0.users);
            assert(self@ =~= g.0);
            assert(effects_view(fx@) =~= g.1);
        }
        fx
    }
}

/// The effects of a line typed in the join box.
pub fn join_entry(text: &str) -> (fx: Vec<Effect>)
    ensures
        effects_view(fx@) == join_entry_effects(text@),
{
    let t = trim(text);
    if t.as_str().is_empty() {
        return Vec::new();
    }
    if starts_with_char(t.as_str(), '/') {
        let fx = vec![Effect::Dispatch(Input::SendMessage(t))];
        assert(effects_view(fx@) =~= join_entry_effects(text@));
        return fx;
    }
    proof {
        crate::text::lemma_trimmed_idempotent(text@);
    }
    let fx = match parse_join_entry(t.as_str()) {
        Some(JoinTarget::Channel(channel)) => vec![Effect::Dispatch(Input::JoinChannel(channel))],
        Some(JoinTarget::DirectMessage(nick)) => vec![Effect::Dispatch(Input::JoinChannel(nick))],
        None => Vec::new(),
    };
    assert(effects_view(fx@) =~= join_entry_effects(text@));
    fx
}

impl AppState {
    fn run_command(&mut self, t: &str, stamp: &str) -> (r: Option<Vec<Effect>>)
        requires
            old(self).wf(),
        ensures
            final(self).wf(),
            match r {
                None => command_step(old(self)@, t@, stamp@) is None && final(self)@ == old(self)@,
                Some(fx) => command_step(old(self)@, t@, stamp@) == Some(
                    (final(self)@, effects_view(fx@)),
                ),
            },
    {
        let ghost v = self@;
        let parts = split_command(t);
        assert(texts(parts@).len() >= 1);
        let cmd = parts[0].as_str();
        assert(cmd@ == command_parts(t@)[0]);
        if same_text(cmd, "/join") || same_text(cmd, "/j") {
            let mut fx: Vec<Effect> = Vec::new();
            if parts.len() >= 2 {
                assert(parts@[1]@ == command_parts(t@)[1]);
                match parse_join_command(parts[1].as_str()) {
                    Some(channel) => {
                        fx.push(Effect::Dispatch(Input::JoinChannel(channel)));
                    },
                    None => {},
                }
            }
            assert(effects_view(fx@) =~= command_step(v, t@, stamp@).unwrap().1);
            return Some(fx);
        }
        if same_text(cmd, "/msg") || same_text(cmd, "/query") {
            if parts.len() < 2 {
                return Some(Vec::new());
            }
            let target = parts[1].as_str();
            assert(target@ == command_parts(t@)[1]);
            let body = if parts.len() >= 3 {
                assert(parts@[2]@ == command_parts(t@)[2]);
                parts[2].clone()
            } else {
                String::new()
            };
            if body.as_str().is_empty() {
                let fx = vec![Effect::Dispatch(Input::JoinChannel(owned(target)))];
                assert(effects_view(fx@) =~= command_step(v, t@, stamp@).unwrap().1);
                return Some(fx);
            }
            if self.has_link {
                let line = concat(stamp, "<");
                let line = concat(line.as_str(), self.nickname.as_str());
                let line = concat(line.as_str(), "> ");
                let line = concat(line.as_str(), body.as_str());
                let line = concat(line.as_str(), "\n");
                let mut fx = vec![Effect::SendPrivmsg { target: owned(target), body: body.clone() }];
                let ghost a = fx@;
                let mut more = self.append_line(target, line, LineStyle::SelfMsg);
                let ghost b = more@;
                fx.append(&mut more);
                proof {
                    lemma_effects_append(a, b);
                    assert(effects_view(a) =~= seq![
                        EffectView::SendPrivmsg { target: target@, body: body@ },
                    ]);
                    assert(effects_view(fx@) =~= command_step(v, t@, stamp@).unwrap().1);
                }
                return Some(fx);
            }
            return Some(Vec::new());
        }
        if same_text(cmd, "/nick") {
            if parts.len() < 2 {
                return Some(Vec::new());
            }
            assert(parts@[1]@ == command_parts(t@)[1]);
            self.nickname = parts[1].clone();
            let line = concat(stamp, "[System]: Nickname updated locally to ");
            let line = concat(line.as_str(), parts[1].as_str());
            let line = concat(line.as_str(), ". Reconnect to apply.\n");
            let mut fx = vec![Effect::PersistSettings];
            let ghost a = fx@;
            assert(self@ =~= AppView { nickname: command_parts(t@)[1], ..v });
            let mut more = self.append_line("Server", line, LineStyle::System);
            let ghost b = more@;
            fx.append(&mut more);
            proof {
                lemma_effects_append(a, b);
                assert(effects_view(a) =~= seq![EffectView::PersistSettings]);
                assert(effects_view(fx@) =~= command_step(v, t@, stamp@).unwrap().1);
            }
            return Some(fx);
        }
        if same_text(cmd, "/part") {
            let target = if parts.len() >= 2 {
                assert(parts@[1]@ == command_parts(t@)[1]);
                parts[1].clone()
            } else {
                self.active_channel.clone()
            };
            let fx = vec![Effect::Dispatch(Input::PartChannel(target))];
            assert(effects_view(fx@) =~= command_step(v, t@, stamp@).unwrap().1);
            return Some(fx);
        }
        if same_text(cmd, "/clear") {
            let fx = vec![Effect::Dispatch(Input::ClearChannel(self.active_channel.clone()))];
            assert(effects_view(fx@) =~= command_step(v, t@, stamp@).unwrap().1);
            return Some(fx);
        }
        if same_text(cmd, "/help") {
            let channel = self.active_channel.clone();
            let fx = self.append_line(channel.as_str(), owned(help_text()), LineStyle::System);
            return Some(fx);
        }
        None
    }

    fn plain_message(&mut self, t: String, stamp: &str) -> (fx: Vec<Effect>)
        requires
            old(self).wf(),
        ensures
            final(self).wf(),
            (final(self)@, effects_view(fx@)) == plain_message_step(old(self)@, t@, stamp@),
    {
        let ghost v = self@;
        if same_text(self.active_channel.as_str(), "Server") {
            return self.append_line(
                "Server",
                concat(stamp, "[System]: Select a channel or DM before sending.\n"),
                LineStyle::System,
            );
        }
        if self.has_link {
            let line = concat(stamp, "<");
            let line = concat(line.as_str(), self.nickname.as_str());
            let line = concat(line.as_str(), "> ");
            let line = concat(line.as_str(), t.as_str());
            let line = concat(line.as_str(), "\n");
            let fx = vec![
                Effect::SendPrivmsgThenEcho { target: self.active_channel.clone(), body: t, line },
            ];
            assert(effects_view(fx@) =~= plain_message_step(v, t@, stamp@).1);
            return fx;
        }
        let channel = self.active_channel.clone();
        self.append_line(
            channel.as_str(),
            concat(stamp, "[System]: Cannot send message, not connected.\n"),
            LineStyle::System,
        )
    }

    fn send_message(&mut self, text: String, stamp: &str) -> (fx: Vec<Effect>)
        requires
            old(self).wf(),
        ensures
            final(self).wf(),
            (final(self)@, effects_view(fx@)) == send_step(old(self)@, trimmed(text@), stamp@),
    {
        let t = trim(text.as_str());
        if t.as_str().is_empty() {
            return Vec::new();
        }
        if starts_with_char(t.as_str(), '/') {
            match self.run_command(t.as_str(), stamp) {
                Some(fx) => {
                    return fx;
                },
                None => {},
            }
        }
        self.plain_message(t, stamp)
    }

    /// Applies one event and returns the effects to carry out; `stamp` is
    /// the time prefix of the lines it writes.
    pub fn update(&mut self, input: Input, stamp: &str) -> (fx: Vec<Effect>)
        requires
            old(self).wf(),
        ensures
            final(self).wf(),
            (final(self)@, effects_view(fx@)) == step(old(self)@, input@, stamp@),
    {
        let ghost v = self@;
        match input {
            Input::UpdateNickname(n) => {
                self.nickname = n;
                assert(self@ =~= step(v, input@, stamp@).0);
                Vec::new()
            },
            Input::UpdateServer(srv) => {
                self.server = srv;
                assert(self@ =~= step(v, input@, stamp@).0);
                Vec::new()
            },
            Input::UpdatePassword(pwd) => {
                self.password = pwd;
                assert(self@ =~= step(v, input@, stamp@).0);
                Vec::new()
            },
            Input::SaveSettings => {
                let fx = vec![Effect::PersistSettings];
                assert(effects_view(fx@) =~= seq![EffectView::PersistSettings]);
                fx
            },
            Input::Connect => self.connect(),
            Input::Disconnect => self.disconnect(stamp),
            Input::NetworkStatus(s) => self.network_status(s),
            Input::NetworkConnected => self.network_connected(stamp),
            Input::SelectChannel(channel) => {
                self.active_channel = channel;
                let fx = vec![Effect::ShowHistory, Effect::RefreshUsers, Effect::PersistSettings];
                assert(self@ =~= step(v, input@, stamp@).0);
                assert(effects_view(fx@) =~= step(v, input@, stamp@).1);
                fx
            },
            Input::JoinChannel(target) => self.join_channel(target),
            Input::PartChannel(channel) => self.part_channel(channel),
            Input::ClearChannel(channel) => self.clear_channel(channel),
            Input::ToggleFavorite(channel) => self.toggle_favorite(channel),
            Input::ToggleMute { channel, user } => self.toggle_mute(channel, user, stamp),
            Input::ReceiveMessage { channel, user, body } => self.receive_message(
                channel,
                user,
                body,
                stamp,
            ),
            Input::ReceiveServerMessage(body) => {
                let line = concat(stamp, body.as_str());
                let line = concat(line.as_str(), "\n");
                self.append_line("Server", line, LineStyle::System)
            },
            Input::BatchAddUsers { channel, users } => self.batch_add_users(channel, users),
            Input::UserJoined { channel, user } => self.user_joined(channel, user),
            Input::UserLeft { channel, user } => self.user_left(channel, user),
            Input::UserQuit { user } => self.user_quit(user),
            Input::JoinEntry(text) => join_entry(text.as_str()),
            Input::SendMessage(text) => self.send_message(text, stamp),
        }
    }
}

} // verus!
