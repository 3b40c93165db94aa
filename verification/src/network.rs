//! The connection's side: how the client connects, and what each message from
//! the server turns into (events for the chat state, channel joins once
//! logged in).
use vstd::prelude::*;
use crate::session::{Input, InputView};
use crate::text::{
    concat, decimal, decimal_text, fields, join_from, joined, occurs_in, owned, same_text,
    separator, split_fields, starts_with_char, texts, contains_text,
};

verus! {

/// The TLS port of Libera.Chat.
pub open spec fn irc_port() -> u16 {
    6697
}

/// How to open a connection.
pub struct ConnectionPlan {
    pub nickname: String,
    pub server: String,
    pub port: u16,
    pub use_tls: bool,
    /// The NickServ password, only when one was given.
    pub nick_password: Option<String>,
}

/// The connection details for a nickname, server and password: TLS on port
/// 6697, NickServ only with a non-empty password.
pub fn connection_plan(nickname: &str, server: &str, password: &str) -> (p: ConnectionPlan)
    ensures
        p.nickname@ == nickname@,
        p.server@ == server@,
        p.port == irc_port(),
        p.use_tls,
        p.nick_password is Some <==> password@.len() > 0,
        p.nick_password matches Some(pw) ==> pw@ == password@,
{
    ConnectionPlan {
        nickname: owned(nickname),
        server: owned(server),
        port: 6697,
        use_tls: true,
        nick_password: if password.is_empty() {
            None
        } else {
            Some(owned(password))
        },
    }
}

/// The numeric replies the client tells apart.
#[derive(Clone, Copy, Debug, PartialEq, Eq, Structural)]
pub enum ServerReply {
    LoggedIn,
    EndOfMotd,
    NoMotd,
    NamReply,
    Other,
}

/// A message from the server, as far as the client reads it.
pub enum IrcEvent {
    Privmsg { target: String, body: String },
    Join { channel: String },
    Part { channel: String },
    Quit,
    Notice { body: String },
    /// A numeric reply: its kind, its name as the server library spells it,
    /// and its arguments.
    Response { code: ServerReply, name: String, args: Vec<String> },
    Other,
}

/// An `IrcEvent` with its strings taken as texts.
pub enum IrcEventView {
    Privmsg { target: Seq<char>, body: Seq<char> },
    Join { channel: Seq<char> },
    Part { channel: Seq<char> },
    Quit,
    Notice { body: Seq<char> },
    Response { code: ServerReply, name: Seq<char>, args: Seq<Seq<char>> },
    Other,
}

impl View for IrcEvent {
    type V = IrcEventView;

    open spec fn view(&self) -> IrcEventView {
        match self {
            IrcEvent::Privmsg { target, body } => IrcEventView::Privmsg {
                target: target@,
                body: body@,
            },
            IrcEvent::Join { channel } => IrcEventView::Join { channel: channel@ },
            IrcEvent::Part { channel } => IrcEventView::Part { channel: channel@ },
            IrcEvent::Quit => IrcEventView::Quit,
            IrcEvent::Notice { body } => IrcEventView::Notice { body: body@ },
            IrcEvent::Response { code, name, args } => IrcEventView::Response {
                code: *code,
                name: name@,
                args: texts(args@),
            },
            IrcEvent::Other => IrcEventView::Other,
        }
    }
}

/// What the connection must do for one server message.
pub enum NetAction {
    /// Hand an event to the chat state.
    Deliver(Input),
    /// Send JOIN for a channel.
    SendJoin(String),
}

/// A `NetAction` with its strings taken as texts.
pub enum NetActionView {
    Deliver(InputView),
    SendJoin(Seq<char>),
}

impl View for NetAction {
    type V = NetActionView;

    open spec fn view(&self) -> NetActionView {
        match self {
            NetAction::Deliver(i) => NetActionView::Deliver(i@),
            NetAction::SendJoin(c) => NetActionView::SendJoin(c@),
        }
    }
}

/// The views of a list of actions.
pub open spec fn actions_view(a: Seq<NetAction>) -> Seq<NetActionView> {
    a.map_values(|x: NetAction| x@)
}

/// One open connection: who we are, whether we log in with NickServ, and
/// whether the listed channels have been joined yet.
pub struct LinkSession {
    pub nickname: String,
    pub needs_nickserv: bool,
    pub channels_joined: bool,
    pub channels_to_join: Vec<String>,
}

/// A JOIN for each listed channel, then a note of how many, when there are any.
pub open spec fn join_actions(channels: Seq<Seq<char>>) -> Seq<NetActionView> {
    channels.map_values(|c: Seq<char>| NetActionView::SendJoin(c)) + if channels.len() > 0 {
        seq![
            NetActionView::Deliver(
                InputView::ReceiveServerMessage(
                    "[System]: Joining "@ + decimal(channels.len()) + " channel(s)."@,
                ),
            ),
        ]
    } else {
        seq![]
    }
}

/// The first argument that begins with `#`.
pub open spec fn first_channel_arg(args: Seq<Seq<char>>) -> Option<Seq<char>>
    decreases args.len(),
{
    if args.len() == 0 {
        None
    } else if args[0].len() > 0 && args[0][0] == '#' {
        Some(args[0])
    } else {
        first_channel_arg(args.skip(1))
    }
}

/// Whether the channels get joined on this message: once, after NickServ
/// confirms the login, or after the message of the day when no NickServ
/// login is wanted.
pub open spec fn joins_now(s: LinkSession, ev: IrcEventView) -> bool {
    !s.channels_joined && match ev {
        IrcEventView::Notice { body } => s.needs_nickserv && occurs_in(
            body,
            "You are now identified"@,
        ),
        IrcEventView::Response { code, .. } => code == ServerReply::LoggedIn || (!s.needs_nickserv
            && (code == ServerReply::EndOfMotd || code == ServerReply::NoMotd)),
        _ => false,
    }
}

/// The actions for one server message; `user` is the sender's nickname.
pub open spec fn reaction(s: LinkSession, user: Seq<char>, ev: IrcEventView) -> Seq<NetActionView> {
    let joins = if joins_now(s, ev) {
        join_actions(texts(s.channels_to_join@))
    } else {
        seq![]
    };
    match ev {
        IrcEventView::Privmsg { target, body } => seq![
            NetActionView::Deliver(
                InputView::ReceiveMessage {
                    channel: if target == s.nickname@ {
                        user
                    } else {
                        target
                    },
                    user,
                    body,
                },
            ),
        ],
        IrcEventView::Join { channel } => seq![
            NetActionView::Deliver(InputView::UserJoined { channel, user }),
            NetActionView::Deliver(
                InputView::ReceiveMessage {
                    channel,
                    user: "System"@,
                    body: user + " joined."@,
                },
            ),
        ],
        IrcEventView::Part { channel } => seq![
            NetActionView::Deliver(InputView::UserLeft { channel, user }),
            NetActionView::Deliver(
                InputView::ReceiveMessage { channel, user: "System"@, body: user + " left."@ },
            ),
        ],
        IrcEventView::Quit => seq![NetActionView::Deliver(InputView::UserQuit { user })],
        IrcEventView::Notice { body } => seq![
            NetActionView::Deliver(InputView::ReceiveServerMessage("[Notice]: "@ + body)),
        ] + joins,
        IrcEventView::Response { code, name, args } => joins + if code == ServerReply::NamReply
            && args.len() >= 4 {
            seq![
                NetActionView::Deliver(
                    InputView::BatchAddUsers {
                        channel: match first_channel_arg(args) {
                            Some(c) => c,
                            None => args[2],
                        },
                        users: fields(args.last(), separator(None)),
                    },
                ),
            ]
        } else if args.len() > 1 {
            seq![
                NetActionView::Deliver(
                    InputView::ReceiveServerMessage(
                        "["@ + name + "]: "@ + joined(args.skip(1), ' '),
                    ),
                ),
            ]
        } else {
            seq![]
        },
        IrcEventView::Other => seq![],
    }
}

/// The name shown for a message without a sender.
pub open spec fn sender_name(source: Option<Seq<char>>) -> Seq<char> {
    match source {
        Some(n) => n,
        None => "Unknown"@,
    }
}

fn join_all(channels: &Vec<String>) -> (a: Vec<NetAction>)
    ensures
        actions_view(a@) == join_actions(texts(channels@)),
{
    let mut a: Vec<NetAction> = Vec::new();
    let mut i: usize = 0;
    while i < channels.len()
        invariant
            i <= channels.len(),
            actions_view(a@) == texts(channels@).take(i as int).map_values(
                |c: Seq<char>| NetActionView::SendJoin(c),
            ),
        decreases channels.len() - i,
    {
        let ghost prev = a@;
        a.push(NetAction::SendJoin(channels[i].clone()));
        assert(actions_view(a@) =~= actions_view(prev).push(
            NetActionView::SendJoin(channels@[i as int]@),
        ));
        assert(texts(channels@).take(i + 1) =~= texts(channels@).take(i as int).push(
            channels@[i as int]@,
        ));
        assert(actions_view(a@) =~= texts(channels@).take(i + 1).map_values(
            |c: Seq<char>| NetActionView::SendJoin(c),
        ));
        i += 1;
    }
    assert(texts(channels@).take(channels.len() as int) =~= texts(channels@));
    let ghost sends = a@;
    if channels.len() > 0 {
        let note = concat("[System]: Joining ", decimal_text(channels.len()).as_str());
        let note = concat(note.as_str(), " channel(s).");
        a.push(NetAction::Deliver(Input::ReceiveServerMessage(note)));
    }
    assert(actions_view(a@) =~= join_actions(texts(channels@)));
    a
}

fn channel_arg(args: &Vec<String>) -> (r: Option<String>)
    ensures
        match r {
            Some(c) => first_channel_arg(texts(args@)) == Some(c@),
            None => first_channel_arg(texts(args@)) is None,
        },
{
    let ghost t = texts(args@);
    let mut i: usize = 0;
    assert(t.skip(0) =~= t);
    while i < args.len()
        invariant
            t == texts(args@),
            i <= args.len(),
            first_channel_arg(t) == first_channel_arg(t.skip(i as int)),
        decreases args.len() - i,
    {
        assert(t.skip(i as int)[0] == args@[i as int]@);
        if starts_with_char(args[i].as_str(), '#') {
            return Some(args[i].clone());
        }
        assert(t.skip(i as int).skip(1) =~= t.skip(i + 1));
        i += 1;
    }
    None
}

impl LinkSession {
    /// A new connection for `nickname`; a non-empty password means a
    /// NickServ login.
    pub fn new(nickname: String, password: &str, channels_to_join: Vec<String>) -> (s: LinkSession)
        ensures
            s.nickname@ == nickname@,
            s.needs_nickserv == (password@.len() > 0),
            !s.channels_joined,
            texts(s.channels_to_join@) == texts(channels_to_join@),
    {
        LinkSession {
            nickname,
            needs_nickserv: !password.is_empty(),
            channels_joined: false,
            channels_to_join,
        }
    }

    /// The actions for one message from the server; `source` is the
    /// sender's nickname when the message has one.
    pub fn on_message(&mut self, source: Option<String>, event: IrcEvent) -> (a: Vec<NetAction>)
        ensures
            final(self).nickname == old(self).nickname,
            final(self).needs_nickserv == old(self).needs_nickserv,
            final(self).channels_to_join == old(self).channels_to_join,
            final(self).channels_joined == (old(self).channels_joined || joins_now(
                *old(self),
                event@,
            )),
            actions_view(a@) == reaction(
                *old(self),
                sender_name(
                    match source {
                        Some(n) => Some(n@),
                        None => None,
                    },
                ),
                event@,
            ),
    {
        let ghost s0 = *self;
        let ghost ev = event@;
        let user = match source {
            Some(n) => n,
            None => owned("Unknown"),
        };
        let ghost u = user@;
        let mut a: Vec<NetAction> = Vec::new();
        match event {
            IrcEvent::Privmsg { target, body } => {
                let channel = if same_text(target.as_str(), self.nickname.as_str()) {
                    user.clone()
                } else {
                    target
                };
                a.push(NetAction::Deliver(Input::ReceiveMessage { channel, user, body }));
            },
            IrcEvent::Join { channel } => {
                let note = concat(user.as_str(), " joined.");
                a.push(
                    NetAction::Deliver(
                        Input::UserJoined { channel: channel.clone(), user: user.clone() },
                    ),
                );
                a.push(
                    NetAction::Deliver(
                        Input::ReceiveMessage { channel, user: owned("System"), body: note },
                    ),
                );
            },
            IrcEvent::Part { channel } => {
                let note = concat(user.as_str(), " left.");
                a.push(
                    NetAction::Deliver(
                        Input::UserLeft { channel: channel.clone(), user: user.clone() },
                    ),
                );
                a.push(
                    NetAction::Deliver(
                        Input::ReceiveMessage { channel, user: owned("System"), body: note },
                    ),
                );
            },
            IrcEvent::Quit => {
                a.push(NetAction::Deliver(Input::UserQuit { user }));
            },
            IrcEvent::Notice { body } => {
                let identified = contains_text(body.as_str(), "You are now identified");
                a.push(
                    NetAction::Deliver(
                        Input::ReceiveServerMessage(concat("[Notice]: ", body.as_str())),
                    ),
                );
                if self.needs_nickserv && !self.channels_joined && identified {
                    self.channels_joined = true;
                    let ghost before = a@;
                    let mut joins = join_all(&self.channels_to_join);
                    let ghost j = joins@;
                    a.append(&mut joins);
                    assert(actions_view(before + j) =~= actions_view(before) + actions_view(j));
                }
            },
            IrcEvent::Response { code, name, args } => {
                if !self.channels_joined {
                    let now = match code {
                        ServerReply::LoggedIn => true,
                        ServerReply::EndOfMotd | ServerReply::NoMotd => !self.needs_nickserv,
                        _ => false,
                    };
                    if now {
                        self.channels_joined = true;
                        a = join_all(&self.channels_to_join);
                    }
                }
                let ghost before = a@;
                if code == ServerReply::NamReply && args.len() >= 4 {
                    let channel = match channel_arg(&args) {
                        Some(c) => c,
                        None => args[2].clone(),
                    };
                    let users = split_fields(args[args.len() - 1].as_str(), None);
                    assert(texts(args@).last() == args@[args.len() - 1]@);
                    a.push(NetAction::Deliver(Input::BatchAddUsers { channel, users }));
                } else if args.len() > 1 {
                    let line = concat("[", name.as_str());
                    let line = concat(line.as_str(), "]: ");
                    let rest = join_from(&args, 1, ' ');
                    let line = concat(line.as_str(), rest.as_str());
                    a.push(NetAction::Deliver(Input::ReceiveServerMessage(line)));
                }
            },
            IrcEvent::Other => {},
        }
        assert(actions_view(a@) =~= reaction(
            s0,
            sender_name(
                match source {
                    Some(n) => Some(n@),
                    None => None,
                },
            ),
            ev,
        ));
        a
    }
}

/// The status reported when the connection cannot be opened.
pub fn connect_failed(error: &str) -> (i: Input)
    ensures
        i@ == InputView::NetworkStatus("Connection failed: "@ + error@),
{
    Input::NetworkStatus(concat("Connection failed: ", error))
}

/// The status reported when the NickServ login cannot be sent.
pub fn identify_failed(error: &str) -> (i: Input)
    ensures
        i@ == InputView::NetworkStatus("NickServ auth failed: "@ + error@),
{
    Input::NetworkStatus(concat("NickServ auth failed: ", error))
}

/// The line reported for a broken message from the server.
pub fn stream_error(error: &str) -> (i: Input)
    ensures
        i@ == InputView::ReceiveServerMessage("[Error]: "@ + error@),
{
    Input::ReceiveServerMessage(concat("[Error]: ", error))
}

/// The events when the server closes the connection.
pub fn connection_closed() -> (v: Vec<Input>)
    ensures
        v@.len() == 2,
        v@[0]@ == InputView::NetworkStatus("Disconnected"@),
        v@[1]@ == InputView::ReceiveServerMessage("[System]: Connection closed."@),
{
    vec![
        Input::NetworkStatus(owned("Disconnected")),
        Input::ReceiveServerMessage(owned("[System]: Connection closed.")),
    ]
}

} // verus!
