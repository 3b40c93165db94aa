//! What the window shows of the chat state: the grouped channel list, the
//! rows of the channel and user lists, the chat styles, the time prefix and
//! the status labels.
use vstd::prelude::*;
use crate::channels::{
    channel_info, community_class, community_css_class, community_for, community_heading,
    community_label, default_community, default_table, is_default_name, Community,
};
use crate::config::{Settings, SettingsView};
use crate::order::{sort_by_lowercase, sorted_by_lowercase};
use crate::session::{
    list_of, muted_in, normalized_nick, server_tab, stripped_nick, AppState, AppView,
    ConnectionState, LineStyle,
};
use crate::text::{
    concat, decimal, decimal_text, list_contains, owned, push_char, same_text, texts,
};

verus! {

/// The channels of `cs` that are neither the server tab nor a default
/// channel, in order: the custom channels that the settings keep.
pub open spec fn custom_channels(cs: Seq<Seq<char>>) -> Seq<Seq<char>> {
    cs.filter(|c: Seq<char>| c != server_tab() && !is_default_name(c))
}

/// A channel is among the custom channels of a list when it is listed and is
/// neither the server tab nor a default channel.
pub proof fn lemma_custom_channels(cs: Seq<Seq<char>>, c: Seq<char>)
    ensures
        custom_channels(cs).contains(c) <==> cs.contains(c) && c != server_tab()
            && !is_default_name(c),
    decreases cs.len(),
{
    reveal_with_fuel(Seq::<Seq<char>>::filter, 1);
    if cs.len() > 0 {
        let init = cs.drop_last();
        let y = cs.last();
        lemma_custom_channels(init, c);
        let f = custom_channels(init);
        if cs.contains(c) && c != y {
            let k = choose|k: int| 0 <= k < cs.len() && cs[k] == c;
            assert(init[k] == c);
        }
        if init.contains(c) {
            let k = choose|k: int| 0 <= k < init.len() && init[k] == c;
            assert(cs[k] == c);
        }
        if c == y {
            assert(cs[cs.len() - 1] == c);
        }
        if y != server_tab() && !is_default_name(y) {
            assert(custom_channels(cs) == f.push(y));
            if f.push(y).contains(c) && c != y {
                let k = choose|k: int| 0 <= k < f.len() + 1 && f.push(y)[k] == c;
                assert(f[k] == c);
            }
            if f.contains(c) {
                let k = choose|k: int| 0 <= k < f.len() && f[k] == c;
                assert(f.push(y)[k] == c);
            }
            if c == y {
                assert(f.push(y)[f.len() as int] == c);
            }
        }
    }
}

/// The settings that saving the state `v` writes.
pub open spec fn snapshot_of(v: AppView) -> SettingsView {
    SettingsView {
        nickname: v.nickname,
        server: v.server,
        password: v.password,
        favorites: v.favorites,
        extra_channels: custom_channels(v.channels),
        last_channel: v.active,
    }
}

/// The channels of `cs` that `p` accepts, in order.
pub open spec fn keep(cs: Seq<Seq<char>>, p: spec_fn(Seq<char>) -> bool) -> Seq<Seq<char>>
    decreases cs.len(),
{
    if cs.len() == 0 {
        cs
    } else if p(cs.last()) {
        keep(cs.drop_last(), p).push(cs.last())
    } else {
        keep(cs.drop_last(), p)
    }
}

/// Which group of the channel list a channel falls in: 0 for favorites,
/// 1 for the Rocky community, 2 for Fedora and RHEL, 3 for the rest.
pub open spec fn group_of(v: AppView, ch: Seq<char>) -> int {
    if v.favorites.contains(ch) {
        0
    } else {
        match default_community(ch) {
            Some(Community::Rocky) => 1,
            Some(Community::Fedora) => 2,
            None => 3,
        }
    }
}

/// The listed channels of group `g`, in listing order.
pub open spec fn group(v: AppView, g: int) -> Seq<Seq<char>> {
    keep(v.channels, |ch: Seq<char>| group_of(v, ch) == g)
}

/// One heading of the channel list and the channels under it.
pub struct ChannelSection {
    pub label: String,
    pub channels: Vec<String>,
}

/// A section as texts.
pub struct SectionView {
    pub label: Seq<char>,
    pub channels: Seq<Seq<char>>,
}

impl View for ChannelSection {
    type V = SectionView;

    open spec fn view(&self) -> SectionView {
        SectionView { label: self.label@, channels: texts(self.channels@) }
    }
}

/// A section with the given label when it has channels, none otherwise.
pub open spec fn section_if_any(label: Seq<char>, cs: Seq<Seq<char>>) -> Seq<SectionView> {
    if cs.len() > 0 {
        seq![SectionView { label, channels: cs }]
    } else {
        seq![]
    }
}

/// The channel list: favorites first in listing order, then each community
/// in the order Rocky, Fedora, then the rest, the last three sorted without
/// regard to case; empty groups are left out.
pub open spec fn sections(v: AppView) -> Seq<SectionView> {
    section_if_any("★ Favorites"@, group(v, 0)) + section_if_any(
        community_heading(Community::Rocky),
        sorted_by_lowercase(group(v, 1)),
    ) + section_if_any(community_heading(Community::Fedora), sorted_by_lowercase(group(v, 2)))
        + section_if_any("Other"@, sorted_by_lowercase(group(v, 3)))
}

/// The views of a list of sections.
pub open spec fn sections_view(s: Seq<ChannelSection>) -> Seq<SectionView> {
    s.map_values(|x: ChannelSection| x@)
}

fn push_section(out: &mut Vec<ChannelSection>, label: &str, cs: Vec<String>)
    ensures
        sections_view(final(out)@) == sections_view(old(out)@) + section_if_any(label@, texts(cs@)),
{
    let ghost before = sections_view(out@);
    if cs.len() > 0 {
        out.push(ChannelSection { label: owned(label), channels: cs });
        assert(sections_view(out@) =~= before + section_if_any(label@, texts(cs@)));
    } else {
        assert(before + section_if_any(label@, texts(cs@)) =~= before);
    }
}

/// A row of the channel list.
pub struct ChannelRow {
    pub is_favorite: bool,
    /// The description of a default channel.
    pub tooltip: Option<&'static str>,
    /// The community style of a default channel.
    pub css_class: Option<&'static str>,
    pub favorite_icon: &'static str,
    pub favorite_tooltip: &'static str,
    /// Whether the row offers to leave the channel.
    pub can_part: bool,
}

/// A row of the user list.
pub struct UserRow {
    /// The name as the server gave it.
    pub label: String,
    /// The name without status marks: what a click opens a chat with.
    pub nick: String,
    pub muted: bool,
}

/// The rows of the user list: the active channel's users, each with its
/// nickname and whether it is muted.
pub open spec fn user_rows_of(v: AppView) -> Seq<(Seq<char>, Seq<char>, bool)> {
    list_of(v.users, v.active).map_values(
        |u: Seq<char>| (u, stripped_nick(u), muted_in(v, v.active, u)),
    )
}

/// The color names of a chat style: its tag name, foreground and background.
pub struct TagStyle {
    pub name: &'static str,
    pub foreground: &'static str,
    pub background: Option<&'static str>,
}

/// The foreground color of a style.
pub open spec fn foreground_of(style: LineStyle) -> Seq<char> {
    match style {
        LineStyle::Normal => "#ebdbb2"@,
        LineStyle::SelfMsg => "#10B981"@,
        LineStyle::System => "#928374"@,
        LineStyle::Mention => "#fe8019"@,
    }
}

/// The tag of a chat style; only mentions have a background.
pub fn tag_style(style: LineStyle) -> (t: TagStyle)
    ensures
        t.name@ == crate::session::style_name(style),
        t.foreground@ == foreground_of(style),
        t.background is Some <==> style == LineStyle::Mention,
        t.background matches Some(b) ==> b@ == "#3c3836"@,
{
    match style {
        LineStyle::Normal => TagStyle { name: "normal", foreground: "#ebdbb2", background: None },
        LineStyle::SelfMsg => TagStyle {
            name: "self-msg",
            foreground: "#10B981",
            background: None,
        },
        LineStyle::System => TagStyle { name: "system", foreground: "#928374", background: None },
        LineStyle::Mention => TagStyle {
            name: "mention",
            foreground: "#fe8019",
            background: Some("#3c3836"),
        },
    }
}

/// The chat styles, in the order their tags are set up.
pub fn line_styles() -> (v: Vec<LineStyle>)
    ensures
        v@ == seq![LineStyle::Normal, LineStyle::SelfMsg, LineStyle::System, LineStyle::Mention],
{
    let v = vec![LineStyle::Normal, LineStyle::SelfMsg, LineStyle::System, LineStyle::Mention];
    assert(v@ =~= seq![LineStyle::Normal, LineStyle::SelfMsg, LineStyle::System, LineStyle::Mention]);
    v
}

/// A number in at least two digits, with a leading zero below ten.
pub open spec fn two_digits(n: nat) -> Seq<char> {
    if n < 10 {
        seq!['0'] + decimal(n)
    } else {
        decimal(n)
    }
}

/// The prefix of a chat line: `[HH:MM] ` from the local hour and minute,
/// or `[??:??] ` when the local time is unknown.
pub open spec fn stamp_text(clock: Option<(u32, u32)>) -> Seq<char> {
    match clock {
        Some((h, m)) => seq!['['] + two_digits(h as nat) + seq![':'] + two_digits(m as nat)
            + seq![']', ' '],
        None => "[??:??] "@,
    }
}

fn two_digit_text(n: u32) -> (r: String)
    ensures
        r@ == two_digits(n as nat),
{
    let d = decimal_text(n as usize);
    if n < 10 {
        let mut r = String::new();
        push_char(&mut r, '0');
        let r = concat(r.as_str(), d.as_str());
        assert(r@ =~= seq!['0'] + decimal(n as nat));
        r
    } else {
        d
    }
}

/// The prefix of a chat line written at the given local hour and minute.
pub fn timestamp_prefix(clock: Option<(u32, u32)>) -> (r: String)
    ensures
        r@ == stamp_text(clock),
{
    match clock {
        Some((h, m)) => {
            let mut r = String::new();
            push_char(&mut r, '[');
            let hh = two_digit_text(h);
            let mut r = concat(r.as_str(), hh.as_str());
            push_char(&mut r, ':');
            let mm = two_digit_text(m);
            let mut r = concat(r.as_str(), mm.as_str());
            push_char(&mut r, ']');
            push_char(&mut r, ' ');
            assert(r@ =~= stamp_text(clock));
            r
        },
        None => owned("[??:??] "),
    }
}

/// The style class of the status label.
pub open spec fn status_class(c: ConnectionState) -> Seq<char> {
    match c {
        ConnectionState::Connected => "status-connected"@,
        ConnectionState::Connecting => "status-connecting"@,
        ConnectionState::Offline => "status-offline"@,
    }
}

/// The style class of the status label.
pub fn status_css_class(c: ConnectionState) -> (s: &'static str)
    ensures
        s@ == status_class(c),
{
    match c {
        ConnectionState::Connected => "status-connected",
        ConnectionState::Connecting => "status-connecting",
        ConnectionState::Offline => "status-offline",
    }
}

impl AppState {
    /// The listed channels of group `g` (see `group_of`), in listing order.
    fn group_list(&self, g: u8) -> (r: Vec<String>)
        requires
            g <= 3,
        ensures
            texts(r@) == group(self@, g as int),
    {
        let ghost v = self@;
        let ghost p = |ch: Seq<char>| group_of(v, ch) == g as int;
        let mut r: Vec<String> = Vec::new();
        let mut i: usize = 0;
        while i < self.channels.len()
            invariant
                v == self@,
                p == (|ch: Seq<char>| group_of(v, ch) == g as int),
                i <= self.channels.len(),
                texts(r@) == keep(texts(self.channels@).take(i as int), p),
            decreases self.channels.len() - i,
        {
            let ch = self.channels[i].as_str();
            assert(texts(self.channels@).take(i + 1).drop_last() =~= texts(self.channels@).take(
                i as int,
            ));
            assert(texts(self.channels@).take(i + 1).last() == ch@);
            let which: u8 = if list_contains(&self.favorite_channels, ch) {
                0
            } else {
                match community_for(ch) {
                    Some(Community::Rocky) => 1,
                    Some(Community::Fedora) => 2,
                    None => 3,
                }
            };
            assert(which as int == group_of(v, ch@));
            if which == g {
                let ghost prev = texts(r@);
                r.push(self.channels[i].clone());
                assert(texts(r@) =~= prev.push(ch@));
            }
            i += 1;
        }
        assert(texts(self.channels@).take(self.channels.len() as int) =~= texts(self.channels@));
        r
    }

    /// The sections of the channel list.
    pub fn channel_sections(&self) -> (r: Vec<ChannelSection>)
        ensures
            sections_view(r@) == sections(self@),
    {
        let mut r: Vec<ChannelSection> = Vec::new();
        assert(sections_view(r@) =~= Seq::<SectionView>::empty());
        let favorites = self.group_list(0);
        push_section(&mut r, "★ Favorites", favorites);
        let rocky = sort_by_lowercase(&self.group_list(1));
        push_section(&mut r, community_label(Community::Rocky), rocky);
        let fedora = sort_by_lowercase(&self.group_list(2));
        push_section(&mut r, community_label(Community::Fedora), fedora);
        let others = sort_by_lowercase(&self.group_list(3));
        push_section(&mut r, "Other", others);
        assert(sections_view(r@) =~= sections(self@));
        r
    }

    /// The row of the channel list for `channel`.
    pub fn channel_row(&self, channel: &str) -> (row: ChannelRow)
        ensures
            row.is_favorite == self@.favorites.contains(channel@),
            row.favorite_icon@ == (if row.is_favorite {
                "★"@
            } else {
                "☆"@
            }),
            row.favorite_tooltip@ == (if row.is_favorite {
                "Remove from favorites"@
            } else {
                "Add to favorites"@
            }),
            row.tooltip is Some <==> crate::channels::is_default_name(channel@),
            row.css_class is Some <==> crate::channels::is_default_name(channel@),
            row.tooltip matches Some(t) ==> exists|i: int|
                0 <= i < default_table().len() && #[trigger] default_table()[i].name@ == channel@
                    && default_table()[i].description@ == t@,
            row.css_class matches Some(c) ==> c@ == community_class(
                default_community(channel@)->0,
            ),
            row.can_part == (channel@.len() > 0 && channel@[0] == '#'),
    {
        let is_favorite = list_contains(&self.favorite_channels, channel);
        let (tooltip, css_class) = match channel_info(channel) {
            Some(info) => {
                let c = community_for(channel);
                (Some(info.description), Some(community_css_class(c.unwrap())))
            },
            None => (None, None),
        };
        ChannelRow {
            is_favorite,
            tooltip,
            css_class,
            favorite_icon: if is_favorite {
                "★"
            } else {
                "☆"
            },
            favorite_tooltip: if is_favorite {
                "Remove from favorites"
            } else {
                "Add to favorites"
            },
            can_part: crate::text::starts_with_char(channel, '#'),
        }
    }

    /// The rows of the user list of the active channel.
    pub fn user_rows(&self) -> (rows: Vec<UserRow>)
        ensures
            rows@.len() == user_rows_of(self@).len(),
            forall|i: int|
                0 <= i < rows@.len() ==> ((#[trigger] rows@[i]).label@, rows@[i].nick@, rows@[i].muted)
                    == user_rows_of(self@)[i],
    {
        let mut rows: Vec<UserRow> = Vec::new();
        match self.channel_users.get(self.active_channel.as_str()) {
            Some(users) => {
                proof {
                    crate::channel_map::lemma_texts_deep_view(*users);
                }
                let mut i: usize = 0;
                while i < users.len()
                    invariant
                        texts(users@) == list_of(self@.users, self@.active),
                        i <= users.len(),
                        rows@.len() == i,
                        forall|j: int|
                            0 <= j < i ==> ((#[trigger] rows@[j]).label@, rows@[j].nick@, rows@[j].muted)
                                == user_rows_of(self@)[j],
                    decreases users.len() - i,
                {
                    let user = users[i].as_str();
                    assert(texts(users@)[i as int] == user@);
                    let nick = normalized_nick(user);
                    let muted = self.is_muted(self.active_channel.as_str(), user);
                    rows.push(UserRow { label: owned(user), nick, muted });
                    i += 1;
                }
            },
            None => {},
        }
        rows
    }

    /// The listed channels that are neither the server tab nor a default
    /// channel, in the order of the list.
    pub fn extra_channels(&self) -> (r: Vec<String>)
        ensures
            texts(r@) == custom_channels(self@.channels),
    {
        let ghost cs = texts(self.channels@);
        let mut r: Vec<String> = Vec::new();
        let mut i: usize = 0;
        while i < self.channels.len()
            invariant
                cs == texts(self.channels@),
                i <= self.channels.len(),
                texts(r@) == custom_channels(cs.take(i as int)),
            decreases self.channels.len() - i,
        {
            let c = self.channels[i].as_str();
            let info = channel_info(c);
            let custom = match info {
                Some(_) => false,
                None => !same_text(c, "Server"),
            };
            proof {
                reveal_with_fuel(Seq::<Seq<char>>::filter, 1);
                let pre = cs.take(i + 1);
                assert(pre.drop_last() =~= cs.take(i as int));
                assert(pre.last() == c@);
                match info {
                    Some(d) => {
                        let k = choose|k: int| 0 <= k < default_table().len() && default_table()[k] == d;
                        assert(default_table()[k].name@ == c@);
                    },
                    None => {},
                }
                assert(custom == (c@ != server_tab() && !is_default_name(c@)));
            }
            if custom {
                let ghost prev = texts(r@);
                r.push(self.channels[i].clone());
                assert(texts(r@) =~= prev.push(c@));
            }
            i += 1;
        }
        assert(cs.take(self.channels.len() as int) =~= cs);
        r
    }

    /// The settings to save: the connection details, the favorites, the
    /// custom channels and the active channel.
    pub fn settings_snapshot(&self) -> (s: Settings)
        ensures
            s@ == snapshot_of(self@),
    {
        Settings {
            nickname: self.nickname.clone(),
            server: self.server.clone(),
            password: self.password.clone(),
            favorites: self.favorite_channels.clone(),
            extra_channels: self.extra_channels(),
            last_channel: self.active_channel.clone(),
        }
    }

    /// The status label.
    pub fn status_label(&self) -> (s: String)
        ensures
            s@ == "Status: "@ + self@.status,
    {
        concat("Status: ", self.status.as_str())
    }

    /// The label above the chat.
    pub fn context_label(&self) -> (s: String)
        ensures
            s@ == "Active Context: "@ + self@.active,
    {
        concat("Active Context: ", self.active_channel.as_str())
    }
}

} // verus!
