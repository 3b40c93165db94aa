//! The community channels the client knows, and the rules that tell a
//! channel from a nickname in what the user types.
use vstd::prelude::*;
use crate::text::{
    concat, is_ws, lemma_trimmed_idempotent, lemma_trimmed_shape, no_outer_ws, owned,
    same_text, starts_with_char, texts, trim, trimmed,
};

verus! {

/// The community a default channel belongs to.
#[derive(Clone, Copy, Debug, PartialEq, Eq, Hash, Structural)]
pub enum Community {
    Rocky,
    Fedora,
}

/// A default channel: its name, what it is for, and its community.
#[derive(Clone, Copy, Debug)]
pub struct ChannelDef {
    pub name: &'static str,
    pub description: &'static str,
    pub community: Community,
}

/// The default channels on Libera.Chat, in the order the client lists them.
pub open spec fn default_table() -> Seq<ChannelDef> {
    seq![
        ChannelDef {
            name: "#rockylinux",
            description: "General Rocky Linux support and discussion",
            community: Community::Rocky,
        },
        ChannelDef {
            name: "#rockylinux-devel",
            description: "Rocky Linux development and release engineering",
            community: Community::Rocky,
        },
        ChannelDef {
            name: "#rockylinux-social",
            description: "Off-topic and social chat for the Rocky community",
            community: Community::Rocky,
        },
        ChannelDef {
            name: "#fedora",
            description: "General Fedora support and discussion",
            community: Community::Fedora,
        },
        ChannelDef {
            name: "#fedora-devel",
            description: "Fedora development, packaging, and infrastructure",
            community: Community::Fedora,
        },
        ChannelDef {
            name: "#rhel-devel",
            description: "RHEL development and enterprise Linux engineering",
            community: Community::Fedora,
        },
    ]
}

/// The names of the default channels, in order.
pub open spec fn default_names() -> Seq<Seq<char>> {
    default_table().map_values(|d: ChannelDef| d.name@)
}

/// Whether `name` is the name of a default channel.
pub open spec fn is_default_name(name: Seq<char>) -> bool {
    exists|i: int| 0 <= i < default_table().len() && #[trigger] default_table()[i].name@ == name
}

/// The default channels (the table `DEFAULT_CHANNELS`).
pub fn default_channels() -> (v: Vec<ChannelDef>)
    ensures
        v@ == default_table(),
{
    let v = vec![
        ChannelDef {
            name: "#rockylinux",
            description: "General Rocky Linux support and discussion",
            community: Community::Rocky,
        },
        ChannelDef {
            name: "#rockylinux-devel",
            description: "Rocky Linux development and release engineering",
            community: Community::Rocky,
        },
        ChannelDef {
            name: "#rockylinux-social",
            description: "Off-topic and social chat for the Rocky community",
            community: Community::Rocky,
        },
        ChannelDef {
            name: "#fedora",
            description: "General Fedora support and discussion",
            community: Community::Fedora,
        },
        ChannelDef {
            name: "#fedora-devel",
            description: "Fedora development, packaging, and infrastructure",
            community: Community::Fedora,
        },
        ChannelDef {
            name: "#rhel-devel",
            description: "RHEL development and enterprise Linux engineering",
            community: Community::Fedora,
        },
    ];
    assert(v@ =~= default_table());
    v
}

/// The order in which communities are shown (the table `COMMUNITY_ORDER`).
pub fn community_order() -> (v: Vec<Community>)
    ensures
        v@ == seq![Community::Rocky, Community::Fedora],
{
    let v = vec![Community::Rocky, Community::Fedora];
    assert(v@ =~= seq![Community::Rocky, Community::Fedora]);
    v
}

/// The names of the default channels, in order.
pub fn default_channel_names() -> (names: Vec<String>)
    ensures
        texts(names@) == default_names(),
{
    let table = default_channels();
    let mut names: Vec<String> = Vec::new();
    let mut i: usize = 0;
    while i < table.len()
        invariant
            table@ == default_table(),
            i <= table.len(),
            texts(names@) == default_names().take(i as int),
        decreases table.len() - i,
    {
        let ghost prev = texts(names@);
        names.push(owned(table[i].name));
        assert(texts(names@) =~= prev.push(table@[i as int].name@));
        assert(default_names().take(i + 1) =~= default_names().take(i as int).push(
            default_table()[i as int].name@,
        ));
        i += 1;
    }
    assert(default_names().take(6) =~= default_names());
    names
}

/// The default channel named `name`, if there is one.
pub fn channel_info(name: &str) -> (r: Option<ChannelDef>)
    ensures
        match r {
            Some(d) => default_table().contains(d) && d.name@ == name@,
            None => !is_default_name(name@),
        },
{
    let table = default_channels();
    let mut i: usize = 0;
    while i < table.len()
        invariant
            table@ == default_table(),
            i <= table.len(),
            forall|j: int| 0 <= j < i ==> default_table()[j].name@ != name@,
        decreases table.len() - i,
    {
        if same_text(table[i].name, name) {
            assert(default_table()[i as int] == table@[i as int]);
            return Some(table[i]);
        }
        i += 1;
    }
    None
}

/// The community of the default channel named `name`, if there is one.
pub open spec fn default_community(name: Seq<char>) -> Option<Community> {
    if is_default_name(name) {
        Some(
            default_table()[choose|i: int|
                0 <= i < default_table().len() && #[trigger] default_table()[i].name@
                    == name].community,
        )
    } else {
        None
    }
}

/// The community of the default channel named `name`, if there is one.
pub fn community_for(name: &str) -> (r: Option<Community>)
    ensures
        r == default_community(name@),
{
    match channel_info(name) {
        Some(d) => {
            proof {
                lemma_default_names_are_distinct_channels();
                let k = choose|k: int| 0 <= k < default_table().len() && default_table()[k] == d;
                assert(default_table()[k].name@ == name@);
                let j = choose|i: int|
                    0 <= i < default_table().len() && #[trigger] default_table()[i].name@
                        == name@;
                if j < k {
                    assert(default_table()[j].name@ != default_table()[k].name@);
                } else if k < j {
                    assert(default_table()[k].name@ != default_table()[j].name@);
                }
            }
            Some(d.community)
        },
        None => None,
    }
}

/// The heading under which a community's channels are listed.
pub open spec fn community_heading(c: Community) -> Seq<char> {
    match c {
        Community::Rocky => "Rocky Linux"@,
        Community::Fedora => "Fedora & RHEL"@,
    }
}

/// The style class of a community's channel buttons.
pub open spec fn community_class(c: Community) -> Seq<char> {
    match c {
        Community::Rocky => "channel-rocky"@,
        Community::Fedora => "channel-fedora"@,
    }
}

/// The heading under which a community's channels are listed.
pub fn community_label(community: Community) -> (s: &'static str)
    ensures
        s@ == community_heading(community),
{
    match community {
        Community::Rocky => "Rocky Linux",
        Community::Fedora => "Fedora & RHEL",
    }
}

/// The style class of a community's channel buttons.
pub fn community_css_class(community: Community) -> (s: &'static str)
    ensures
        s@ == community_class(community),
{
    match community {
        Community::Rocky => "channel-rocky",
        Community::Fedora => "channel-fedora",
    }
}

/// What a line in the join box asks for.
#[derive(Debug, Clone, PartialEq, Eq)]
pub enum JoinTarget {
    Channel(String),
    DirectMessage(String),
}

/// The characters that begin an IRC channel name.
pub open spec fn channel_prefix(c: char) -> bool {
    c == '#' || c == '&' || c == '+' || c == '!'
}

/// Whether `name`, trimmed, begins like a channel name.
pub open spec fn names_channel(name: Seq<char>) -> bool {
    let t = trimmed(name);
    t.len() > 0 && channel_prefix(t[0])
}

/// `raw` trimmed, with `#` put in front unless it already names a channel;
/// empty when `raw` is only whitespace.
pub open spec fn normalized(raw: Seq<char>) -> Seq<char> {
    let t = trimmed(raw);
    if t.len() == 0 {
        t
    } else if channel_prefix(t[0]) {
        t
    } else {
        seq!['#'] + t
    }
}

/// Whether `name`, trimmed, begins with `#`, `&`, `+` or `!`.
pub fn is_channel_target(name: &str) -> (b: bool)
    ensures
        b == names_channel(name@),
{
    let t = trim(name);
    let s = t.as_str();
    starts_with_char(s, '#') || starts_with_char(s, '&') || starts_with_char(s, '+')
        || starts_with_char(s, '!')
}

/// The channel that `raw` names: trimmed, and with `#` in front unless it
/// already begins like a channel.
pub fn normalize_channel_name(raw: &str) -> (r: String)
    ensures
        r@ == normalized(raw@),
{
    let trimmed_text = trim(raw);
    if trimmed_text.as_str().is_empty() {
        return String::new();
    }
    proof {
        lemma_trimmed_idempotent(raw@);
        reveal_strlit("#");
    }
    if is_channel_target(trimmed_text.as_str()) {
        trimmed_text
    } else {
        concat("#", trimmed_text.as_str())
    }
}

/// The argument of `/join` (always taken as a channel): `None` when it is
/// blank, otherwise the normalized channel name.
pub fn parse_join_command(raw: &str) -> (r: Option<String>)
    ensures
        r is Some <==> trimmed(raw@).len() > 0,
        r matches Some(c) ==> c@ == normalized(raw@),
{
    let t = trim(raw);
    if t.as_str().is_empty() {
        None
    } else {
        proof {
            lemma_trimmed_idempotent(raw@);
        }
        Some(normalize_channel_name(t.as_str()))
    }
}

/// The sidebar join box: text that begins like a channel joins that channel,
/// other text opens a direct message; blank text asks for nothing.
pub fn parse_join_entry(raw: &str) -> (r: Option<JoinTarget>)
    ensures
        r is Some <==> trimmed(raw@).len() > 0,
        r matches Some(JoinTarget::Channel(c)) ==> names_channel(raw@) && c@ == trimmed(raw@),
        r matches Some(JoinTarget::DirectMessage(n)) ==> !names_channel(raw@) && n@ == trimmed(
            raw@,
        ),
{
    let t = trim(raw);
    if t.as_str().is_empty() {
        return None;
    }
    proof {
        lemma_trimmed_idempotent(raw@);
    }
    if is_channel_target(t.as_str()) {
        Some(JoinTarget::Channel(t))
    } else {
        Some(JoinTarget::DirectMessage(t))
    }
}

/// Every default channel name begins with `#`, so it is a channel target,
/// and no two default channels share a name.
pub proof fn lemma_default_names_are_distinct_channels()
    ensures
        forall|i: int|
            0 <= i < default_table().len() ==> (#[trigger] default_table()[i]).name@.len() > 0
                && default_table()[i].name@[0] == '#' && names_channel(default_table()[i].name@),
        forall|i: int, j: int|
            0 <= i < j < default_table().len() ==> (#[trigger] default_table()[i]).name@
                != (#[trigger] default_table()[j]).name@,
{
    reveal_strlit("#rockylinux");
    reveal_strlit("#rockylinux-devel");
    reveal_strlit("#rockylinux-social");
    reveal_strlit("#fedora");
    reveal_strlit("#fedora-devel");
    reveal_strlit("#rhel-devel");
    assert forall|i: int| 0 <= i < default_table().len() implies (#[trigger] default_table()[i]).name@.len() > 0
        && default_table()[i].name@[0] == '#' && names_channel(default_table()[i].name@) by {
        let n = default_table()[i].name@;
        assert(!is_ws(n[0]));
        assert(!is_ws(n.last()));
        crate::text::lemma_no_outer_ws_trimmed(n);
    }
    assert forall|i: int, j: int| 0 <= i < j < default_table().len() implies (#[trigger] default_table()[i]).name@
        != (#[trigger] default_table()[j]).name@ by {
        let a = default_table()[i].name@;
        let b = default_table()[j].name@;
        if a.len() == b.len() {
            assert(a[1] != b[1] || a[a.len() - 1] != b[b.len() - 1] || a[2] != b[2]);
        }
    }
}

/// A normalized name is empty exactly when the input is blank, and
/// otherwise names a channel; normalizing it again changes nothing.
pub proof fn lemma_normalized_names_channel(raw: Seq<char>)
    ensures
        (normalized(raw).len() == 0) == (trimmed(raw).len() == 0),
        normalized(raw).len() > 0 ==> names_channel(normalized(raw)),
        normalized(normalized(raw)) == normalized(raw),
{
    lemma_trimmed_shape(raw);
    let t = trimmed(raw);
    let n = normalized(raw);
    if t.len() > 0 {
        if channel_prefix(t[0]) {
            lemma_trimmed_idempotent(raw);
        } else {
            assert(n[0] == '#');
            assert(!is_ws(n[0]));
            assert(n.last() == t.last());
            assert(no_outer_ws(n));
            crate::text::lemma_no_outer_ws_trimmed(n);
        }
    }
}

/// What `/join` yields always names a channel.
pub proof fn lemma_join_command_names_channel(raw: Seq<char>)
    requires
        trimmed(raw).len() > 0,
    ensures
        names_channel(normalized(raw)),
        normalized(raw).len() > 0,
{
    lemma_normalized_names_channel(raw);
}

} // verus!
