//! Properties of the chat state that span several events.
use vstd::prelude::*;
use crate::channels::normalized;
use crate::order::{keyed, lowercase, sort_by_key, sorted_by_lowercase, text_le};
use crate::session::{
    app_wf, begins_with, command_parts, list_of, muted_in, server_tab, step, AppView, EffectView,
    InputView,
};
use crate::text::{joined, lemma_find_first, without};
use crate::channels::{default_names, default_table, is_default_name};
use crate::config::{
    config_body, key_values, lemma_settings_fields_round_trip, settings_from, splittable, survives_trim,
};
use crate::panels::{custom_channels, lemma_custom_channels, snapshot_of};
use crate::session::{add_missing, initial_view, lemma_add_missing};

verus! {

/// Joining a target lists it and makes it the active channel.
pub proof fn lemma_join_lists_and_activates(v: AppView, t: Seq<char>, stamp: Seq<char>)
    ensures
        step(v, InputView::JoinChannel(t), stamp).0.channels.contains(t),
        step(v, InputView::JoinChannel(t), stamp).0.active == t,
{
    if !v.channels.contains(t) {
        assert(v.channels.push(t)[v.channels.len() as int] == t);
    }
}

/// Leaving a channel that begins with `#` (never the server tab) unlists it
/// and forgets its history, users and mutes; the server tab stays listed,
/// and if it was active, the server tab becomes active.
pub proof fn lemma_part_forgets(v: AppView, c: Seq<char>, stamp: Seq<char>)
    requires
        app_wf(v),
        begins_with(c, '#'),
    ensures
        ({
            let w = step(v, InputView::PartChannel(c), stamp).0;
            &&& !w.channels.contains(c)
            &&& !w.histories.contains_key(c)
            &&& !w.users.contains_key(c)
            &&& !w.muted.contains_key(c)
            &&& w.channels.contains(server_tab())
            &&& (v.active == c ==> w.active == server_tab())
        }),
{
    reveal_strlit("Server");
    assert(c != server_tab()) by {
        assert(server_tab()[0] == 'S');
    }
    crate::text::lemma_without_contains(v.channels, c, c);
    crate::text::lemma_without_contains(v.channels, c, server_tab());
}

/// Toggling a favorite flips whether the channel is a favorite, so toggling
/// twice restores it.
pub proof fn lemma_toggle_favorite_flips(v: AppView, c: Seq<char>, stamp: Seq<char>)
    ensures
        step(v, InputView::ToggleFavorite(c), stamp).0.favorites.contains(c)
            == !v.favorites.contains(c),
        ({
            let w = step(v, InputView::ToggleFavorite(c), stamp).0;
            step(w, InputView::ToggleFavorite(c), stamp).0.favorites.contains(c)
                == v.favorites.contains(c)
        }),
{
    crate::text::lemma_without_contains(v.favorites, c, c);
    assert(v.favorites.push(c)[v.favorites.len() as int] == c);
    let w = step(v, InputView::ToggleFavorite(c), stamp).0;
    crate::text::lemma_without_contains(w.favorites, c, c);
    assert(w.favorites.push(c)[w.favorites.len() as int] == c);
}

/// The list of the sorted names holds the same names, and their lowercase
/// forms never go down.
pub proof fn lemma_sorted_by_lowercase(names: Seq<Seq<char>>)
    ensures
        sorted_by_lowercase(names).to_multiset() == names.to_multiset(),
        forall|i: int, j: int|
            0 <= i < j < sorted_by_lowercase(names).len() ==> text_le(
                lowercase(#[trigger] sorted_by_lowercase(names)[i]),
                lowercase(#[trigger] sorted_by_lowercase(names)[j]),
            ),
    decreases names.len(),
{
    let s = sort_by_key(keyed(names));
    crate::order::lemma_sort_by_key(keyed(names));
    lemma_sorted_keys_match(names);
    let r = sorted_by_lowercase(names);
    assert forall|i: int, j: int| 0 <= i < j < r.len() implies text_le(
        lowercase(#[trigger] r[i]),
        lowercase(#[trigger] r[j]),
    ) by {
        assert(r[i] == s[i].1 && r[j] == s[j].1);
        assert(s[i].0 == lowercase(s[i].1));
        assert(s[j].0 == lowercase(s[j].1));
    }
    lemma_sorted_same_names(names);
}

/// Each pair of the sorted list keeps the lowercase form of its name as key.
proof fn lemma_sorted_keys_match(names: Seq<Seq<char>>)
    ensures
        sort_by_key(keyed(names)).len() == names.len(),
        forall|i: int|
            0 <= i < names.len() ==> (#[trigger] sort_by_key(keyed(names))[i]).0 == lowercase(
                sort_by_key(keyed(names))[i].1,
            ),
    decreases names.len(),
{
    if names.len() > 0 {
        let init = names.drop_last();
        lemma_sorted_keys_match(init);
        assert(keyed(names).drop_last() =~= keyed(init));
        let l = sort_by_key(keyed(init));
        let x = keyed(names).last();
        let p = crate::order::insert_pos(l, x.0) as int;
        crate::order::lemma_sort_by_key(keyed(init));
        crate::order::lemma_sort_by_key(keyed(names));
        assert(p <= l.len()) by {
            lemma_insert_pos_le(l, x.0);
        }
        assert forall|i: int| 0 <= i < names.len() implies (#[trigger] sort_by_key(keyed(names))[i]).0
            == lowercase(sort_by_key(keyed(names))[i].1) by {
            let r = l.insert(p, x);
            if i < p {
                assert(r[i] == l[i]);
            } else if i > p {
                assert(r[i] == l[i - 1]);
            }
        }
    }
}

proof fn lemma_insert_pos_le(l: Seq<(Seq<char>, Seq<char>)>, k: Seq<char>)
    ensures
        crate::order::insert_pos(l, k) <= l.len(),
    decreases l.len(),
{
    if l.len() > 0 {
        lemma_insert_pos_le(l.skip(1), k);
    }
}

proof fn lemma_sorted_same_names(names: Seq<Seq<char>>)
    ensures
        sorted_by_lowercase(names).to_multiset() == names.to_multiset(),
    decreases names.len(),
{
    if names.len() == 0 {
        assert(sorted_by_lowercase(names) =~= names);
    } else {
        let init = names.drop_last();
        lemma_sorted_same_names(init);
        assert(keyed(names).drop_last() =~= keyed(init));
        let l = sort_by_key(keyed(init));
        let x = keyed(names).last();
        let p = crate::order::insert_pos(l, x.0) as int;
        lemma_insert_pos_le(l, x.0);
        let proj = l.map_values(|q: (Seq<char>, Seq<char>)| q.1);
        assert(sorted_by_lowercase(names) =~= proj.insert(p, names.last()));
        assert(sorted_by_lowercase(init) =~= proj);
        assert(init.push(names.last()) =~= names);
        vstd::seq_lib::to_multiset_insert(proj, p, names.last());
        vstd::seq_lib::to_multiset_build(init, names.last());
    }
}

/// A muted user's messages change nothing and draw nothing.
pub proof fn lemma_muted_messages_dropped(
    v: AppView,
    channel: Seq<char>,
    user: Seq<char>,
    body: Seq<char>,
    stamp: Seq<char>,
)
    requires
        muted_in(v, channel, user),
    ensures
        step(v, InputView::ReceiveMessage { channel, user, body }, stamp) == (
            v,
            Seq::<EffectView>::empty(),
        ),
{
}

/// Muting a user that is not muted makes them muted; unmuting a muted user
/// leaves no entry of them in the channel's list.
pub proof fn lemma_toggle_mute_flips(v: AppView, channel: Seq<char>, user: Seq<char>, stamp: Seq<char>)
    ensures
        ({
            let list = crate::session::list_of(v.muted, channel);
            let w = step(v, InputView::ToggleMute { channel, user }, stamp).0;
            &&& w.muted.contains_key(channel)
            &&& w.muted[channel].contains(user) == !list.contains(user)
        }),
{
    let list = crate::session::list_of(v.muted, channel);
    crate::text::lemma_without_contains(list, user, user);
    if !list.contains(user) {
        lemma_sorted_by_lowercase(list.push(user));
        assert(list.push(user)[list.len() as int] == user);
        vstd::seq_lib::to_multiset_contains(list.push(user), user);
        let r = sorted_by_lowercase(list.push(user));
        vstd::seq_lib::to_multiset_contains(r, user);
    }
}

proof fn lemma_command_two_parts(k: Seq<char>, w: Seq<char>)
    requires
        !k.contains(' '),
        !w.contains(' '),
    ensures
        command_parts(k + seq![' '] + w) == seq![k, w],
{
    let t = k + seq![' '] + w;
    assert forall|j: int| 0 <= j < k.len() implies t[j] != ' ' by {
        assert(t[j] == k[j]);
    }
    lemma_find_first(t, ' ', k.len() as int);
    let rest = t.skip(k.len() as int + 1);
    assert(rest =~= w);
    lemma_find_first(rest, ' ', rest.len() as int);
    assert(t.take(k.len() as int) =~= k);
}

/// The three ways to join a channel agree: for a channel name `c` (beginning
/// with `#`, without spaces or outer whitespace), typing `c` in the join box,
/// `/join c` or `/j c` in the message box all join `c`; and the `#` is
/// optional after `/join` and `/j`.
pub proof fn lemma_join_forms(v: AppView, w: Seq<char>, stamp: Seq<char>)
    requires
        w.len() > 0,
        !w.contains(' '),
        crate::text::no_outer_ws(w),
    ensures
        ({
            let c = normalized(w);
            let joins = (v, seq![EffectView::Dispatch(InputView::JoinChannel(c))]);
            &&& step(v, InputView::SendMessage("/join"@ + seq![' '] + w), stamp) == joins
            &&& step(v, InputView::SendMessage("/j"@ + seq![' '] + w), stamp) == joins
            &&& (begins_with(w, '#') ==> c == w && step(v, InputView::JoinEntry(w), stamp) == joins)
            &&& (!crate::channels::channel_prefix(w[0]) ==> c == seq!['#'] + w)
        }),
{
    reveal_strlit("/join");
    reveal_strlit("/j");
    reveal_strlit("/msg");
    reveal_strlit("/query");
    crate::text::lemma_no_outer_ws_trimmed(w);
    let t1 = "/join"@ + seq![' '] + w;
    let t2 = "/j"@ + seq![' '] + w;
    assert(t1.last() == w.last());
    assert(t2.last() == w.last());
    crate::text::lemma_no_outer_ws_trimmed(t1);
    crate::text::lemma_no_outer_ws_trimmed(t2);
    lemma_command_two_parts("/join"@, w);
    lemma_command_two_parts("/j"@, w);
    assert(command_parts(t1)[0] == "/join"@);
    assert(command_parts(t2)[0] == "/j"@);
}

/// The channels are joined at most once per connection, and with a NickServ
/// password not before NickServ confirms the login.
pub proof fn lemma_join_once(
    s: crate::network::LinkSession,
    ev: crate::network::IrcEventView,
)
    ensures
        s.channels_joined ==> !crate::network::joins_now(s, ev),
        s.needs_nickserv && crate::network::joins_now(s, ev) ==> match ev {
            crate::network::IrcEventView::Notice { .. } => true,
            crate::network::IrcEventView::Response { code, .. } => code
                == crate::network::ServerReply::LoggedIn,
            _ => false,
        },
{
}

/// Connecting does nothing unless offline; disconnecting does nothing
/// without a connection, and afterwards the client is offline.
pub proof fn lemma_connect_disconnect(v: AppView, stamp: Seq<char>)
    ensures
        v.connection != crate::session::ConnectionState::Offline ==> step(
            v,
            InputView::Connect,
            stamp,
        ) == (v, Seq::<EffectView>::empty()),
        !v.has_link ==> step(v, InputView::Disconnect, stamp) == (v, Seq::<EffectView>::empty()),
        v.has_link ==> step(v, InputView::Disconnect, stamp).0.connection
            == crate::session::ConnectionState::Offline && !step(
            v,
            InputView::Disconnect,
            stamp,
        ).0.has_link,
{
}

/// All channels the sections list, in section order.
pub open spec fn listed(secs: Seq<crate::panels::SectionView>) -> Seq<Seq<char>>
    decreases secs.len(),
{
    if secs.len() == 0 {
        seq![]
    } else {
        listed(secs.drop_last()) + secs.last().channels
    }
}

proof fn lemma_listed_concat(a: Seq<crate::panels::SectionView>, b: Seq<crate::panels::SectionView>)
    ensures
        listed(a + b) == listed(a) + listed(b),
    decreases b.len(),
{
    if b.len() == 0 {
        assert(a + b =~= a);
        assert(listed(a) + listed(b) =~= listed(a));
    } else {
        lemma_listed_concat(a, b.drop_last());
        assert((a + b).drop_last() =~= a + b.drop_last());
        assert((a + b).last() == b.last());
        assert(listed(a) + listed(b) =~= listed(a) + listed(b.drop_last()) + b.last().channels);
    }
}

proof fn lemma_listed_section(label: Seq<char>, cs: Seq<Seq<char>>)
    ensures
        listed(crate::panels::section_if_any(label, cs)) == cs,
{
    let one = crate::panels::section_if_any(label, cs);
    if cs.len() > 0 {
        assert(one.drop_last() =~= Seq::<crate::panels::SectionView>::empty());
        assert(listed(one.drop_last()) =~= Seq::<Seq<char>>::empty());
        assert(one.last().channels == cs);
        assert(Seq::<Seq<char>>::empty() + cs =~= cs);
    } else {
        assert(one.len() == 0);
        assert(cs =~= Seq::<Seq<char>>::empty());
    }
}

proof fn lemma_groups_partition(v: AppView, cs: Seq<Seq<char>>)
    ensures
        cs.to_multiset() == crate::panels::keep(cs, |ch: Seq<char>| crate::panels::group_of(v, ch) == 0).to_multiset().add(
            crate::panels::keep(cs, |ch: Seq<char>| crate::panels::group_of(v, ch) == 1).to_multiset(),
        ).add(crate::panels::keep(cs, |ch: Seq<char>| crate::panels::group_of(v, ch) == 2).to_multiset()).add(
            crate::panels::keep(cs, |ch: Seq<char>| crate::panels::group_of(v, ch) == 3).to_multiset(),
        ),
    decreases cs.len(),
{
    broadcast use vstd::seq_lib::to_multiset_build, vstd::multiset::group_multiset_axioms;

    if cs.len() == 0 {
        broadcast use vstd::seq_lib::to_multiset_contains;

        assert(cs.to_multiset() =~= vstd::multiset::Multiset::empty());
    } else {
        lemma_groups_partition(v, cs.drop_last());
        assert(cs.drop_last().push(cs.last()) =~= cs);
        let g = crate::panels::group_of(v, cs.last());
        assert(0 <= g <= 3);
        let m0 = crate::panels::keep(cs.drop_last(), |ch: Seq<char>| crate::panels::group_of(v, ch) == 0).to_multiset();
        let m1 = crate::panels::keep(cs.drop_last(), |ch: Seq<char>| crate::panels::group_of(v, ch) == 1).to_multiset();
        let m2 = crate::panels::keep(cs.drop_last(), |ch: Seq<char>| crate::panels::group_of(v, ch) == 2).to_multiset();
        let m3 = crate::panels::keep(cs.drop_last(), |ch: Seq<char>| crate::panels::group_of(v, ch) == 3).to_multiset();
        let x = cs.last();
        if g == 0 {
            assert(m0.insert(x).add(m1).add(m2).add(m3) =~= m0.add(m1).add(m2).add(m3).insert(x));
        } else if g == 1 {
            assert(m0.add(m1.insert(x)).add(m2).add(m3) =~= m0.add(m1).add(m2).add(m3).insert(x));
        } else if g == 2 {
            assert(m0.add(m1).add(m2.insert(x)).add(m3) =~= m0.add(m1).add(m2).add(m3).insert(x));
        } else {
            assert(m0.add(m1).add(m2).add(m3.insert(x)) =~= m0.add(m1).add(m2).add(m3).insert(x));
        }
    }
}

/// The grouped channel list shows every listed channel exactly as often as
/// it is listed: the sections together are a reordering of the channels.
pub proof fn lemma_sections_cover(v: AppView)
    ensures
        listed(crate::panels::sections(v)).to_multiset() == v.channels.to_multiset(),
{
    broadcast use vstd::seq_lib::lemma_multiset_commutative;

    let g0 = crate::panels::group(v, 0);
    let g1 = crate::panels::group(v, 1);
    let g2 = crate::panels::group(v, 2);
    let g3 = crate::panels::group(v, 3);
    let s0 = crate::panels::section_if_any("★ Favorites"@, g0);
    let s1 = crate::panels::section_if_any(crate::channels::community_heading(crate::channels::Community::Rocky), sorted_by_lowercase(g1));
    let s2 = crate::panels::section_if_any(crate::channels::community_heading(crate::channels::Community::Fedora), sorted_by_lowercase(g2));
    let s3 = crate::panels::section_if_any("Other"@, sorted_by_lowercase(g3));
    lemma_listed_concat(s0, s1);
    lemma_listed_concat(s0 + s1, s2);
    lemma_listed_concat(s0 + s1 + s2, s3);
    lemma_listed_section("★ Favorites"@, g0);
    lemma_listed_section(crate::channels::community_heading(crate::channels::Community::Rocky), sorted_by_lowercase(g1));
    lemma_listed_section(crate::channels::community_heading(crate::channels::Community::Fedora), sorted_by_lowercase(g2));
    lemma_listed_section("Other"@, sorted_by_lowercase(g3));
    lemma_sorted_by_lowercase(g1);
    lemma_sorted_by_lowercase(g2);
    lemma_sorted_by_lowercase(g3);
    lemma_groups_partition(v, v.channels);
    let l = g0 + sorted_by_lowercase(g1) + sorted_by_lowercase(g2) + sorted_by_lowercase(g3);
    assert(listed(crate::panels::sections(v)) == l);
    assert(l.to_multiset() =~= g0.to_multiset().add(sorted_by_lowercase(g1).to_multiset()).add(
        sorted_by_lowercase(g2).to_multiset(),
    ).add(sorted_by_lowercase(g3).to_multiset()));
}

/// A channel's user list as the client keeps it: no name twice, and the
/// lowercase forms of the names never go down.
pub open spec fn user_list_ok(l: Seq<Seq<char>>) -> bool {
    &&& l.no_duplicates()
    &&& forall|i: int, j: int|
        0 <= i < j < l.len() ==> text_le(lowercase(#[trigger] l[i]), lowercase(#[trigger] l[j]))
}

/// Every channel's user list is kept as the client keeps it.
pub open spec fn user_lists_ok(m: Map<Seq<char>, Seq<Seq<char>>>) -> bool {
    forall|k: Seq<char>| #[trigger] m.contains_key(k) ==> user_list_ok(m[k])
}

/// Sorting a list without repeats by lowercase form keeps its names and
/// gives a list kept as the client keeps it.
proof fn lemma_sorted_list_ok(l: Seq<Seq<char>>)
    requires
        l.no_duplicates(),
    ensures
        user_list_ok(sorted_by_lowercase(l)),
        forall|x: Seq<char>| #[trigger] sorted_by_lowercase(l).contains(x) <==> l.contains(x),
{
    let r = sorted_by_lowercase(l);
    lemma_sorted_by_lowercase(l);
    l.lemma_multiset_has_no_duplicates();
    r.lemma_multiset_has_no_duplicates_conv();
    assert forall|x: Seq<char>| #[trigger] r.contains(x) <==> l.contains(x) by {
        vstd::seq_lib::to_multiset_contains(l, x);
        vstd::seq_lib::to_multiset_contains(r, x);
    }
}

/// Dropping a name from a list keeps it as the client keeps it.
proof fn lemma_without_ok(l: Seq<Seq<char>>, x: Seq<char>)
    requires
        user_list_ok(l),
    ensures
        user_list_ok(without(l, x)),
    decreases l.len(),
{
    crate::session::lemma_without_no_duplicates(l, x);
    if l.len() > 0 {
        let init = l.drop_last();
        let y = l.last();
        assert(user_list_ok(init)) by {
            assert forall|i: int, j: int| 0 <= i < init.len() && 0 <= j < init.len() && i != j
                implies init[i] != init[j] by {
                assert(init[i] == l[i] && init[j] == l[j]);
            }
            assert forall|i: int, j: int| 0 <= i < j < init.len() implies text_le(
                lowercase(#[trigger] init[i]),
                lowercase(#[trigger] init[j]),
            ) by {
                assert(init[i] == l[i] && init[j] == l[j]);
            }
        }
        lemma_without_ok(init, x);
        if y != x {
            let w = without(init, x);
            let r = w.push(y);
            assert forall|i: int, j: int| 0 <= i < j < r.len() implies text_le(
                lowercase(#[trigger] r[i]),
                lowercase(#[trigger] r[j]),
            ) by {
                assert(r[i] == w[i]);
                if j < w.len() {
                    assert(r[j] == w[j]);
                } else {
                    assert(w.contains(w[i]));
                    crate::text::lemma_without_contains(init, x, w[i]);
                    let k = choose|k: int| 0 <= k < init.len() && init[k] == w[i];
                    assert(l[k] == init[k]);
                    assert(r[j] == l[l.len() - 1]);
                }
            }
        }
    }
}

/// Every event keeps each channel's user list free of repeats and sorted by
/// the lowercase forms of the names. A batch of names gives a list that holds
/// exactly the names that were listed or are in the batch; a user who joins
/// is listed, and one who leaves is no longer listed, the others staying.
pub proof fn lemma_user_lists_kept(v: AppView, input: InputView, stamp: Seq<char>)
    requires
        user_lists_ok(v.users),
    ensures
        user_lists_ok(step(v, input, stamp).0.users),
        match input {
            InputView::BatchAddUsers { channel, users } => forall|x: Seq<char>|
                #[trigger] list_of(step(v, input, stamp).0.users, channel).contains(x) <==> list_of(
                    v.users,
                    channel,
                ).contains(x) || users.contains(x),
            InputView::UserJoined { channel, user } => forall|x: Seq<char>|
                #[trigger] list_of(step(v, input, stamp).0.users, channel).contains(x) <==> list_of(
                    v.users,
                    channel,
                ).contains(x) || x == user,
            InputView::UserLeft { channel, user } => forall|x: Seq<char>|
                #[trigger] list_of(step(v, input, stamp).0.users, channel).contains(x) <==> list_of(
                    v.users,
                    channel,
                ).contains(x) && x != user,
            _ => true,
        },
{
    let w = step(v, input, stamp).0;
    match input {
        InputView::BatchAddUsers { channel, users } => {
            let old_list = list_of(v.users, channel);
            assert(user_list_ok(old_list));
            let added = crate::session::add_missing(old_list, users);
            crate::session::lemma_add_missing(old_list, users);
            lemma_sorted_list_ok(added);
            assert(w.users == v.users.insert(channel, sorted_by_lowercase(added)));
            assert forall|x: Seq<char>| #[trigger] list_of(w.users, channel).contains(x) <==> (
            old_list.contains(x) || users.contains(x)) by {
                assert(sorted_by_lowercase(added).contains(x) <==> added.contains(x));
                assert(added.contains(x) <==> old_list.contains(x) || users.contains(x));
            }
        },
        InputView::UserJoined { channel, user } => {
            let old_list = list_of(v.users, channel);
            assert(user_list_ok(old_list));
            if !old_list.contains(user) {
                crate::session::lemma_push_no_duplicates(old_list, user);
                lemma_sorted_list_ok(old_list.push(user));
                assert forall|x: Seq<char>| #[trigger] list_of(w.users, channel).contains(x) <==> (
                old_list.contains(x) || x == user) by {
                    assert(sorted_by_lowercase(old_list.push(user)).contains(x)
                        <==> old_list.push(user).contains(x));
                    if old_list.push(user).contains(x) && x != user {
                        let k = choose|k: int|
                            0 <= k < old_list.len() + 1 && old_list.push(user)[k] == x;
                        assert(old_list[k] == x);
                    }
                    if x == user {
                        assert(old_list.push(user)[old_list.len() as int] == x);
                    }
                }
            }
        },
        InputView::UserLeft { channel, user } => {
            if v.users.contains_key(channel) {
                lemma_without_ok(v.users[channel], user);
                assert forall|x: Seq<char>| #[trigger] list_of(w.users, channel).contains(x) <==> (
                list_of(v.users, channel).contains(x) && x != user) by {
                    crate::text::lemma_without_contains(v.users[channel], user, x);
                }
            }
        },
        InputView::UserQuit { user } => {
            assert forall|k: Seq<char>| #[trigger] w.users.contains_key(k) implies user_list_ok(
                w.users[k],
            ) by {
                lemma_without_ok(v.users[k], user);
            }
        },
        InputView::PartChannel(c) => {},
        _ => {
            lemma_users_unchanged(v, input, stamp);
        },
    }
}

/// The events other than those on user lists and leaving a channel leave
/// every user list as it was.
proof fn lemma_users_unchanged(v: AppView, input: InputView, stamp: Seq<char>)
    requires
        !(input is BatchAddUsers || input is UserJoined || input is UserLeft || input is UserQuit
            || input is PartChannel),
    ensures
        step(v, input, stamp).0.users == v.users,
{
}

/// Custom channels are remembered between sessions: the settings that the
/// state `v` saves, written to the settings file and read back at the next
/// start, list the server tab, the default channels and then each custom
/// channel of `v` once, in order, so every channel listed in `v` is listed
/// again. This holds when the custom channels, joined with `|`, neither start
/// nor end with whitespace other than a newline and none is empty or holds
/// `|`. The active channel is active again when it was listed, is not empty,
/// and neither starts nor ends with such whitespace.
pub proof fn lemma_channels_remembered(v: AppView)
    requires
        survives_trim(joined(custom_channels(v.channels), '|')),
        splittable(custom_channels(v.channels)),
    ensures
        ({
            let w = initial_view(settings_from(key_values(config_body(snapshot_of(v)))));
            &&& w.channels == add_missing(
                seq![server_tab()] + default_names(),
                custom_channels(v.channels),
            )
            &&& forall|c: Seq<char>| v.channels.contains(c) ==> #[trigger] w.channels.contains(c)
            &&& survives_trim(v.active) && v.active.len() > 0 && v.channels.contains(v.active)
                ==> w.active == v.active
        }),
{
    let s = snapshot_of(v);
    lemma_settings_fields_round_trip(s);
    let base = seq![server_tab()] + default_names();
    let w = initial_view(settings_from(key_values(config_body(s))));
    lemma_add_missing(base, custom_channels(v.channels));
    assert forall|c: Seq<char>| v.channels.contains(c) implies #[trigger] w.channels.contains(c) by {
        lemma_custom_channels(v.channels, c);
        if c == server_tab() {
            assert(base[0] == c);
        } else if is_default_name(c) {
            let k = choose|k: int|
                0 <= k < default_table().len() && #[trigger] default_table()[k].name@ == c;
            assert(base[k + 1] == c);
        }
    }
    let r = settings_from(key_values(config_body(s)));
    assert(r.extra_channels == custom_channels(v.channels));
    assert(w.channels == add_missing(base, custom_channels(v.channels)));
    if survives_trim(v.active) && v.active.len() > 0 && v.channels.contains(v.active) {
        assert(r.last_channel == v.active);
        assert(w.channels.contains(v.active));
        assert(crate::session::initial_channels(r) == w.channels);
    }
}

/// `/part` leaves the channel it names: for a word `w` without spaces or
/// outer whitespace, `/part w` asks only to leave `w`, whatever channel is
/// active; `/part` alone asks to leave the active channel. Neither changes
/// the state by itself.
pub proof fn lemma_part_command(v: AppView, w: Seq<char>, stamp: Seq<char>)
    requires
        w.len() > 0,
        !w.contains(' '),
        crate::text::no_outer_ws(w),
    ensures
        step(v, InputView::SendMessage("/part"@ + seq![' '] + w), stamp) == (
            v,
            seq![EffectView::Dispatch(InputView::PartChannel(w))],
        ),
        step(v, InputView::SendMessage("/part"@), stamp) == (
            v,
            seq![EffectView::Dispatch(InputView::PartChannel(v.active))],
        ),
{
    reveal_strlit("/part");
    reveal_strlit("/join");
    reveal_strlit("/j");
    reveal_strlit("/msg");
    reveal_strlit("/query");
    reveal_strlit("/nick");
    let k = "/part"@;
    let t = k + seq![' '] + w;
    assert(t.last() == w.last());
    crate::text::lemma_no_outer_ws_trimmed(t);
    lemma_command_two_parts(k, w);
    assert(command_parts(t)[0] == k);
    assert(k.len() == 5 && k[1] == 'p');
    assert(k != "/join"@ && k != "/j"@ && k != "/msg"@ && k != "/query"@ && k != "/nick"@) by {
        assert("/join"@[1] == 'j');
        assert("/j"@.len() == 2);
        assert("/msg"@.len() == 4);
        assert("/query"@.len() == 6);
        assert("/nick"@[1] == 'n');
    }
    crate::text::lemma_no_outer_ws_trimmed(k);
    assert forall|j: int| 0 <= j < k.len() implies k[j] != ' ' by {}
    lemma_find_first(k, ' ', k.len() as int);
    assert(command_parts(k) == seq![k]);
}

/// When the connection ends ("Disconnected") or fails (a status beginning
/// with "Connection failed"), the client goes offline, holds no link and
/// drops it; any other status report only changes the status text.
pub proof fn lemma_status_reports(v: AppView, s: Seq<char>, stamp: Seq<char>)
    ensures
        (s == "Disconnected"@ || "Connection failed"@.is_prefix_of(s)) ==> ({
            let (w, fx) = step(v, InputView::NetworkStatus(s), stamp);
            &&& w.connection == crate::session::ConnectionState::Offline
            &&& !w.has_link
            &&& w.status == s
            &&& w.channels == v.channels && w.active == v.active && w.histories == v.histories
            &&& fx == seq![EffectView::DropLink]
        }),
        !(s == "Disconnected"@ || "Connection failed"@.is_prefix_of(s)) ==> step(
            v,
            InputView::NetworkStatus(s),
            stamp,
        ) == (AppView { status: s, ..v }, Seq::<EffectView>::empty()),
{
    let f = "Connection failed"@;
    if f.is_prefix_of(s) {
        assert(s.take(f.len() as int) =~= f);
    }
    if f.len() <= s.len() && s.take(f.len() as int) == f {
        assert(f =~= s.subrange(0, f.len() as int));
    }
}

/// A user's PART touches only the channel it names: the session turns it
/// into that user leaving that channel's list, then a line saying so; and
/// the user leaving a channel's list leaves every other channel's list as it
/// was.
pub proof fn lemma_part_event(
    ls: crate::network::LinkSession,
    u: Seq<char>,
    channel: Seq<char>,
    v: AppView,
    stamp: Seq<char>,
)
    ensures
        crate::network::reaction(ls, u, crate::network::IrcEventView::Part { channel }) == seq![
            crate::network::NetActionView::Deliver(InputView::UserLeft { channel, user: u }),
            crate::network::NetActionView::Deliver(
                InputView::ReceiveMessage { channel, user: "System"@, body: u + " left."@ },
            ),
        ],
        forall|k: Seq<char>|
            k != channel ==> #[trigger] list_of(
                step(v, InputView::UserLeft { channel, user: u }, stamp).0.users,
                k,
            ) == list_of(v.users, k),
        forall|x: Seq<char>|
            #[trigger] list_of(
                step(v, InputView::UserLeft { channel, user: u }, stamp).0.users,
                channel,
            ).contains(x) <==> list_of(v.users, channel).contains(x) && x != u,
{
    assert forall|x: Seq<char>|
        #[trigger] list_of(
            step(v, InputView::UserLeft { channel, user: u }, stamp).0.users,
            channel,
        ).contains(x) <==> list_of(v.users, channel).contains(x) && x != u by {
        if v.users.contains_key(channel) {
            crate::text::lemma_without_contains(v.users[channel], u, x);
        }
    }
}

/// Starting from saved settings keeps every saved connection detail: the
/// password always, the nickname and server when they are set, and the
/// favorites when there are any; the client starts offline and unlinked.
pub proof fn lemma_start_keeps_settings(s: crate::config::SettingsView)
    ensures
        initial_view(s).password == s.password,
        s.nickname.len() > 0 ==> initial_view(s).nickname == s.nickname,
        s.server.len() > 0 ==> initial_view(s).server == s.server,
        s.favorites.len() > 0 ==> initial_view(s).favorites == s.favorites,
        initial_view(s).connection == crate::session::ConnectionState::Offline,
        !initial_view(s).has_link,
{
}

/// Each row of the user list shows one user of the active channel, in the
/// list's order, and is marked muted exactly when that user's nickname
/// (status marks dropped) is in the active channel's muted list.
pub proof fn lemma_user_rows(v: AppView)
    ensures
        crate::panels::user_rows_of(v).len() == list_of(v.users, v.active).len(),
        forall|i: int|
            0 <= i < list_of(v.users, v.active).len() ==> {
                let u = list_of(v.users, v.active)[i];
                &&& (#[trigger] crate::panels::user_rows_of(v)[i]).0 == u
                &&& crate::panels::user_rows_of(v)[i].2 == (v.muted.contains_key(v.active)
                    && v.muted[v.active].contains(crate::session::stripped_nick(u)))
            },
{
}

/// Muting a user in the active channel marks that user's rows muted: the
/// list of users stays as it was, and every row whose nickname is the user
/// is shown muted.
pub proof fn lemma_mute_marks_rows(v: AppView, u: Seq<char>, stamp: Seq<char>)
    requires
        !list_of(v.muted, v.active).contains(u),
    ensures
        ({
            let w = step(v, InputView::ToggleMute { channel: v.active, user: u }, stamp).0;
            &&& list_of(w.users, w.active) == list_of(v.users, v.active)
            &&& forall|i: int|
                0 <= i < crate::panels::user_rows_of(w).len() && crate::session::stripped_nick(
                    list_of(w.users, w.active)[i],
                ) == u ==> (#[trigger] crate::panels::user_rows_of(w)[i]).2
        }),
{
    lemma_toggle_mute_flips(v, v.active, u, stamp);
    lemma_user_rows(step(v, InputView::ToggleMute { channel: v.active, user: u }, stamp).0);
}

/// The other messages of a channel's members: a JOIN lists the user in the
/// channel it names, a QUIT takes the user out of every list, and a private
/// message to our nickname is shown in a chat named after its sender, while
/// one to a channel is shown in that channel.
pub proof fn lemma_member_events(
    ls: crate::network::LinkSession,
    u: Seq<char>,
    channel: Seq<char>,
    body: Seq<char>,
)
    ensures
        crate::network::reaction(ls, u, crate::network::IrcEventView::Join { channel })[0]
            == crate::network::NetActionView::Deliver(InputView::UserJoined { channel, user: u }),
        crate::network::reaction(ls, u, crate::network::IrcEventView::Quit) == seq![
            crate::network::NetActionView::Deliver(InputView::UserQuit { user: u }),
        ],
        crate::network::reaction(
            ls,
            u,
            crate::network::IrcEventView::Privmsg { target: ls.nickname@, body },
        ) == seq![
            crate::network::NetActionView::Deliver(
                InputView::ReceiveMessage { channel: u, user: u, body },
            ),
        ],
        channel != ls.nickname@ ==> crate::network::reaction(
            ls,
            u,
            crate::network::IrcEventView::Privmsg { target: channel, body },
        ) == seq![
            crate::network::NetActionView::Deliver(
                InputView::ReceiveMessage { channel, user: u, body },
            ),
        ],
{
}

/// `/clear` asks to clear the active channel, and clearing a channel empties
/// its history only, blanking the view when it is the active one.
pub proof fn lemma_clear_command(v: AppView, c: Seq<char>, stamp: Seq<char>)
    ensures
        step(v, InputView::SendMessage("/clear"@), stamp) == (
            v,
            seq![EffectView::Dispatch(InputView::ClearChannel(v.active))],
        ),
        ({
            let (w, fx) = step(v, InputView::ClearChannel(c), stamp);
            &&& w.histories.contains_key(c) && w.histories[c].len() == 0
            &&& forall|k: Seq<char>|
                k != c ==> #[trigger] w.histories.contains_key(k) == v.histories.contains_key(k)
                    && (v.histories.contains_key(k) ==> w.histories[k] == v.histories[k])
            &&& w.channels == v.channels && w.users == v.users && w.active == v.active
            &&& fx == (if v.active == c {
                seq![EffectView::ClearView]
            } else {
                Seq::<EffectView>::empty()
            })
        }),
{
    reveal_strlit("/clear");
    reveal_strlit("/part");
    reveal_strlit("/join");
    reveal_strlit("/j");
    reveal_strlit("/msg");
    reveal_strlit("/query");
    reveal_strlit("/nick");
    let k = "/clear"@;
    crate::text::lemma_no_outer_ws_trimmed(k);
    lemma_find_first(k, ' ', k.len() as int);
    assert(command_parts(k) == seq![k]);
    assert(k != "/join"@ && k != "/j"@ && k != "/msg"@ && k != "/query"@ && k != "/nick"@
        && k != "/part"@) by {
        assert(k[1] == 'c');
        assert("/join"@[1] == 'j');
        assert("/j"@[1] == 'j');
        assert("/msg"@[1] == 'm');
        assert("/query"@[1] == 'q');
        assert("/nick"@[1] == 'n');
        assert("/part"@[1] == 'p');
    }
}

/// `/nick w` renames us locally to `w`: the nickname becomes `w`, the other
/// settings stay, and the settings are saved.
pub proof fn lemma_nick_command(v: AppView, w: Seq<char>, stamp: Seq<char>)
    requires
        w.len() > 0,
        !w.contains(' '),
        crate::text::no_outer_ws(w),
    ensures
        ({
            let (u, fx) = step(v, InputView::SendMessage("/nick"@ + seq![' '] + w), stamp);
            &&& u.nickname == w
            &&& u.server == v.server && u.password == v.password && u.channels == v.channels
                && u.favorites == v.favorites && u.active == v.active
            &&& fx.len() > 0 && fx[0] == EffectView::PersistSettings
        }),
{
    reveal_strlit("/nick");
    reveal_strlit("/join");
    reveal_strlit("/j");
    reveal_strlit("/msg");
    reveal_strlit("/query");
    let k = "/nick"@;
    let t = k + seq![' '] + w;
    assert(t.last() == w.last());
    crate::text::lemma_no_outer_ws_trimmed(t);
    lemma_command_two_parts(k, w);
    assert(command_parts(t)[0] == k);
    assert(k != "/join"@ && k != "/j"@ && k != "/msg"@ && k != "/query"@) by {
        assert(k[1] == 'n');
        assert("/join"@[1] == 'j');
        assert("/j"@[1] == 'j');
        assert("/msg"@[1] == 'm');
        assert("/query"@[1] == 'q');
    }
}

} // verus!
