//! The settings file: `key=value` lines whose values escape backslashes and
//! newlines, read back into the client's settings.
use vstd::prelude::*;
use crate::text::{
    chars_of, concat, fields, find_first, is_ws, join_from, joined, lemma_find_first, no_outer_ws,
    owned, pair_texts, push_char, same_text, separator, split_fields, split_scan, string_of_range,
    texts, trim, trimmed,
};

verus! {

/// How one character is written in the file.
pub open spec fn escaped_char(c: char) -> Seq<char> {
    if c == '\\' {
        seq!['\\', '\\']
    } else if c == '\n' {
        seq!['\\', 'n']
    } else {
        seq![c]
    }
}

/// `s` with each backslash doubled and each newline written as `\n`.
pub open spec fn escaped(s: Seq<char>) -> Seq<char>
    decreases s.len(),
{
    if s.len() == 0 {
        seq![]
    } else {
        escaped_char(s[0]) + escaped(s.skip(1))
    }
}

/// The reverse of `escaped`: `\\` gives a backslash, `\n` a newline; a
/// backslash before any other character, or at the end, is kept as it is.
pub open spec fn unescaped(s: Seq<char>) -> Seq<char>
    decreases s.len(),
{
    if s.len() == 0 {
        seq![]
    } else if s[0] == '\\' {
        if s.len() == 1 {
            seq!['\\']
        } else if s[1] == '\\' {
            seq!['\\'] + unescaped(s.skip(2))
        } else if s[1] == 'n' {
            seq!['\n'] + unescaped(s.skip(2))
        } else {
            seq!['\\', s[1]] + unescaped(s.skip(2))
        }
    } else {
        seq![s[0]] + unescaped(s.skip(1))
    }
}

/// `value` as written in the settings file.
pub fn escape_value(value: &str) -> (r: String)
    ensures
        r@ == escaped(value@),
{
    let v = chars_of(value);
    let mut r = String::new();
    let mut i: usize = 0;
    assert(v@.skip(0) =~= v@);
    while i < v.len()
        invariant
            v@ == value@,
            i <= v.len(),
            escaped(value@) == r@ + escaped(v@.skip(i as int)),
        decreases v.len() - i,
    {
        let c = v[i];
        assert(v@.skip(i as int).skip(1) =~= v@.skip(i + 1));
        assert(v@.skip(i as int)[0] == c);
        let ghost before = r@;
        if c == '\\' {
            push_char(&mut r, '\\');
            push_char(&mut r, '\\');
        } else if c == '\n' {
            push_char(&mut r, '\\');
            push_char(&mut r, 'n');
        } else {
            push_char(&mut r, c);
        }
        assert(r@ =~= before + escaped_char(c));
        assert(escaped(value@) =~= r@ + escaped(v@.skip(i + 1)));
        i += 1;
    }
    assert(r@ =~= r@ + escaped(v@.skip(v.len() as int)));
    r
}

/// A value read from the settings file, with its escapes undone.
pub fn unescape_value(value: &str) -> (r: String)
    ensures
        r@ == unescaped(value@),
{
    let v = chars_of(value);
    let n = v.len();
    let mut r = String::new();
    let mut i: usize = 0;
    assert(v@.skip(0) =~= v@);
    while i < n
        invariant
            v@ == value@,
            n == v.len(),
            i <= n,
            unescaped(value@) == r@ + unescaped(v@.skip(i as int)),
        decreases n - i,
    {
        let ghost rest = v@.skip(i as int);
        let ghost before = r@;
        let c = v[i];
        assert(rest[0] == c);
        if c == '\\' {
            if i + 1 < n {
                let d = v[i + 1];
                assert(rest[1] == d);
                assert(rest.skip(2) =~= v@.skip(i + 2));
                if d == '\\' {
                    push_char(&mut r, '\\');
                } else if d == 'n' {
                    push_char(&mut r, '\n');
                } else {
                    push_char(&mut r, '\\');
                    push_char(&mut r, d);
                }
                i += 2;
            } else {
                push_char(&mut r, '\\');
                assert(rest.len() == 1);
                i += 1;
                assert(v@.skip(i as int).len() == 0);
            }
        } else {
            push_char(&mut r, c);
            assert(rest.skip(1) =~= v@.skip(i + 1));
            i += 1;
        }
        assert(unescaped(value@) =~= r@ + unescaped(v@.skip(i as int)));
    }
    assert(r@ =~= r@ + unescaped(v@.skip(n as int)));
    r
}

/// Escaping distributes over concatenation.
pub proof fn lemma_escaped_concat(a: Seq<char>, b: Seq<char>)
    ensures
        escaped(a + b) == escaped(a) + escaped(b),
    decreases a.len(),
{
    if a.len() == 0 {
        assert(a + b =~= b);
    } else {
        lemma_escaped_concat(a.skip(1), b);
        assert((a + b).skip(1) =~= a.skip(1) + b);
        assert((a + b)[0] == a[0]);
        assert(escaped(a + b) =~= escaped(a) + escaped(b));
    }
}

/// Reading back an escaped value gives the value: `unescape(escape(v)) == v`.
pub proof fn lemma_unescape_escape(s: Seq<char>)
    ensures
        unescaped(escaped(s)) == s,
    decreases s.len(),
{
    if s.len() > 0 {
        lemma_unescape_escape(s.skip(1));
        let e = escaped(s);
        let rest = escaped(s.skip(1));
        let c = s[0];
        if c == '\\' || c == '\n' {
            assert(e.skip(2) =~= rest);
            assert(e[0] == '\\');
        } else {
            assert(e.skip(1) =~= rest);
        }
        assert(unescaped(e) =~= s);
    }
}

/// An escaped text never holds a newline.
pub proof fn lemma_escaped_no_newline(s: Seq<char>)
    ensures
        !escaped(s).contains('\n'),
    decreases s.len(),
{
    if s.len() > 0 {
        lemma_escaped_no_newline(s.skip(1));
        let e = escaped(s);
        let h = escaped_char(s[0]);
        assert(e =~= h + escaped(s.skip(1)));
        if e.contains('\n') {
            let k = choose|k: int| 0 <= k < e.len() && e[k] == '\n';
            if k >= h.len() {
                assert(escaped(s.skip(1))[k - h.len()] == '\n');
            }
        }
    }
}

/// The first and last characters of an escaped text.
pub proof fn lemma_escaped_ends(s: Seq<char>)
    requires
        s.len() > 0,
    ensures
        escaped(s).len() > 0,
        escaped(s)[0] == escaped_char(s[0])[0],
        escaped(s).last() == escaped_char(s.last()).last(),
{
    assert(s =~= s.drop_last() + seq![s.last()]);
    lemma_escaped_concat(s.drop_last(), seq![s.last()]);
    let one = seq![s.last()];
    assert(one.skip(1) =~= Seq::<char>::empty());
    assert(escaped(one.skip(1)) =~= Seq::<char>::empty());
    assert(escaped(one) == escaped_char(one[0]) + escaped(one.skip(1)));
    assert(escaped(one) =~= escaped_char(s.last()));
}

/// Drops one carriage return that ends a line.
pub open spec fn without_cr(l: Seq<char>) -> Seq<char> {
    if l.len() > 0 && l.last() == '\r' {
        l.drop_last()
    } else {
        l
    }
}

/// Left-to-right scan of a text into finished lines and the line in progress.
pub open spec fn line_scan(s: Seq<char>) -> (Seq<Seq<char>>, Seq<char>)
    decreases s.len(),
{
    if s.len() == 0 {
        (seq![], seq![])
    } else {
        let (done, cur) = line_scan(s.drop_last());
        if s.last() == '\n' {
            (done.push(without_cr(cur)), seq![])
        } else {
            (done, cur.push(s.last()))
        }
    }
}

/// The lines of a text (`str::lines`): split at `\n`, a `\r` just before a
/// `\n` dropped, and no empty last line after a final newline.
pub open spec fn text_lines(s: Seq<char>) -> Seq<Seq<char>> {
    let (done, cur) = line_scan(s);
    if cur.len() > 0 {
        done.push(cur)
    } else {
        done
    }
}

/// The lines of `content`.
pub fn lines_of(content: &str) -> (r: Vec<String>)
    ensures
        texts(r@) == text_lines(content@),
{
    let v = chars_of(content);
    let mut done: Vec<String> = Vec::new();
    let mut start: usize = 0;
    let mut i: usize = 0;
    while i < v.len()
        invariant
            v@ == content@,
            start <= i <= v.len(),
            (texts(done@), v@.subrange(start as int, i as int)) == line_scan(v@.take(i as int)),
        decreases v.len() - i,
    {
        let c = v[i];
        assert(v@.take(i + 1).drop_last() =~= v@.take(i as int));
        assert(v@.take(i + 1).last() == c);
        if c == '\n' {
            let ghost cur = v@.subrange(start as int, i as int);
            let end = if i > start && v[i - 1] == '\r' {
                i - 1
            } else {
                i
            };
            let ghost prev = texts(done@);
            done.push(string_of_range(&v, start, end));
            assert(v@.subrange(start as int, end as int) =~= without_cr(cur));
            assert(texts(done@) =~= prev.push(without_cr(cur)));
            start = i + 1;
            assert(v@.subrange(start as int, i + 1) =~= Seq::<char>::empty());
        } else {
            assert(v@.subrange(start as int, i + 1) =~= v@.subrange(start as int, i as int).push(
                c,
            ));
        }
        i += 1;
    }
    assert(v@.take(v.len() as int) =~= v@);
    if start < v.len() {
        let ghost prev = texts(done@);
        done.push(string_of_range(&v, start, v.len()));
        assert(texts(done@) =~= prev.push(v@.subrange(start as int, v.len() as int)));
    }
    done
}

/// The `key=value` pair a line holds: the line is trimmed; blank lines, lines
/// starting with `#` and lines without `=` hold none; otherwise the key is the
/// trimmed text before the first `=`, and the value the trimmed text after it
/// with its escapes undone.
pub open spec fn entry_of_line(line: Seq<char>) -> Option<(Seq<char>, Seq<char>)> {
    let t = trimmed(line);
    if t.len() == 0 || t[0] == '#' {
        None
    } else {
        match find_first(t, '=') {
            Some(i) => Some((trimmed(t.take(i)), unescaped(trimmed(t.skip(i + 1))))),
            None => None,
        }
    }
}

/// The pairs of a list of lines, a later line's value replacing an earlier one.
pub open spec fn entries_map(ls: Seq<Seq<char>>) -> Map<Seq<char>, Seq<char>>
    decreases ls.len(),
{
    if ls.len() == 0 {
        Map::empty()
    } else {
        match entry_of_line(ls.last()) {
            Some((k, v)) => entries_map(ls.drop_last()).insert(k, v),
            None => entries_map(ls.drop_last()),
        }
    }
}

/// The key/value pairs of a settings text.
pub open spec fn key_values(content: Seq<char>) -> Map<Seq<char>, Seq<char>> {
    entries_map(text_lines(content))
}

/// The pairs a line holds, computed.
fn line_entry(line: &str) -> (r: Option<(String, String)>)
    ensures
        match r {
            Some((k, v)) => entry_of_line(line@) == Some((k@, v@)),
            None => entry_of_line(line@) is None,
        },
{
    let t = trim(line);
    let tv = chars_of(t.as_str());
    if tv.len() == 0 || tv[0] == '#' {
        return None;
    }
    let mut i: usize = 0;
    while i < tv.len() && tv[i] != '='
        invariant
            tv@ == trimmed(line@),
            i <= tv.len(),
            forall|j: int| 0 <= j < i ==> tv@[j] != '=',
        decreases tv.len() - i,
    {
        i += 1;
    }
    proof {
        lemma_find_first(tv@, '=', i as int);
    }
    if i == tv.len() {
        return None;
    }
    let key_raw = string_of_range(&tv, 0, i);
    let value_raw = string_of_range(&tv, i + 1, tv.len());
    assert(key_raw@ =~= tv@.take(i as int));
    assert(value_raw@ =~= tv@.skip(i + 1));
    let key = trim(key_raw.as_str());
    let value_trimmed = trim(value_raw.as_str());
    let value = unescape_value(value_trimmed.as_str());
    Some((key, value))
}

/// The pairs of `entries`, a later pair replacing an earlier one with its key.
pub open spec fn pairs_map(e: Seq<(Seq<char>, Seq<char>)>) -> Map<Seq<char>, Seq<char>>
    decreases e.len(),
{
    if e.len() == 0 {
        Map::empty()
    } else {
        pairs_map(e.drop_last()).insert(e.last().0, e.last().1)
    }
}

/// Key/value pairs read from a settings file, looked up by key.
pub struct KeyValues {
    entries: Vec<(String, String)>,
}

impl View for KeyValues {
    type V = Map<Seq<char>, Seq<char>>;

    closed spec fn view(&self) -> Map<Seq<char>, Seq<char>> {
        pairs_map(pair_texts(self.entries@))
    }
}

proof fn lemma_pairs_map_lookup(e: Seq<(Seq<char>, Seq<char>)>, k: Seq<char>, i: int)
    requires
        -1 <= i < e.len(),
        forall|j: int| i < j < e.len() ==> (#[trigger] e[j]).0 != k,
        i >= 0 ==> e[i].0 == k,
    ensures
        i >= 0 ==> pairs_map(e).contains_key(k) && pairs_map(e)[k] == e[i].1,
        i < 0 ==> !pairs_map(e).contains_key(k),
    decreases e.len(),
{
    if e.len() > 0 {
        if i == e.len() - 1 {
        } else {
            assert forall|j: int| i < j < e.drop_last().len() implies (#[trigger] e.drop_last()[j]).0 != k by {
                assert(e.drop_last()[j] == e[j]);
            }
            lemma_pairs_map_lookup(e.drop_last(), k, i);
            assert(e.last().0 != k);
        }
    }
}

impl KeyValues {
    /// No pairs.
    pub fn new() -> (r: KeyValues)
        ensures
            r@ == Map::<Seq<char>, Seq<char>>::empty(),
    {
        KeyValues { entries: Vec::new() }
    }

    /// Sets `key` to `value`, replacing an earlier value of `key`.
    pub fn insert(&mut self, key: String, value: String)
        ensures
            final(self)@ == old(self)@.insert(key@, value@),
    {
        let ghost before = pair_texts(self.entries@);
        self.entries.push((key, value));
        assert(pair_texts(self.entries@).drop_last() =~= before);
    }

    /// The value of `key`, if it has one.
    pub fn get(&self, key: &str) -> (r: Option<String>)
        ensures
            r is Some <==> self@.contains_key(key@),
            r matches Some(v) ==> v@ == self@[key@],
    {
        let ghost e = pair_texts(self.entries@);
        let mut i: usize = self.entries.len();
        while i > 0
            invariant
                e == pair_texts(self.entries@),
                i <= self.entries.len(),
                forall|j: int| i <= j < e.len() ==> (#[trigger] e[j]).0 != key@,
            decreases i,
        {
            if same_text(self.entries[i - 1].0.as_str(), key) {
                proof {
                    lemma_pairs_map_lookup(e, key@, i - 1);
                }
                return Some(self.entries[i - 1].1.clone());
            }
            assert(e[i - 1].0 == self.entries@[i - 1].0@);
            i -= 1;
        }
        proof {
            lemma_pairs_map_lookup(e, key@, -1);
        }
        None
    }
}

/// The key/value pairs of a settings text: lines are trimmed, blank lines and
/// lines starting with `#` skipped, and a later key replaces an earlier one.
pub fn parse_key_values(content: &str) -> (r: KeyValues)
    ensures
        r@ == key_values(content@),
{
    let lines = lines_of(content);
    let mut r = KeyValues::new();
    let mut i: usize = 0;
    while i < lines.len()
        invariant
            texts(lines@) == text_lines(content@),
            i <= lines.len(),
            r@ == entries_map(texts(lines@).take(i as int)),
        decreases lines.len() - i,
    {
        let ghost ls = texts(lines@).take(i + 1);
        assert(ls.drop_last() =~= texts(lines@).take(i as int));
        assert(ls.last() == lines@[i as int]@);
        match line_entry(lines[i].as_str()) {
            Some((k, v)) => {
                r.insert(k, v);
            },
            None => {},
        }
        i += 1;
    }
    assert(texts(lines@).take(lines.len() as int) =~= texts(lines@));
    r
}

/// The client's saved settings.
#[derive(Debug, Clone)]
pub struct Settings {
    pub nickname: String,
    pub server: String,
    pub password: String,
    pub favorites: Vec<String>,
    /// The listed channels that are neither the server tab nor a default.
    pub extra_channels: Vec<String>,
    /// The channel that was active when the settings were saved.
    pub last_channel: String,
}

/// The settings as text: the strings, the favorite channels and the
/// custom channels.
#[verifier::ext_equal]
pub struct SettingsView {
    pub nickname: Seq<char>,
    pub server: Seq<char>,
    pub password: Seq<char>,
    pub favorites: Seq<Seq<char>>,
    pub extra_channels: Seq<Seq<char>>,
    pub last_channel: Seq<char>,
}

impl View for Settings {
    type V = SettingsView;

    open spec fn view(&self) -> SettingsView {
        SettingsView {
            nickname: self.nickname@,
            server: self.server@,
            password: self.password@,
            favorites: texts(self.favorites@),
            extra_channels: texts(self.extra_channels@),
            last_channel: self.last_channel@,
        }
    }
}

/// The settings before any file is read.
pub open spec fn default_settings() -> SettingsView {
    SettingsView {
        nickname: "SisyphusCode"@,
        server: "irc.libera.chat"@,
        password: seq![],
        favorites: seq!["Server"@, "#rockylinux"@, "#rockylinux-devel"@],
        extra_channels: seq![],
        last_channel: seq![],
    }
}

impl Default for Settings {
    fn default() -> (s: Self)
        ensures
            s@ == default_settings(),
    {
        let favorites = vec![
            owned("Server"),
            owned("#rockylinux"),
            owned("#rockylinux-devel"),
        ];
        let s = Settings {
            nickname: owned("SisyphusCode"),
            server: owned("irc.libera.chat"),
            password: String::new(),
            favorites,
            extra_channels: Vec::new(),
            last_channel: String::new(),
        };
        assert(texts(s.favorites@) =~= default_settings().favorites);
        assert(texts(s.extra_channels@) =~= default_settings().extra_channels);
        s
    }
}

/// The value of `key` in `m`, or `fallback` when `m` has none.
pub open spec fn value_or(m: Map<Seq<char>, Seq<char>>, key: Seq<char>, fallback: Seq<char>) -> Seq<
    char,
> {
    if m.contains_key(key) {
        m[key]
    } else {
        fallback
    }
}

/// The settings that a file's key/value pairs give: each key present
/// replaces the default; `favorites` and `extra_channels` are split at `|`,
/// empty parts dropped.
pub open spec fn settings_from(m: Map<Seq<char>, Seq<char>>) -> SettingsView {
    let d = default_settings();
    SettingsView {
        nickname: value_or(m, "nickname"@, d.nickname),
        server: value_or(m, "server"@, d.server),
        password: value_or(m, "password"@, d.password),
        favorites: if m.contains_key("favorites"@) {
            fields(m["favorites"@], separator(Some('|')))
        } else {
            d.favorites
        },
        extra_channels: if m.contains_key("extra_channels"@) {
            fields(m["extra_channels"@], separator(Some('|')))
        } else {
            d.extra_channels
        },
        last_channel: value_or(m, "last_channel"@, d.last_channel),
    }
}

/// One line of the settings file: the key, `=`, the escaped value, a newline.
pub open spec fn config_line(key: Seq<char>, value: Seq<char>) -> Seq<char> {
    key + seq!['='] + escaped(value) + seq!['\n']
}

/// The settings file for `s`.
pub open spec fn config_body(s: SettingsView) -> Seq<char> {
    config_line("nickname"@, s.nickname) + config_line("server"@, s.server) + config_line(
        "password"@,
        s.password,
    ) + config_line("favorites"@, joined(s.favorites, '|')) + config_line(
        "extra_channels"@,
        joined(s.extra_channels, '|'),
    ) + config_line("last_channel"@, s.last_channel)
}

fn push_config_line(out: &mut String, key: &str, value: &str)
    ensures
        final(out)@ == old(out)@ + config_line(key@, value@),
{
    let mut line = concat(out.as_str(), key);
    push_char(&mut line, '=');
    let escaped_value = escape_value(value);
    line = concat(line.as_str(), escaped_value.as_str());
    push_char(&mut line, '\n');
    assert(line@ =~= old(out)@ + config_line(key@, value@));
    *out = line;
}

impl Settings {
    /// The settings a settings file holds (the reading half of loading).
    pub fn from_config(content: &str) -> (s: Settings)
        ensures
            s@ == settings_from(key_values(content@)),
    {
        let values = parse_key_values(content);
        let mut settings = Settings::default();
        if let Some(nickname) = values.get("nickname") {
            settings.nickname = nickname;
        }
        if let Some(server) = values.get("server") {
            settings.server = server;
        }
        if let Some(password) = values.get("password") {
            settings.password = password;
        }
        if let Some(favorites) = values.get("favorites") {
            settings.favorites = split_fields(favorites.as_str(), Some('|'));
        }
        if let Some(extra) = values.get("extra_channels") {
            settings.extra_channels = split_fields(extra.as_str(), Some('|'));
        }
        if let Some(last) = values.get("last_channel") {
            settings.last_channel = last;
        }
        assert(settings@ =~= settings_from(key_values(content@)));
        settings
    }

    /// The text of the settings file for these settings (the writing half of
    /// saving).
    pub fn to_config(&self) -> (body: String)
        ensures
            body@ == config_body(self@),
    {
        let favorites = join_from(&self.favorites, 0, '|');
        assert(texts(self.favorites@).skip(0) =~= texts(self.favorites@));
        let extra = join_from(&self.extra_channels, 0, '|');
        assert(texts(self.extra_channels@).skip(0) =~= texts(self.extra_channels@));
        let mut body = String::new();
        push_config_line(&mut body, "nickname", self.nickname.as_str());
        push_config_line(&mut body, "server", self.server.as_str());
        push_config_line(&mut body, "password", self.password.as_str());
        push_config_line(&mut body, "favorites", favorites.as_str());
        push_config_line(&mut body, "extra_channels", extra.as_str());
        push_config_line(&mut body, "last_channel", self.last_channel.as_str());
        assert(body@ =~= config_body(self@));
        body
    }
}

proof fn lemma_line_scan_append(p: Seq<char>, l: Seq<char>)
    requires
        !l.contains('\n'),
    ensures
        line_scan(p + l) == (line_scan(p).0, line_scan(p).1 + l),
    decreases l.len(),
{
    if l.len() == 0 {
        assert(p + l =~= p);
        assert(line_scan(p).1 + l =~= line_scan(p).1);
    } else {
        let init = l.drop_last();
        assert(!init.contains('\n')) by {
            if init.contains('\n') {
                let k = choose|k: int| 0 <= k < init.len() && init[k] == '\n';
                assert(l[k] == '\n');
            }
        }
        assert(l[l.len() - 1] != '\n');
        lemma_line_scan_append(p, init);
        assert((p + l).drop_last() =~= p + init);
        assert((p + l).last() == l.last());
        assert(line_scan(p).1 + init.push(l.last()) =~= (line_scan(p).1 + init).push(l.last()));
        assert(init.push(l.last()) =~= l);
    }
}

proof fn lemma_line_scan_line(p: Seq<char>, l: Seq<char>)
    requires
        line_scan(p).1.len() == 0,
        !l.contains('\n'),
    ensures
        line_scan(p + (l + seq!['\n'])) == (
            line_scan(p).0.push(without_cr(l)),
            Seq::<char>::empty(),
        ),
{
    lemma_line_scan_append(p, l);
    let q = p + (l + seq!['\n']);
    assert(q.drop_last() =~= p + l);
    assert(q.last() == '\n');
    assert(line_scan(p).1 + l =~= l);
}

/// Whether a value keeps its first and last characters through a save and a
/// load: neither is whitespace other than a newline (a newline is escaped).
pub open spec fn survives_trim(v: Seq<char>) -> bool {
    v.len() > 0 ==> (v[0] == '\n' || !is_ws(v[0])) && (v.last() == '\n' || !is_ws(v.last()))
}

proof fn lemma_escaped_outer(v: Seq<char>)
    requires
        survives_trim(v),
    ensures
        no_outer_ws(escaped(v)),
{
    if v.len() > 0 {
        lemma_escaped_ends(v);
    }
}

proof fn lemma_line_entry(key: Seq<char>, v: Seq<char>)
    requires
        key.len() > 0,
        no_outer_ws(key),
        key[0] != '#',
        !key.contains('='),
        !key.contains('\n'),
        survives_trim(v),
    ensures
        !(key + seq!['='] + escaped(v)).contains('\n'),
        without_cr(key + seq!['='] + escaped(v)) == key + seq!['='] + escaped(v),
        entry_of_line(key + seq!['='] + escaped(v)) == Some((key, v)),
{
    let e = escaped(v);
    let l = key + seq!['='] + e;
    lemma_escaped_outer(v);
    lemma_escaped_no_newline(v);
    lemma_unescape_escape(v);
    assert(!l.contains('\n')) by {
        if l.contains('\n') {
            let k = choose|k: int| 0 <= k < l.len() && l[k] == '\n';
            if k < key.len() {
                assert(key[k] == '\n');
            } else if k > key.len() {
                assert(e[k - key.len() - 1] == '\n');
            }
        }
    }
    assert(l[0] == key[0]);
    if e.len() > 0 {
        assert(l.last() == e.last());
    } else {
        assert(l.last() == '=');
    }
    assert(no_outer_ws(l));
    crate::text::lemma_no_outer_ws_trimmed(l);
    assert forall|j: int| 0 <= j < key.len() implies l[j] != '=' by {
        assert(l[j] == key[j]);
    }
    lemma_find_first(l, '=', key.len() as int);
    assert(l.take(key.len() as int) =~= key);
    assert(l.skip(key.len() as int + 1) =~= e);
    crate::text::lemma_no_outer_ws_trimmed(key);
    crate::text::lemma_no_outer_ws_trimmed(e);
}

proof fn lemma_split_scan_append(p: Seq<char>, l: Seq<char>, sep: spec_fn(char) -> bool)
    requires
        forall|j: int| 0 <= j < l.len() ==> !sep(#[trigger] l[j]),
    ensures
        split_scan(p + l, sep) == (split_scan(p, sep).0, split_scan(p, sep).1 + l),
    decreases l.len(),
{
    if l.len() == 0 {
        assert(p + l =~= p);
        assert(split_scan(p, sep).1 + l =~= split_scan(p, sep).1);
    } else {
        let init = l.drop_last();
        assert forall|j: int| 0 <= j < init.len() implies !sep(#[trigger] init[j]) by {
            assert(init[j] == l[j]);
        }
        lemma_split_scan_append(p, init, sep);
        assert((p + l).drop_last() =~= p + init);
        assert((p + l).last() == l[l.len() - 1]);
        assert(split_scan(p, sep).1 + init.push(l.last()) =~= (split_scan(p, sep).1 + init).push(
            l.last(),
        ));
        assert(init.push(l.last()) =~= l);
    }
}

/// Whether a list of favorites survives being joined with `|` and split
/// again: no entry is empty or holds `|`.
pub open spec fn splittable(favs: Seq<Seq<char>>) -> bool {
    forall|i: int| 0 <= i < favs.len() ==> (#[trigger] favs[i]).len() > 0 && !favs[i].contains('|')
}

proof fn lemma_split_scan_joined(favs: Seq<Seq<char>>)
    requires
        favs.len() > 0,
        splittable(favs),
    ensures
        split_scan(joined(favs, '|'), separator(Some('|'))) == (favs.drop_last(), favs.last()),
    decreases favs.len(),
{
    let sep = separator(Some('|'));
    let last = favs.last();
    assert(last == favs[favs.len() - 1]);
    assert forall|j: int| 0 <= j < last.len() implies !sep(#[trigger] last[j]) by {
        if last[j] == '|' {
            assert(last.contains('|'));
        }
    }
    if favs.len() == 1 {
        lemma_split_scan_append(Seq::<char>::empty(), last, sep);
        assert(Seq::<char>::empty() + last =~= last);
        assert(split_scan(Seq::<char>::empty(), sep).1 + last =~= last);
        assert(favs.drop_last() =~= Seq::<Seq<char>>::empty());
        assert(joined(favs, '|') == favs[0]);
    } else {
        let init = favs.drop_last();
        assert forall|i: int| 0 <= i < init.len() implies (#[trigger] init[i]).len() > 0
            && !init[i].contains('|') by {
            assert(init[i] == favs[i]);
        }
        lemma_split_scan_joined(init);
        let pre = joined(init, '|').push('|');
        assert(pre.drop_last() =~= joined(init, '|'));
        assert(init.last() == favs[favs.len() - 2]);
        assert(split_scan(pre, sep) == (init.drop_last().push(init.last()), Seq::<char>::empty()));
        assert(init.drop_last().push(init.last()) =~= init);
        lemma_split_scan_append(pre, last, sep);
        assert(Seq::<char>::empty() + last =~= last);
    }
}

/// Joining favorites with `|` and splitting them again gives them back.
pub proof fn lemma_fields_joined(favs: Seq<Seq<char>>)
    requires
        splittable(favs),
    ensures
        fields(joined(favs, '|'), separator(Some('|'))) == favs,
{
    if favs.len() == 0 {
        assert(split_scan(joined(favs, '|'), separator(Some('|'))) == (
            Seq::<Seq<char>>::empty(),
            Seq::<char>::empty(),
        ));
    } else {
        lemma_split_scan_joined(favs);
        assert(favs.last() == favs[favs.len() - 1]);
        assert(favs.drop_last().push(favs.last()) =~= favs);
    }
}

/// The key of a line's pair, empty when it holds none.
pub open spec fn entry_key(e: Option<(Seq<char>, Seq<char>)>) -> Seq<char> {
    match e {
        Some((k, _)) => k,
        None => seq![],
    }
}

/// The value of a line's pair, empty when it holds none.
pub open spec fn entry_value(e: Option<(Seq<char>, Seq<char>)>) -> Seq<char> {
    match e {
        Some((_, v)) => v,
        None => seq![],
    }
}

/// The line a settings file writes for `key` and `v` names `key`, whatever
/// `v` holds, and gives `v` back when `v` survives the trim.
proof fn lemma_line_key(key: Seq<char>, v: Seq<char>)
    requires
        key.len() > 0,
        no_outer_ws(key),
        key[0] != '#',
        !key.contains('='),
        !key.contains('\n'),
    ensures
        !(key + seq!['='] + escaped(v)).contains('\n'),
        entry_of_line(without_cr(key + seq!['='] + escaped(v))) is Some,
        entry_key(entry_of_line(without_cr(key + seq!['='] + escaped(v)))) == key,
        survives_trim(v) ==> entry_of_line(without_cr(key + seq!['='] + escaped(v))) == Some(
            (key, v),
        ),
{
    let e = escaped(v);
    let l = key + seq!['='] + e;
    let n = key.len() as int;
    lemma_escaped_no_newline(v);
    assert(!l.contains('\n')) by {
        if l.contains('\n') {
            let k = choose|k: int| 0 <= k < l.len() && l[k] == '\n';
            if k < key.len() {
                assert(key[k] == '\n');
            } else if k > key.len() {
                assert(e[k - key.len() - 1] == '\n');
            }
        }
    }
    let w = without_cr(l);
    assert(l[n] == '=');
    assert(w.len() > n && w[n] == '=' && w[0] == key[0]) by {
        if l.len() > 0 && l.last() == '\r' {
            assert(l.len() > n + 1);
            assert(w[n] == l[n]);
            assert(w[0] == l[0]);
        }
    }
    assert forall|j: int| 0 <= j <= n implies w[j] == l[j] by {
        if l.len() > 0 && l.last() == '\r' {
            assert(l.len() > n + 1);
        }
    }
    crate::text::lemma_trimmed_shape(w);
    let t = trimmed(w);
    let (lo, hi) = choose|lo: int, hi: int|
        0 <= lo <= hi <= w.len() && trimmed(w) == w.subrange(lo, hi) && (forall|j: int|
            0 <= j < lo ==> is_ws(#[trigger] w[j])) && (forall|j: int|
            hi <= j < w.len() ==> is_ws(#[trigger] w[j]));
    assert(!is_ws(w[0]));
    assert(lo == 0);
    assert(!is_ws(w[n]));
    assert(hi > n);
    assert forall|j: int| 0 <= j < n implies t[j] != '=' by {
        assert(t[j] == w[j]);
        assert(w[j] == l[j]);
        assert(l[j] == key[j]);
        assert(key.contains(key[j]));
    }
    assert(t[n] == '=');
    lemma_find_first(t, '=', n);
    assert(t.take(n) =~= key) by {
        assert forall|j: int| 0 <= j < n implies t.take(n)[j] == key[j] by {
            assert(t[j] == w[j]);
            assert(w[j] == l[j]);
        }
    }
    assert(t[0] == key[0]);
    crate::text::lemma_no_outer_ws_trimmed(key);
    if survives_trim(v) {
        lemma_line_entry(key, v);
    }
}

/// What loading the saved file gives back of each setting: each text that
/// does not start or end with whitespace other than a newline comes back as
/// it was, and each list of channels does when, joined with `|`, it has no
/// such whitespace either and no entry is empty or holds `|`. Each field
/// holds on its own, whatever the other fields hold.
#[verifier::rlimit(60)]
pub proof fn lemma_settings_fields_round_trip(s: SettingsView)
    ensures
        ({
            let r = settings_from(key_values(config_body(s)));
            &&& survives_trim(s.nickname) ==> r.nickname == s.nickname
            &&& survives_trim(s.server) ==> r.server == s.server
            &&& survives_trim(s.password) ==> r.password == s.password
            &&& survives_trim(joined(s.favorites, '|')) && splittable(s.favorites) ==> r.favorites
                == s.favorites
            &&& survives_trim(joined(s.extra_channels, '|')) && splittable(s.extra_channels)
                ==> r.extra_channels == s.extra_channels
            &&& survives_trim(s.last_channel) ==> r.last_channel == s.last_channel
        }),
{
    reveal_strlit("nickname");
    reveal_strlit("server");
    reveal_strlit("password");
    reveal_strlit("favorites");
    reveal_strlit("extra_channels");
    reveal_strlit("last_channel");
    let k1 = "nickname"@;
    let k2 = "server"@;
    let k3 = "password"@;
    let k4 = "favorites"@;
    let k5 = "extra_channels"@;
    let k6 = "last_channel"@;
    let favs = joined(s.favorites, '|');
    let extra = joined(s.extra_channels, '|');
    assert(no_outer_ws(k1) && !k1.contains('=') && !k1.contains('\n'));
    assert(no_outer_ws(k2) && !k2.contains('=') && !k2.contains('\n'));
    assert(no_outer_ws(k3) && !k3.contains('=') && !k3.contains('\n'));
    assert(no_outer_ws(k4) && !k4.contains('=') && !k4.contains('\n'));
    assert(no_outer_ws(k5) && !k5.contains('=') && !k5.contains('\n'));
    assert(no_outer_ws(k6) && !k6.contains('=') && !k6.contains('\n'));
    lemma_line_key(k1, s.nickname);
    lemma_line_key(k2, s.server);
    lemma_line_key(k3, s.password);
    lemma_line_key(k4, favs);
    lemma_line_key(k5, extra);
    lemma_line_key(k6, s.last_channel);
    let l1 = k1 + seq!['='] + escaped(s.nickname);
    let l2 = k2 + seq!['='] + escaped(s.server);
    let l3 = k3 + seq!['='] + escaped(s.password);
    let l4 = k4 + seq!['='] + escaped(favs);
    let l5 = k5 + seq!['='] + escaped(extra);
    let l6 = k6 + seq!['='] + escaped(s.last_channel);
    let e = Seq::<char>::empty();
    let p1 = e + (l1 + seq!['\n']);
    let p2 = p1 + (l2 + seq!['\n']);
    let p3 = p2 + (l3 + seq!['\n']);
    let p4 = p3 + (l4 + seq!['\n']);
    let p5 = p4 + (l5 + seq!['\n']);
    let p6 = p5 + (l6 + seq!['\n']);
    lemma_line_scan_line(e, l1);
    lemma_line_scan_line(p1, l2);
    lemma_line_scan_line(p2, l3);
    lemma_line_scan_line(p3, l4);
    lemma_line_scan_line(p4, l5);
    lemma_line_scan_line(p5, l6);
    assert(p6 =~= config_body(s));
    let w1 = without_cr(l1);
    let w2 = without_cr(l2);
    let w3 = without_cr(l3);
    let w4 = without_cr(l4);
    let w5 = without_cr(l5);
    let w6 = without_cr(l6);
    let a1 = entry_value(entry_of_line(w1));
    let a2 = entry_value(entry_of_line(w2));
    let a3 = entry_value(entry_of_line(w3));
    let a4 = entry_value(entry_of_line(w4));
    let a5 = entry_value(entry_of_line(w5));
    let a6 = entry_value(entry_of_line(w6));
    let ls = seq![w1, w2, w3, w4, w5, w6];
    assert(text_lines(config_body(s)) =~= ls);
    assert(ls.drop_last() =~= seq![w1, w2, w3, w4, w5]);
    assert(seq![w1, w2, w3, w4, w5].drop_last() =~= seq![w1, w2, w3, w4]);
    assert(seq![w1, w2, w3, w4].drop_last() =~= seq![w1, w2, w3]);
    assert(seq![w1, w2, w3].drop_last() =~= seq![w1, w2]);
    assert(seq![w1, w2].drop_last() =~= seq![w1]);
    assert(seq![w1].drop_last() =~= Seq::<Seq<char>>::empty());
    let m = key_values(config_body(s));
    let m0 = Map::<Seq<char>, Seq<char>>::empty();
    let m1 = m0.insert(k1, a1);
    let m2 = m1.insert(k2, a2);
    let m3 = m2.insert(k3, a3);
    let m4 = m3.insert(k4, a4);
    let m5 = m4.insert(k5, a5);
    assert(entries_map(Seq::<Seq<char>>::empty()) == m0);
    assert(entries_map(seq![w1]) == m1);
    assert(entries_map(seq![w1, w2]) == m2);
    assert(entries_map(seq![w1, w2, w3]) == m3);
    assert(entries_map(seq![w1, w2, w3, w4]) == m4);
    assert(entries_map(seq![w1, w2, w3, w4, w5]) == m5);
    assert(m =~= m5.insert(k6, a6));
    assert(k1 != k2 && k1 != k3 && k1 != k4 && k1 != k5 && k1 != k6) by {
        assert(k1.len() != k2.len());
        assert(k1[0] != k3[0]);
        assert(k1.len() != k4.len());
        assert(k1.len() != k5.len());
        assert(k1.len() != k6.len());
    }
    assert(k2 != k3 && k2 != k4 && k2 != k5 && k2 != k6) by {
        assert(k2.len() != k3.len());
        assert(k2.len() != k4.len());
        assert(k2.len() != k5.len());
        assert(k2.len() != k6.len());
    }
    assert(k3 != k4 && k3 != k5 && k3 != k6 && k4 != k5 && k4 != k6 && k5 != k6) by {
        assert(k3.len() != k4.len());
        assert(k3.len() != k5.len());
        assert(k3.len() != k6.len());
        assert(k4.len() != k5.len());
        assert(k4.len() != k6.len());
        assert(k5.len() != k6.len());
    }
    assert(m.contains_key(k1) && m[k1] == a1);
    assert(m.contains_key(k2) && m[k2] == a2);
    assert(m.contains_key(k3) && m[k3] == a3);
    assert(m.contains_key(k4) && m[k4] == a4);
    assert(m.contains_key(k5) && m[k5] == a5);
    assert(m.contains_key(k6) && m[k6] == a6);
    if splittable(s.favorites) {
        lemma_fields_joined(s.favorites);
    }
    if splittable(s.extra_channels) {
        lemma_fields_joined(s.extra_channels);
    }
}

/// Saving settings and loading the file back gives the same settings, as long
/// as no string starts or ends with whitespace other than a newline and no
/// favorite or custom channel is empty or holds `|`.
pub proof fn lemma_settings_round_trip(s: SettingsView)
    requires
        survives_trim(s.nickname),
        survives_trim(s.server),
        survives_trim(s.password),
        survives_trim(joined(s.favorites, '|')),
        splittable(s.favorites),
        survives_trim(joined(s.extra_channels, '|')),
        splittable(s.extra_channels),
        survives_trim(s.last_channel),
    ensures
        settings_from(key_values(config_body(s))) == s,
{
    lemma_settings_fields_round_trip(s);
    assert(settings_from(key_values(config_body(s))) =~= s);
}

} // verus!
