use boulder_relay::config::{escape_value, parse_key_values, unescape_value, Settings};

#[test]
fn round_trips_escaped_values() {
    let settings = Settings {
        nickname: String::from("test\\nick"),
        server: String::from("irc.libera.chat"),
        password: String::from("sec\\ret"),
        favorites: vec![String::from("#rockylinux")],
        ..Settings::default()
    };
    let encoded = format!(
        "nickname={}\npassword={}\n",
        escape_value(&settings.nickname),
        escape_value(&settings.password),
    );
    let parsed = parse_key_values(&encoded);
    assert_eq!(parsed.get("nickname").unwrap(), "test\\nick");
    assert_eq!(parsed.get("password").unwrap(), "sec\\ret");
}

#[test]
fn escaping_backslashes_and_newlines() {
    assert_eq!(escape_value("a\\b\nc"), "a\\\\b\\nc");
    assert_eq!(unescape_value("a\\\\b\\nc"), "a\\b\nc");
    for value in ["", "plain", "\\", "\n", "\\n", "x\\\\y\n\nz", "ünï\\cödé"] {
        assert_eq!(unescape_value(&escape_value(value)), value);
    }
}

#[test]
fn unescaping_keeps_unknown_escapes() {
    assert_eq!(unescape_value("a\\tb"), "a\\tb");
    assert_eq!(unescape_value("end\\"), "end\\");
}

#[test]
fn key_values_skip_comments_and_blank_lines() {
    let text = "# comment\n\n  nickname = bob  \r\nbroken line\nserver=one\nserver=two\n=empty key\n";
    let kv = parse_key_values(text);
    assert_eq!(kv.get("nickname").unwrap(), "bob");
    assert_eq!(kv.get("server").unwrap(), "two");
    assert_eq!(kv.get("").unwrap(), "empty key");
    assert!(kv.get("broken line").is_none());
    assert!(kv.get("# comment").is_none());
}

#[test]
fn value_splits_at_first_equals() {
    let kv = parse_key_values("password=a=b");
    assert_eq!(kv.get("password").unwrap(), "a=b");
}

#[test]
fn default_settings() {
    let s = Settings::default();
    assert_eq!(s.nickname, "SisyphusCode");
    assert_eq!(s.server, "irc.libera.chat");
    assert_eq!(s.password, "");
    assert_eq!(s.favorites, vec!["Server", "#rockylinux", "#rockylinux-devel"]);
    assert!(s.extra_channels.is_empty());
    assert_eq!(s.last_channel, "");
}

#[test]
fn settings_read_custom_channels() {
    let s = Settings::from_config("extra_channels=#archlinux||dm nick|\nlast_channel=#archlinux\n");
    assert_eq!(s.extra_channels, vec!["#archlinux", "dm nick"]);
    assert_eq!(s.last_channel, "#archlinux");
    let none = Settings::from_config("nickname=x\n");
    assert!(none.extra_channels.is_empty());
    assert_eq!(none.last_channel, "");
}

#[test]
fn settings_from_partial_file() {
    let s = Settings::from_config("nickname=alice\nfavorites=#a||#b|\n");
    assert_eq!(s.nickname, "alice");
    assert_eq!(s.server, "irc.libera.chat");
    assert_eq!(s.favorites, vec!["#a", "#b"]);
    let empty = Settings::from_config("");
    assert_eq!(empty.nickname, "SisyphusCode");
    assert_eq!(empty.favorites, vec!["Server", "#rockylinux", "#rockylinux-devel"]);
    let none = Settings::from_config("favorites=\n");
    assert!(none.favorites.is_empty());
}

#[test]
fn settings_file_text() {
    let s = Settings {
        nickname: String::from("bob"),
        server: String::from("irc.example"),
        password: String::from("p\\w\nx"),
        favorites: vec![String::from("#a"), String::from("#b")],
        extra_channels: vec![String::from("#archlinux"), String::from("dm nick")],
        last_channel: String::from("#archlinux"),
    };
    assert_eq!(
        s.to_config(),
        "nickname=bob\nserver=irc.example\npassword=p\\\\w\\nx\nfavorites=#a|#b\nextra_channels=#archlinux|dm nick\nlast_channel=#archlinux\n"
    );
}

#[test]
fn settings_save_then_load() {
    let s = Settings {
        nickname: String::from("we\\ird\nnick"),
        server: String::from("irc.libera.chat"),
        password: String::from("s3cr=t"),
        favorites: vec![String::from("Server"), String::from("#fedora"), String::from("dm nick")],
        extra_channels: vec![String::from("#archlinux"), String::from("#gentoo")],
        last_channel: String::from("#gentoo"),
    };
    let back = Settings::from_config(&s.to_config());
    assert_eq!(back.nickname, s.nickname);
    assert_eq!(back.server, s.server);
    assert_eq!(back.password, s.password);
    assert_eq!(back.favorites, s.favorites);
    assert_eq!(back.extra_channels, s.extra_channels);
    assert_eq!(back.last_channel, s.last_channel);
}

#[test]
fn outer_whitespace_is_lost_on_load() {
    let s = Settings {
        nickname: String::from(" bob"),
        server: String::from("x"),
        password: String::new(),
        favorites: vec![],
        ..Settings::default()
    };
    let back = Settings::from_config(&s.to_config());
    assert_eq!(back.nickname, "bob");
}

#[test]
fn each_setting_comes_back_on_its_own() {
    let s = Settings {
        nickname: String::from("bob "),
        server: String::from("\tirc.example"),
        password: String::from("pw"),
        favorites: vec![String::from("#a")],
        extra_channels: vec![String::from("#archlinux"), String::from("#gentoo")],
        last_channel: String::from("#gentoo"),
    };
    let back = Settings::from_config(&s.to_config());
    assert_eq!(back.nickname, "bob");
    assert_eq!(back.server, "irc.example");
    assert_eq!(back.password, "pw");
    assert_eq!(back.favorites, vec!["#a"]);
    assert_eq!(back.extra_channels, vec!["#archlinux", "#gentoo"]);
    assert_eq!(back.last_channel, "#gentoo");
}
