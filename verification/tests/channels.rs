use boulder_relay::channels::{
    channel_info, community_css_class, community_for, community_label, community_order,
    default_channel_names, default_channels, is_channel_target, normalize_channel_name,
    parse_join_command, parse_join_entry, Community, JoinTarget,
};

#[test]
fn includes_requested_channels() {
    let names: Vec<_> = default_channel_names();
    for expected in ["#fedora", "#fedora-devel", "#rhel-devel"] {
        assert!(names.contains(&expected.to_string()), "missing {expected}");
    }
}

#[test]
fn normalizes_join_command_targets() {
    assert_eq!(parse_join_command("fedora-devel"), Some("#fedora-devel".into()));
    assert_eq!(parse_join_command("#fedora"), Some("#fedora".into()));
    assert_eq!(parse_join_command("##unofficial"), Some("##unofficial".into()));
}

#[test]
fn parses_join_entry_channels_and_dms() {
    assert_eq!(
        parse_join_entry("#archlinux"),
        Some(JoinTarget::Channel("#archlinux".into()))
    );
    assert_eq!(
        parse_join_entry("alice"),
        Some(JoinTarget::DirectMessage("alice".into()))
    );
}

#[test]
fn default_channels_in_readme_order() {
    let names = default_channel_names();
    assert_eq!(
        names,
        vec![
            "#rockylinux",
            "#rockylinux-devel",
            "#rockylinux-social",
            "#fedora",
            "#fedora-devel",
            "#rhel-devel"
        ]
    );
    assert_eq!(default_channels().len(), 6);
    for name in &names {
        assert!(is_channel_target(name));
    }
}

#[test]
fn channel_info_and_communities() {
    let info = channel_info("#rhel-devel").unwrap();
    assert_eq!(info.name, "#rhel-devel");
    assert_eq!(info.description, "RHEL development and enterprise Linux engineering");
    assert_eq!(info.community, Community::Fedora);
    assert!(channel_info("#archlinux").is_none());
    assert_eq!(community_for("#rockylinux-social"), Some(Community::Rocky));
    assert_eq!(community_for("#fedora"), Some(Community::Fedora));
    assert_eq!(community_for("fedora"), None);
    assert_eq!(community_label(Community::Rocky), "Rocky Linux");
    assert_eq!(community_label(Community::Fedora), "Fedora & RHEL");
    assert_eq!(community_css_class(Community::Rocky), "channel-rocky");
    assert_eq!(community_css_class(Community::Fedora), "channel-fedora");
    assert_eq!(community_order(), vec![Community::Rocky, Community::Fedora]);
}

#[test]
fn channel_targets_after_trimming() {
    assert!(is_channel_target("  #fedora "));
    assert!(is_channel_target("&local"));
    assert!(is_channel_target("+modeless"));
    assert!(is_channel_target("!safe"));
    assert!(!is_channel_target("alice"));
    assert!(!is_channel_target("   "));
    assert!(!is_channel_target(""));
}

#[test]
fn normalizing_channel_names() {
    assert_eq!(normalize_channel_name("  fedora  "), "#fedora");
    assert_eq!(normalize_channel_name("\t#rhel-devel\n"), "#rhel-devel");
    assert_eq!(normalize_channel_name("   "), "");
    assert_eq!(normalize_channel_name("&local"), "&local");
    // Normalizing twice changes nothing.
    let once = normalize_channel_name(" rocky ");
    assert_eq!(normalize_channel_name(&once), once);
}

#[test]
fn blank_join_inputs_give_nothing() {
    assert_eq!(parse_join_command("  \t "), None);
    assert_eq!(parse_join_entry(""), None);
    assert_eq!(
        parse_join_entry("  bob  "),
        Some(JoinTarget::DirectMessage("bob".into()))
    );
    assert_eq!(
        parse_join_entry(" !chan "),
        Some(JoinTarget::Channel("!chan".into()))
    );
}
