use stoat_client::names::{
    author_source, channel_title, display_name, find_other_recipient, find_user,
    friend_on_page, header_icon, initials, message_placeholder, reply_author_label,
    reply_user_id, shows_member_list, unknown_user_name, AuthorSource, ChannelKind,
    FriendPage, HeaderIcon, KnownUser, Relationship,
};

fn users() -> Vec<KnownUser> {
    vec![
        KnownUser { id: "U1".to_string(), username: "alice".to_string() },
        KnownUser { id: "U2".to_string(), username: "bob".to_string() },
    ]
}

#[test]
fn titles_of_channels() {
    let dm = ChannelKind::DirectMessage { recipients: vec!["U1".to_string(), "U2".to_string()] };
    assert_eq!(channel_title(&dm, "U1", &users()), "bob");
    assert_eq!(channel_title(&dm, "U2", &users()), "alice");
    let group = ChannelKind::Group { name: "pals".to_string(), recipients: vec![] };
    assert_eq!(channel_title(&group, "U1", &users()), "pals");
    let text = ChannelKind::TextChannel { name: "general".to_string() };
    assert_eq!(channel_title(&text, "U1", &users()), "general");
    assert_eq!(channel_title(&ChannelKind::SavedMessages, "U1", &users()), "Saved Messages");
    assert_eq!(message_placeholder(&text, "U1", &users()), "Message general");
    assert_eq!(message_placeholder(&dm, "U1", &users()), "Message bob");
}

#[test]
fn lookups() {
    assert_eq!(find_user(&users(), "U2"), Some(1));
    assert_eq!(find_user(&users(), "U9"), None);
    let r = vec!["me".to_string(), "me".to_string(), "you".to_string()];
    assert_eq!(find_other_recipient(&r, "me"), Some(2));
    assert_eq!(find_other_recipient(&vec!["me".to_string()], "me"), None);
}

#[test]
fn icons_and_member_list() {
    assert_eq!(header_icon(&ChannelKind::SavedMessages), HeaderIcon::Notebook);
    assert_eq!(header_icon(&ChannelKind::DirectMessage { recipients: vec![] }), HeaderIcon::AtSign);
    assert_eq!(header_icon(&ChannelKind::TextChannel { name: String::new() }), HeaderIcon::Hash);
    assert!(shows_member_list(true, false));
    assert!(!shows_member_list(true, true));
    assert!(!shows_member_list(false, false));
}

#[test]
fn display_names() {
    let user = "name".to_string();
    assert_eq!(display_name(&Some("nick".to_string()), &Some("disp".to_string()), &user), "nick");
    assert_eq!(display_name(&None, &Some("disp".to_string()), &user), "disp");
    assert_eq!(display_name(&None, &None, &user), "name");
}

#[test]
fn group_initials() {
    assert_eq!(initials("  Weekend   Plans crew "), "WP");
    assert_eq!(initials("solo"), "s");
    assert_eq!(initials("   "), "");
    assert_eq!(initials("a\tb\nc"), "ab");
    assert_eq!(initials("été ünï"), "éü");
}

#[test]
fn reply_labels() {
    let mentions = Some(vec!["U2".to_string()]);
    assert_eq!(reply_author_label("bob", "U2", &mentions), "@bob");
    assert_eq!(reply_author_label("alice", "U1", &mentions), "alice");
    assert_eq!(reply_author_label("alice", "U1", &None), "alice");
    assert_eq!(reply_user_id(Some("U1"), &users()), "U1");
    assert_eq!(reply_user_id(Some("U7"), &users()), "00000000000000000000000000");
    assert_eq!(reply_user_id(None, &users()), "00000000000000000000000000");
    assert_eq!(unknown_user_name("U7"), "Unknown User U7");
}

#[test]
fn author_sources() {
    assert_eq!(author_source(true, false, None), AuthorSource::Embedded);
    assert_eq!(author_source(false, true, Some("hook".to_string())), AuthorSource::Known);
    assert_eq!(author_source(false, false, Some("hook".to_string())), AuthorSource::Webhook("hook".to_string()));
    assert_eq!(author_source(false, false, None), AuthorSource::Fetch);
}

#[test]
fn friend_pages() {
    assert!(friend_on_page(FriendPage::Online, true, Relationship::NoRelation));
    assert!(!friend_on_page(FriendPage::Online, false, Relationship::Friend));
    assert!(friend_on_page(FriendPage::All, false, Relationship::Blocked));
    assert!(friend_on_page(FriendPage::Pending, false, Relationship::Incoming));
    assert!(friend_on_page(FriendPage::Pending, false, Relationship::Outgoing));
    assert!(!friend_on_page(FriendPage::Pending, true, Relationship::Friend));
    assert!(friend_on_page(FriendPage::Blocked, false, Relationship::BlockedOther));
    assert!(!friend_on_page(FriendPage::Blocked, false, Relationship::User));
}
