use stoat_client::messages::edited_mark;
use stoat_client::messages::{key_intent, mentions_reader, size_label, Key, KeyIntent};
use stoat_client::grouping::LocalDate;
use stoat_client::messages::{
    message_body, system_icon, system_text, timestamp_label, Body, MessageTime, SystemIcon,
    SystemMessage,
};
use stoat_client::names::KnownUser;

fn users() -> Vec<KnownUser> {
    vec![
        KnownUser { id: "U1".to_string(), username: "alice".to_string() },
        KnownUser { id: "U2".to_string(), username: "bob".to_string() },
    ]
}

fn date(year: i16, month: i8, day: i8) -> LocalDate {
    LocalDate { year, month, day }
}

fn at(d: LocalDate, hour: u8, minute: u8) -> MessageTime {
    MessageTime { date: d, hour, minute }
}

#[test]
fn system_texts() {
    let u = users();
    let s = |m: SystemMessage| system_text(&m, &u);
    assert_eq!(s(SystemMessage::Text { content: "hi".to_string() }), "hi");
    assert_eq!(
        s(SystemMessage::UserAdded { id: "U1".to_string(), by: "U2".to_string() }),
        "alice has been added by bob"
    );
    assert_eq!(
        s(SystemMessage::UserRemove { id: "U2".to_string(), by: "U1".to_string() }),
        "bob has been removed by alice"
    );
    assert_eq!(s(SystemMessage::UserJoined { id: "U1".to_string() }), "alice joined the server");
    assert_eq!(s(SystemMessage::UserLeft { id: "U1".to_string() }), "alice left the server");
    assert_eq!(
        s(SystemMessage::UserKicked { id: "U2".to_string() }),
        "bob has been kicked from the server"
    );
    assert_eq!(
        s(SystemMessage::UserBanned { id: "U2".to_string() }),
        "bob has been banned from the server"
    );
    assert_eq!(
        s(SystemMessage::ChannelRenamed { name: "hq".to_string(), by: "U1".to_string() }),
        "alice updated the group name to hq"
    );
    assert_eq!(
        s(SystemMessage::ChannelDescriptionChanged { by: "U1".to_string() }),
        "alice updated the group description"
    );
    assert_eq!(s(SystemMessage::ChannelIconChanged { by: "U2".to_string() }), "bob updated the group icon");
    assert_eq!(
        s(SystemMessage::ChannelOwnershipChanged { from: "U1".to_string(), to: "U2".to_string() }),
        "alice transferred group ownership to bob"
    );
    assert_eq!(s(SystemMessage::MessagePinned { id: "M".to_string(), by: "U1".to_string() }), "alice pinned");
    assert_eq!(s(SystemMessage::MessageUnpinned { id: "M".to_string(), by: "U1".to_string() }), "alice unpinned");
    assert_eq!(s(SystemMessage::CallStarted { by: "U2".to_string() }), "bob started a call");
}

#[test]
fn system_icons() {
    assert_eq!(system_icon(&SystemMessage::Text { content: String::new() }), SystemIcon::Info);
    assert_eq!(system_icon(&SystemMessage::UserJoined { id: String::new() }), SystemIcon::ArrowRight);
    assert_eq!(system_icon(&SystemMessage::CallStarted { by: String::new() }), SystemIcon::Volume);
}

#[test]
fn timestamps() {
    let today = date(2024, 3, 1);
    assert_eq!(timestamp_label(at(today, 9, 5), today), "Today at 09:05");
    assert_eq!(timestamp_label(at(date(2024, 2, 29), 23, 59), today), "Yesterday at 23:59");
    assert_eq!(timestamp_label(at(date(2024, 2, 28), 10, 0), today), "28/02/2024");
    assert_eq!(timestamp_label(at(date(2023, 12, 31), 0, 0), date(2024, 1, 1)), "Yesterday at 00:00");
    assert_eq!(timestamp_label(at(date(2023, 2, 28), 12, 30), date(2023, 3, 1)), "Yesterday at 12:30");
    assert_eq!(timestamp_label(at(date(-44, 3, 15), 12, 0), today), "15/03/-44");
    assert_eq!(timestamp_label(at(date(7, 11, 9), 12, 0), today), "09/11/7");
}

#[test]
fn bodies() {
    let content = Some("hello".to_string());
    assert_eq!(message_body(&Some("M1".to_string()), "M1", &content), Body::Editor);
    assert_eq!(message_body(&Some("M2".to_string()), "M1", &content), Body::Text("hello".to_string()));
    assert_eq!(message_body(&None, "M1", &Some(String::new())), Body::Nothing);
    assert_eq!(message_body(&None, "M1", &None), Body::Nothing);
}

#[test]
fn mentions_sizes_and_keys() {
    assert!(mentions_reader(&Some(vec!["a".to_string(), "me".to_string()]), "me"));
    assert!(!mentions_reader(&Some(vec!["a".to_string()]), "me"));
    assert!(!mentions_reader(&None, "me"));
    assert_eq!(size_label(0), "0 KB");
    assert_eq!(size_label(999), "0 KB");
    assert_eq!(size_label(1_500_000), "1500 KB");
    assert_eq!(size_label(-2500), "-2 KB");
    assert_eq!(key_intent(Key::Enter, false, false), KeyIntent::Submit);
    assert_eq!(key_intent(Key::Enter, true, true), KeyIntent::Edit);
    assert_eq!(key_intent(Key::Escape, false, true), KeyIntent::Cancel);
    assert_eq!(key_intent(Key::Escape, false, false), KeyIntent::Edit);
    assert_eq!(key_intent(Key::Other, false, true), KeyIntent::Edit);
}

#[test]
fn edited_messages_are_marked() {
    assert_eq!(edited_mark(&Some("2024-01-01T00:00:00Z".to_string())), Some("(edited)".to_string()));
    assert_eq!(edited_mark(&None), None);
}
