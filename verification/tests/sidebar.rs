use stoat_client::sidebar::{
    category_channels, conversation_list, saved_messages, shown_categories, toggle_collapsed,
    uncategorised_channels, Category, ChannelSummary, ChannelType,
};

fn ch(id: &str, kind: ChannelType, last: Option<&str>) -> ChannelSummary {
    ChannelSummary { id: id.to_string(), kind, last_message_id: last.map(|s| s.to_string()) }
}

fn s(v: &[&str]) -> Vec<String> {
    v.iter().map(|x| x.to_string()).collect()
}

fn cat(id: &str, channels: &[&str]) -> Category {
    Category { id: id.to_string(), title: id.to_uppercase(), channels: s(channels) }
}

#[test]
fn conversations_most_recent_first() {
    let channels = vec![
        ch("01A", ChannelType::DirectMessage, Some("01F")),
        ch("01B", ChannelType::TextChannel, Some("01Z")),
        ch("01C", ChannelType::Group, None),
        ch("01D", ChannelType::SavedMessages, None),
        ch("01E", ChannelType::DirectMessage, Some("01H")),
        ch("01F", ChannelType::Group, None),
    ];
    assert_eq!(conversation_list(&channels), vec![4, 0, 5, 2]);
    assert_eq!(saved_messages(&channels), Some(3));
    let mut first = channels;
    first.truncate(3);
    assert_eq!(saved_messages(&first), None);
}

#[test]
fn uncategorised_in_default_order() {
    let server = s(&["a", "b", "c", "d", "e"]);
    let cats = Some(vec![cat("x", &["b"]), cat("default", &["d", "a"])]);
    let known = s(&["a", "b", "c", "d"]);
    assert_eq!(uncategorised_channels(&server, &cats, &known), vec![3, 0, 2]);
    assert_eq!(uncategorised_channels(&server, &None, &known), vec![0, 1, 2, 3]);
    let no_default = Some(vec![cat("x", &["a", "e"])]);
    assert_eq!(uncategorised_channels(&server, &no_default, &server), vec![1, 2, 3]);
}

#[test]
fn listed_categories() {
    let cats = Some(vec![cat("x", &["b"]), cat("default", &["d"]), cat("empty", &[]), cat("y", &["c"])]);
    assert_eq!(shown_categories(&cats), vec![0, 3]);
    assert_eq!(shown_categories(&None), Vec::<usize>::new());
}

#[test]
fn category_rows() {
    let list = s(&["a", "b", "c"]);
    let known = s(&["a", "c"]);
    assert_eq!(category_channels(&list, &known, true, &None), vec![0, 2]);
    assert_eq!(category_channels(&list, &known, false, &Some("c".to_string())), vec![2]);
    assert_eq!(category_channels(&list, &known, false, &Some("b".to_string())), Vec::<usize>::new());
    assert_eq!(category_channels(&list, &known, false, &None), Vec::<usize>::new());
}

#[test]
fn collapsing_toggles() {
    let mut c = s(&["x"]);
    toggle_collapsed(&mut c, "y");
    assert_eq!(c, s(&["x", "y"]));
    toggle_collapsed(&mut c, "x");
    assert_eq!(c, s(&["y"]));
    toggle_collapsed(&mut c, "y");
    assert!(c.is_empty());
}
