use stoat_client::emoji::{
    emoji_code_points, picker_items, CustomEmoji, PickerItem, UnicodeEmoji, ROW,
};

fn custom(id: &str, name: &str, server: Option<&str>) -> CustomEmoji {
    CustomEmoji { id: id.to_string(), name: name.to_string(), server: server.map(|s| s.to_string()) }
}

fn unicode(name: &str, value: &str) -> UnicodeEmoji {
    UnicodeEmoji { name: name.to_string(), value: value.to_string() }
}

fn spacers(n: usize) -> Vec<PickerItem> {
    vec![PickerItem::Spacer; n]
}

#[test]
fn full_grid_rows() {
    assert_eq!(ROW, 10);
    let servers = vec!["s1".to_string(), "s2".to_string(), "s3".to_string()];
    let emojis = vec![
        custom("e0", "smile", Some("s1")),
        custom("e1", "orphan", None),
        custom("e2", "wave", Some("s2")),
        custom("e3", "grin", Some("s1")),
    ];
    let uni = vec![unicode("thumbs up", "👍"), unicode("smile", "😄"), unicode("fire", "🔥")];
    let items = picker_items(&servers, &emojis, &uni, &String::new());
    let mut expected = vec![PickerItem::Server(0)];
    expected.extend(spacers(9));
    expected.extend(vec![PickerItem::Emoji(0), PickerItem::Emoji(3)]);
    expected.extend(spacers(8));
    expected.push(PickerItem::Server(1));
    expected.extend(spacers(9));
    expected.push(PickerItem::Emoji(2));
    expected.extend(spacers(9));
    expected.push(PickerItem::Title);
    expected.extend(spacers(9));
    expected.extend(vec![PickerItem::Unicode(0), PickerItem::Unicode(1), PickerItem::Unicode(2)]);
    expected.extend(spacers(7));
    assert_eq!(items, expected);
    assert_eq!(items.len() % ROW, 0);
}

#[test]
fn search_matches_lowercase_names() {
    let servers = vec!["s1".to_string()];
    let emojis = vec![
        custom("e0", "Smile", Some("s1")),
        custom("e1", "wave", Some("s1")),
        custom("e2", "big_smile", None),
    ];
    let uni = vec![unicode("smiling face", "😊"), unicode("fire", "🔥")];
    let items = picker_items(&servers, &emojis, &uni, &"SMI".to_string());
    let mut expected = vec![PickerItem::Emoji(0), PickerItem::Emoji(2), PickerItem::Unicode(0)];
    expected.extend(spacers(7));
    assert_eq!(items, expected);
    let none = picker_items(&servers, &emojis, &uni, &"zzz".to_string());
    assert!(none.is_empty());
}

#[test]
fn code_points_in_lower_hex() {
    assert_eq!(emoji_code_points("👍"), "1f44d");
    assert_eq!(emoji_code_points("👍🏽"), "1f44d-1f3fd");
    assert_eq!(emoji_code_points("#"), "23");
    assert_eq!(emoji_code_points(""), "");
}

fn headings_at_row_starts(items: &[PickerItem]) -> bool {
    items.iter().enumerate().all(|(i, it)| {
        !matches!(it, PickerItem::Server(_) | PickerItem::Title) || i % ROW == 0
    })
}

#[test]
fn headings_begin_rows() {
    let servers = vec!["a".to_string(), "b".to_string()];
    let mut emojis = Vec::new();
    for i in 0..13 {
        emojis.push(custom(&format!("e{}", i), "x", Some("a")));
    }
    emojis.push(custom("y", "y", Some("b")));
    let uni = vec![unicode("one", "1"), unicode("two", "2")];
    let items = picker_items(&servers, &emojis, &uni, &String::new());
    assert_eq!(items.len() % ROW, 0);
    assert!(headings_at_row_starts(&items));
    assert_eq!(items[0], PickerItem::Server(0));
    assert_eq!(items[30], PickerItem::Server(1));
    assert_eq!(items[50], PickerItem::Title);
    let found = picker_items(&servers, &emojis, &uni, &"O".to_string());
    assert!(headings_at_row_starts(&found));
    assert_eq!(found.len(), 10);
    assert_eq!(found[0], PickerItem::Unicode(0));
    assert_eq!(found[1], PickerItem::Unicode(1));
}
