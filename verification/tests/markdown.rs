use stoat_client::markdown::{classify_word, parse_markdown, Part};

fn text(s: &str) -> Part {
    Part::Text(s.to_string())
}

#[test]
fn words_split_at_spaces() {
    assert_eq!(parse_markdown("hello world".to_string()), vec![text("hello"), text("world")]);
    assert_eq!(parse_markdown("a  b".to_string()), vec![text("a"), text(""), text("b")]);
    assert_eq!(parse_markdown(" a".to_string()), vec![text(""), text("a")]);
}

#[test]
fn lines_end_in_line_breaks() {
    assert_eq!(parse_markdown("a\nb".to_string()), vec![text("a"), Part::Newline, text("b")]);
    assert_eq!(parse_markdown("a\n".to_string()), vec![text("a"), Part::Newline]);
    assert_eq!(parse_markdown("\n".to_string()), vec![text(""), Part::Newline]);
    assert_eq!(parse_markdown("".to_string()), vec![]);
}

#[test]
fn custom_emojis_and_channel_mentions() {
    let id = "01ARZ3NDEKTSV4RRFFQ69G5FAV";
    let parts = parse_markdown(format!("hi :{id}: see <#{id}>"));
    assert_eq!(
        parts,
        vec![
            text("hi"),
            Part::Emoji(id.to_string()),
            text("see"),
            Part::ChannelMention(id.to_string())
        ]
    );
}

#[test]
fn near_misses_stay_text() {
    assert_eq!(classify_word(":01ARZ3NDEKTSV4RRFFQ69G5FA:"), text(":01ARZ3NDEKTSV4RRFFQ69G5FA:"));
    assert_eq!(classify_word(":01arz3ndektsv4rrffq69g5fav:"), text(":01arz3ndektsv4rrffq69g5fav:"));
    assert_eq!(classify_word(":01ARZ3NDEKTSV4RRFFQ69G5FAI:"), text(":01ARZ3NDEKTSV4RRFFQ69G5FAI:"));
    assert_eq!(classify_word("<#01ARZ3NDEKTSV4RRFFQ69G5FAV>x"), text("<#01ARZ3NDEKTSV4RRFFQ69G5FAV>x"));
}
