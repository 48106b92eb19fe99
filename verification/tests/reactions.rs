use stoat_client::reactions::{
    emoji_image, emoji_token, EmojiImage, ReactionAction, Reactions,
};

fn view(r: &Reactions) -> Vec<(String, Vec<String>)> {
    r.entries().iter().map(|e| (e.emoji.clone(), e.users.clone())).collect()
}

fn v(e: &str, users: &[&str]) -> (String, Vec<String>) {
    (e.to_string(), users.iter().map(|u| u.to_string()).collect())
}

#[test]
fn react_and_unreact() {
    let mut r = Reactions::new();
    r.react("👍", "a");
    r.react("🔥", "b");
    r.react("👍", "b");
    r.react("👍", "a");
    assert_eq!(view(&r), vec![v("👍", &["a", "b"]), v("🔥", &["b"])]);
    assert!(r.has_reacted("👍", "b"));
    assert!(!r.has_reacted("🔥", "a"));
    assert_eq!(r.press("👍", "a"), ReactionAction::Unreact);
    assert_eq!(r.press("🔥", "a"), ReactionAction::React);
    r.react("👍", "c");
    r.unreact("👍", "a");
    assert_eq!(view(&r), vec![v("👍", &["c", "b"]), v("🔥", &["b"])]);
    r.react("🎉", "a");
    r.unreact("👍", "zz");
    r.unreact("👍", "c");
    r.unreact("👍", "b");
    assert_eq!(view(&r), vec![v("🎉", &["a"]), v("🔥", &["b"])]);
    r.remove_reaction("🎉");
    assert_eq!(view(&r), vec![v("🔥", &["b"])]);
    r.remove_reaction("nope");
    assert_eq!(view(&r), vec![v("🔥", &["b"])]);
}

#[test]
fn emoji_pictures() {
    let id = "01ARZ3NDEKTSV4RRFFQ69G5FAV";
    assert_eq!(
        emoji_image(id, "https://autumn.example/emojis"),
        EmojiImage::Custom(format!("https://autumn.example/emojis/{id}"))
    );
    assert_eq!(
        emoji_image("👍", "https://autumn.example/emojis"),
        EmojiImage::Unicode("https://static.stoat.chat/emoji/fluent-3d/1f44d.svg?v=1".to_string())
    );
    assert_eq!(emoji_token(id.to_string()), format!(":{id}:"));
    assert_eq!(emoji_token("😄".to_string()), "😄");
}
