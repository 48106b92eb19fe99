use stoat_client::replies::{OutgoingReply, ReplyController};

fn ids(c: &ReplyController<u32>) -> Vec<(String, u32, bool)> {
    c.get_replies().iter().map(|r| (r.message_id.clone(), r.message, r.mention)).collect()
}

#[test]
fn add_keeps_order_and_skips_duplicates() {
    let mut c = ReplyController::new();
    c.add_reply("A".to_string(), 1, true);
    c.add_reply("B".to_string(), 2, false);
    c.add_reply("A".to_string(), 3, false);
    assert_eq!(ids(&c), vec![("A".to_string(), 1, true), ("B".to_string(), 2, false)]);
}

#[test]
fn toggle_flips_only_the_named_reply() {
    let mut c = ReplyController::new();
    c.add_reply("A".to_string(), 1, true);
    c.add_reply("B".to_string(), 2, false);
    c.toggle_mention("B");
    assert_eq!(ids(&c), vec![("A".to_string(), 1, true), ("B".to_string(), 2, true)]);
    c.toggle_mention("B");
    c.toggle_mention("Z");
    assert_eq!(ids(&c), vec![("A".to_string(), 1, true), ("B".to_string(), 2, false)]);
}

#[test]
fn remove_drops_the_reply() {
    let mut c = ReplyController::new();
    c.add_reply("A".to_string(), 1, true);
    c.add_reply("B".to_string(), 2, false);
    c.add_reply("C".to_string(), 3, false);
    c.remove_reply("B");
    assert_eq!(ids(&c), vec![("A".to_string(), 1, true), ("C".to_string(), 3, false)]);
    c.remove_reply("Q");
    assert_eq!(ids(&c).len(), 2);
}

#[test]
fn take_empties_and_returns_intents() {
    let mut c = ReplyController::new();
    c.add_reply("A".to_string(), 1, true);
    c.add_reply("B".to_string(), 2, false);
    let out = c.take_replies();
    assert_eq!(
        out,
        vec![
            OutgoingReply { id: "A".to_string(), mention: true, fail_if_not_exists: Some(true) },
            OutgoingReply { id: "B".to_string(), mention: false, fail_if_not_exists: Some(true) }
        ]
    );
    assert!(c.get_replies().is_empty());
}
