use std::collections::VecDeque;
use stoat_client::attachments::AttachmentController;
use stoat_client::markdown::{parse_markdown, Part};
use stoat_client::reactions::Reactions;
use stoat_client::replies::ReplyController;
use stoat_client::server_settings::{ServerSettingsForm, SystemChannels};
use stoat_client::timeline::{Entry, MessageWindow};

#[test]
fn received_then_deleted_message_leaves_the_window() {
    let mut w = MessageWindow {
        channel: "C".to_string(),
        entries: VecDeque::from(vec![Entry { id: 5.to_string(), message: 'a' }, Entry { id: 3.to_string(), message: 'b' }]),
        at_start: false,
        at_end: true,
    };
    w.receive("C", Entry { id: 9.to_string(), message: 'z' });
    w.remove_message("C", "9");
    let keys: Vec<(String, char)> = w.entries.iter().map(|e| (e.id.clone(), e.message)).collect();
    assert_eq!(keys, vec![("5".to_string(), 'a'), ("3".to_string(), 'b')]);
}

#[test]
fn added_then_removed_reply_leaves_the_draft() {
    let mut c = ReplyController::new();
    c.add_reply("A".to_string(), 1u8, true);
    c.add_reply("B".to_string(), 2u8, false);
    c.remove_reply("B");
    let ids: Vec<String> = c.get_replies().iter().map(|r| r.message_id.clone()).collect();
    assert_eq!(ids, vec!["A".to_string()]);
}

#[test]
fn react_then_unreact_restores() {
    let mut r = Reactions::new();
    r.react("👍", "a");
    r.react("👍", "b");
    r.react("🔥", "c");
    r.react("👍", "d");
    r.unreact("👍", "d");
    r.react("🎉", "e");
    r.unreact("🎉", "e");
    let view: Vec<(String, Vec<String>)> =
        r.entries().iter().map(|e| (e.emoji.clone(), e.users.clone())).collect();
    assert_eq!(
        view,
        vec![
            ("👍".to_string(), vec!["a".to_string(), "b".to_string()]),
            ("🔥".to_string(), vec!["c".to_string()]),
        ]
    );
}

#[test]
fn spoiler_twice_restores() {
    let mut c = AttachmentController::new();
    c.add_file("SPOILER_x.png".to_string(), vec![1]);
    c.add_file("y.png".to_string(), vec![2]);
    let before: Vec<(u64, String, bool)> =
        c.get_attachments().into_iter().map(|a| (a.id, a.filename, a.spoiler)).collect();
    c.toggle_spoiler(before[0].0);
    c.toggle_spoiler(before[0].0);
    let after: Vec<(u64, String, bool)> =
        c.get_attachments().into_iter().map(|a| (a.id, a.filename, a.spoiler)).collect();
    assert_eq!(before, after);
}

#[test]
fn save_after_reset_sends_nothing() {
    let sys = Some(SystemChannels {
        user_joined: Some("c1".to_string()),
        user_left: None,
        user_kicked: None,
        user_banned: None,
    });
    let mut f = ServerSettingsForm::new(&"srv".to_string(), &Some("d".to_string()), &sys);
    f.name.current = "other".to_string();
    f.user_banned.current = Some("c3".to_string());
    f.reset();
    let p = f.save_payload(&sys);
    assert!(p.name.is_none() && p.description.is_none() && p.system_messages.is_none());
}

#[test]
fn one_line_break_part_per_newline() {
    let content = "a\n\nb c\n:x:\n";
    let parts = parse_markdown(content.to_string());
    let breaks = parts.iter().filter(|p| **p == Part::Newline).count();
    assert_eq!(breaks, content.matches('\n').count());
}
