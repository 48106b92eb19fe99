use std::collections::VecDeque;
use stoat_client::timeline::{
    deque_of, needs_fetch, scroll_after_open, sort_entries, Entry, FetchControl, FetchDirection,
    MessageWindow, ScrollTarget, StoredWindow, PAGE_SIZE, WINDOW_CAP,
};

fn id(k: u128) -> String {
    format!("{:08}", k)
}

fn num(s: &str) -> u128 {
    s.parse().unwrap()
}

fn entries(keys: &[u128]) -> Vec<Entry<u32>> {
    keys.iter().map(|k| Entry { id: id(*k), message: *k as u32 }).collect()
}

fn keys(w: &MessageWindow<u32>) -> Vec<u128> {
    w.entries.iter().map(|e| num(&e.id)).collect()
}

fn window(keys: &[u128], at_start: bool, at_end: bool) -> MessageWindow<u32> {
    MessageWindow { channel: "C".to_string(), entries: VecDeque::from(entries(keys)), at_start, at_end }
}

fn descending(from: u128, count: u128) -> Vec<u128> {
    (0..count).map(|i| from - i).collect()
}

#[test]
fn constants() {
    assert_eq!(PAGE_SIZE, 25);
    assert_eq!(WINDOW_CAP, 75);
}

#[test]
fn ulid_ids_give_times() {
    let e = Entry { id: "01ARZ3NDEKTSV4RRFFQ69G5FAV".to_string(), message: 7u32 };
    assert_eq!(e.millis(), Some(1469922850259));
    let bad = Entry { id: "not a ulid".to_string(), message: 0u32 };
    assert_eq!(bad.millis(), None);
}

#[test]
fn ids_order_as_text() {
    let v = vec![
        Entry { id: "01B".to_string(), message: 1 },
        Entry { id: "01a".to_string(), message: 2 },
        Entry { id: "01C".to_string(), message: 3 },
    ];
    let r: Vec<u8> = sort_entries(VecDeque::from(v)).into_iter().map(|e| e.message).collect();
    assert_eq!(r, vec![2, 3, 1]);
}

#[test]
fn sort_is_newest_first_and_stable() {
    let v = vec![
        Entry { id: id(1), message: 'a' },
        Entry { id: id(3), message: 'b' },
        Entry { id: id(2), message: 'c' },
        Entry { id: id(3), message: 'd' },
    ];
    let r: Vec<(u128, char)> = sort_entries(VecDeque::from(v)).into_iter().map(|e| (num(&e.id), e.message)).collect();
    assert_eq!(r, vec![(3, 'b'), (3, 'd'), (2, 'c'), (1, 'a')]);
}

#[test]
fn older_page_past_the_cap_drops_the_newest() {
    let mut w = window(&descending(1000, 70), false, true);
    w.apply_older(entries(&descending(900, 25)));
    assert_eq!(keys(&w).len(), 75);
    assert_eq!(keys(&w)[0], 980);
    assert_eq!(*keys(&w).last().unwrap(), 876);
    let mut all = descending(1000, 70);
    all.extend(descending(900, 25));
    assert_eq!(keys(&w), all[20..].to_vec());
    assert!(!w.at_end);
    assert!(!w.at_start);
}

#[test]
fn short_older_page_reaches_the_start() {
    let mut w = window(&[50, 40], false, true);
    w.apply_older(entries(&[30, 35, 20]));
    assert_eq!(keys(&w), vec![50, 40, 35, 30, 20]);
    assert!(w.at_start);
    assert!(w.at_end);
    let mut empty = window(&[50], false, true);
    empty.apply_older(Vec::new());
    assert_eq!(keys(&empty), vec![50]);
    assert!(empty.at_start);
}

#[test]
fn newer_page_past_the_cap_drops_the_oldest() {
    let mut w = window(&descending(1000, 70), true, false);
    w.apply_newer(entries(&descending(1100, 25)));
    let mut all = descending(1100, 25);
    all.extend(descending(1000, 70));
    assert_eq!(keys(&w), all[..75].to_vec());
    assert!(!w.at_start);
    assert!(!w.at_end);
    let mut short = window(&[10], true, false);
    short.apply_newer(entries(&[12, 11]));
    assert_eq!(keys(&short), vec![12, 11, 10]);
    assert!(short.at_end);
    assert!(short.at_start);
}

#[test]
fn anchors() {
    let w = window(&[9, 5, 2], false, false);
    assert_eq!(w.older_anchor(), Some(id(2)));
    assert_eq!(w.newer_anchor(), Some(id(9)));
    let done = window(&[9, 5, 2], true, true);
    assert_eq!(done.older_anchor(), None);
    assert_eq!(done.newer_anchor(), None);
    assert_eq!(window(&[], false, false).older_anchor(), None);
}

#[test]
fn live_messages_go_first_only_at_the_end() {
    let mut w = window(&[5, 4], false, true);
    w.receive("C", Entry { id: id(6), message: 6 });
    assert_eq!(keys(&w), vec![6, 5, 4]);
    w.receive("D", Entry { id: id(7), message: 7 });
    assert_eq!(keys(&w), vec![6, 5, 4]);
    let mut away = window(&[5, 4], false, false);
    away.receive("C", Entry { id: id(6), message: 6 });
    assert_eq!(keys(&away), vec![5, 4]);
}

#[test]
fn deleted_messages_leave() {
    let mut w = window(&[5, 4, 3], false, true);
    w.remove_message("D", &id(4));
    assert_eq!(keys(&w), vec![5, 4, 3]);
    w.remove_message("C", &id(4));
    assert_eq!(keys(&w), vec![5, 3]);
    w.remove_message("C", &id(99));
    assert_eq!(keys(&w), vec![5, 3]);
}

#[test]
fn position_finds_the_first_match() {
    let w = window(&[5, 4, 4, 3], false, true);
    assert_eq!(w.position("C", &id(4)), Some(1));
    assert_eq!(w.position("C", &id(8)), None);
    assert_eq!(w.position("X", &id(5)), None);
}

#[test]
fn open_reuses_or_fetches() {
    let stored = StoredWindow { entries: VecDeque::from(entries(&[3, 2])), at_start: true, at_end: false };
    let w = MessageWindow::open("C".to_string(), Some(stored), None, false, None);
    assert_eq!(keys(&w), vec![3, 2]);
    assert!(w.at_start);
    assert!(!w.at_end);

    let w = MessageWindow::open("C".to_string(), None, Some(entries(&[1, 3, 2])), false, None);
    assert_eq!(keys(&w), vec![3, 2, 1]);
    assert!(w.at_start);
    assert!(w.at_end);

    let full = MessageWindow::open("C".to_string(), None, Some(entries(&descending(100, 25))), false, None);
    assert!(!full.at_start);

    let near = MessageWindow::open("C".to_string(), None, Some(entries(&[7, 8])), true, Some(Some(id(8))));
    assert_eq!(keys(&near), vec![8, 7]);
    assert!(near.at_end);
    assert!(!near.at_start);
    let near = MessageWindow::open("C".to_string(), None, Some(entries(&[7, 8])), true, Some(Some(id(9))));
    assert!(!near.at_end);
    let near = MessageWindow::open("C".to_string(), None, Some(entries(&[7])), true, Some(None));
    assert!(!near.at_end);
    let near = MessageWindow::open("C".to_string(), None, Some(entries(&[7])), true, None);
    assert!(near.at_end);
}

#[test]
fn fetching_and_scrolling_on_open() {
    assert!(!needs_fetch(true, false));
    assert!(needs_fetch(true, true));
    assert!(needs_fetch(false, false));
    assert_eq!(scroll_after_open(Some(40), Some(false), true), ScrollTarget::Restore(40));
    assert_eq!(scroll_after_open(Some(40), Some(true), true), ScrollTarget::End);
    assert_eq!(scroll_after_open(None, None, false), ScrollTarget::Stay);
}

#[test]
fn stored_window_keeps_everything() {
    let w = window(&[2, 1], true, false);
    let s = w.into_stored();
    assert_eq!(s.entries.iter().map(|e| num(&e.id)).collect::<Vec<_>>(), vec![2, 1]);
    assert!(s.at_start);
    assert!(!s.at_end);
}

#[test]
fn fetch_control() {
    let mut f = FetchControl::new();
    assert!(f.permits_fetching());
    assert!(f.keeps_window_on_leave());
    f.open_channel();
    assert_eq!(f.fetching, Some(FetchDirection::Initial));
    assert!(!f.keeps_window_on_leave());
    assert!(!f.permits_fetching());
    assert!(f.may_apply());
    f.finish();
    assert!(!f.begin_older(true));
    assert!(f.begin_older(false));
    assert_eq!(f.fetching, Some(FetchDirection::Upward));
    assert!(f.keeps_window_on_leave());
    f.finish();
    assert!(!f.begin_newer(true));
    assert!(f.begin_newer(false));
    assert_eq!(f.fetching, Some(FetchDirection::Downward));
    f.failed = true;
    assert!(!f.can_fetch());
    assert!(!f.begin_older(false));
    f.open_channel();
    assert!(!f.failed);
    assert!(f.may_apply());
}

#[test]
fn appended_embeds() {
    use_append();
}

fn use_append() {
    assert_eq!(stoat_client::timeline::append_embeds(Some(vec![1, 2]), Some(vec![3])), Some(vec![1, 2, 3]));
    assert_eq!(stoat_client::timeline::append_embeds(None, Some(vec![3])), Some(vec![3]));
    assert_eq!(stoat_client::timeline::append_embeds(Some(vec![1]), None), Some(vec![1]));
    assert_eq!(stoat_client::timeline::append_embeds::<u8>(None, None), None);
}

#[test]
fn page_to_deque_keeps_order() {
    let d = deque_of(entries(&[4, 9, 1]));
    assert_eq!(d.iter().map(|e| num(&e.id)).collect::<Vec<_>>(), vec![4, 9, 1]);
    assert!(deque_of(Vec::<Entry<u32>>::new()).is_empty());
}
