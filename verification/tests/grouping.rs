use stoat_client::grouping::{
    group_starts, starts_new_group, LocalDate, Masquerade, MessageMeta, GROUP_GAP_SECONDS,
};

fn meta(author: &str, millis: u64) -> MessageMeta {
    MessageMeta {
        author: author.to_string(),
        has_replies: false,
        millis,
        date: LocalDate { year: 2024, month: 5, day: 1 },
        system: false,
        masquerade: None,
    }
}

#[test]
fn gap_constant() {
    assert_eq!(GROUP_GAP_SECONDS, 420);
}

#[test]
fn same_author_close_together_stays_grouped() {
    assert!(!starts_new_group(&meta("a", 1_000_000), &meta("a", 1_060_000)));
    assert!(starts_new_group(&meta("a", 1_000_000), &meta("b", 1_060_000)));
}

#[test]
fn seven_minutes_apart_starts_a_group() {
    assert!(!starts_new_group(&meta("a", 1_000_000), &meta("a", 1_000_000 + 419_999)));
    assert!(starts_new_group(&meta("a", 1_000_000), &meta("a", 1_000_000 + 420_000)));
    assert!(starts_new_group(&meta("a", 1_420_000), &meta("a", 1_000_000)));
}

#[test]
fn replies_days_system_and_masquerades_split() {
    let mut r = meta("a", 1_000_500);
    r.has_replies = true;
    assert!(starts_new_group(&meta("a", 1_000_000), &r));
    let mut d = meta("a", 1_000_500);
    d.date = LocalDate { year: 2024, month: 5, day: 2 };
    assert!(starts_new_group(&meta("a", 1_000_000), &d));
    let mut s = meta("a", 1_000_500);
    s.system = true;
    assert!(starts_new_group(&s, &meta("a", 1_000_900)));
    let mut m = meta("a", 1_000_500);
    m.masquerade = Some(Masquerade { name: Some("x".to_string()), avatar: None, colour: None });
    assert!(starts_new_group(&meta("a", 1_000_000), &m));
    let mut m2 = meta("a", 1_000_900);
    m2.masquerade = Some(Masquerade { name: Some("x".to_string()), avatar: None, colour: None });
    assert!(!starts_new_group(&m, &m2));
}

#[test]
fn group_start_positions() {
    let msgs = vec![
        meta("a", 1_000_000),
        meta("a", 1_010_000),
        meta("b", 1_020_000),
        meta("b", 1_030_000),
        meta("b", 2_000_000),
        meta("a", 2_001_000),
    ];
    assert_eq!(group_starts(&msgs), vec![0, 2, 4, 5]);
    assert_eq!(group_starts(&Vec::new()), Vec::<usize>::new());
}
