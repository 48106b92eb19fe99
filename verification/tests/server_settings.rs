use stoat_client::server_settings::{
    selector_label, selector_options, NamedChannel, ServerSettingsForm, SystemChannels,
    TrackedText,
};

fn some(s: &str) -> Option<String> {
    Some(s.to_string())
}

fn channels(j: Option<&str>, l: Option<&str>, k: Option<&str>, b: Option<&str>) -> SystemChannels {
    SystemChannels {
        user_joined: j.map(|s| s.to_string()),
        user_left: l.map(|s| s.to_string()),
        user_kicked: k.map(|s| s.to_string()),
        user_banned: b.map(|s| s.to_string()),
    }
}

fn view(c: &SystemChannels) -> Vec<Option<String>> {
    vec![c.user_joined.clone(), c.user_left.clone(), c.user_kicked.clone(), c.user_banned.clone()]
}

#[test]
fn tracked_text() {
    let mut t = TrackedText::new("a".to_string());
    assert_eq!(t.get_if_different(), None);
    t.current = "b".to_string();
    assert_eq!(t.get_if_different(), Some("b".to_string()));
    t.reset();
    assert_eq!(t.current, "a");
    t.set_new("c".to_string());
    assert_eq!((t.initial.as_str(), t.current.as_str()), ("c", "c"));
}

#[test]
fn unchanged_form_sends_nothing() {
    let sys = Some(channels(Some("c1"), None, None, None));
    let f = ServerSettingsForm::new(&"srv".to_string(), &None, &sys);
    assert_eq!(f.description.current, "");
    let p = f.save_payload(&sys);
    assert_eq!(p.name, None);
    assert_eq!(p.description, None);
    assert!(p.system_messages.is_none());
}

#[test]
fn changed_fields_are_sent() {
    let sys = Some(channels(Some("c1"), None, None, None));
    let mut f = ServerSettingsForm::new(&"srv".to_string(), &some("about"), &sys);
    f.name.current = "new".to_string();
    f.user_left.current = some("c2");
    let p = f.save_payload(&sys);
    assert_eq!(p.name, some("new"));
    assert_eq!(p.description, None);
    assert_eq!(view(&p.system_messages.unwrap()), vec![some("c1"), some("c2"), None, None]);
    let moved = Some(channels(Some("c9"), None, None, None));
    let p = f.save_payload(&moved);
    assert_eq!(view(&p.system_messages.unwrap()), vec![some("c9"), some("c2"), None, None]);
    f.user_left.current = None;
    assert!(f.save_payload(&sys).system_messages.is_none());
    f.reset();
    assert_eq!(f.name.current, "srv");
}

#[test]
fn saved_server_starts_over() {
    let mut f = ServerSettingsForm::new(&"srv".to_string(), &None, &None);
    f.apply_saved("renamed".to_string(), some("d"), Some(channels(None, Some("x"), None, None)));
    assert_eq!(f.name.initial, "renamed");
    assert_eq!(f.description.current, "d");
    assert_eq!(f.user_left.initial, some("x"));
    f.user_joined.current = some("q");
    f.apply_saved("renamed".to_string(), None, None);
    assert_eq!(f.user_joined.current, some("q"));
    assert_eq!(f.description.current, "");
}

#[test]
fn channel_selector() {
    let known = vec![
        NamedChannel { id: "c1".to_string(), name: "general".to_string() },
        NamedChannel { id: "c2".to_string(), name: "welcome".to_string() },
    ];
    assert_eq!(selector_label(&some("c2"), &known), "welcome");
    assert_eq!(selector_label(&some("zz"), &known), "Disabled");
    assert_eq!(selector_label(&None, &known), "Disabled");
    let server = vec!["c2".to_string(), "c3".to_string(), "c1".to_string()];
    assert_eq!(selector_options(&server, &known), vec![1, 0]);
}
