use stoat_client::members::shown_presence;
use stoat_client::members::{
    heading_label, hoisted_roles, member_groups, member_list, member_name, order_by_name,
    place_member, status_line, ListValue, ListedMember, Placement, Presence, Role, UserStatus,
};

fn role(id: &str, name: &str, rank: i64, hoist: bool) -> Role {
    Role { id: id.to_string(), name: name.to_string(), rank, hoist }
}

fn member(id: &str, roles: &[&str], nick: Option<&str>, display: Option<&str>, online: bool) -> ListedMember {
    ListedMember {
        user_id: id.to_string(),
        roles: roles.iter().map(|r| r.to_string()).collect(),
        nickname: nick.map(|s| s.to_string()),
        display_name: display.map(|s| s.to_string()),
        username: id.to_string(),
        online,
    }
}

fn roles() -> Vec<Role> {
    vec![role("A", "admin", 1, true), role("M", "mod", 0, true), role("V", "vip", 5, false)]
}

fn members() -> Vec<ListedMember> {
    vec![
        member("alice", &["A", "M"], None, None, true),
        member("bob", &["A"], None, None, true),
        member("carol", &["M"], None, None, false),
        member("dave", &["V"], None, Some("Zed"), true),
        member("eve", &[], Some("amy"), None, true),
    ]
}

fn rows(v: &[ListValue]) -> Vec<String> {
    v.iter()
        .map(|r| match r {
            ListValue::Name(t, n) => format!("{t}:{n}"),
            ListValue::Member(i) => format!("#{i}"),
        })
        .collect()
}

#[test]
fn hoisted_roles_by_rank() {
    assert_eq!(hoisted_roles(&roles()), vec![1, 0]);
    let tie = vec![role("x", "x", 3, true), role("y", "y", 3, true), role("z", "z", -1, true)];
    assert_eq!(hoisted_roles(&tie), vec![2, 0, 1]);
}

#[test]
fn placement_of_members() {
    let rs = roles();
    let h = hoisted_roles(&rs);
    let ms = members();
    assert_eq!(place_member(&ms[0], &rs, &h), Placement::Hoisted(0));
    assert_eq!(place_member(&ms[1], &rs, &h), Placement::Hoisted(1));
    assert_eq!(place_member(&ms[2], &rs, &h), Placement::Offline);
    assert_eq!(place_member(&ms[3], &rs, &h), Placement::Default);
    assert_eq!(place_member(&ms[4], &rs, &h), Placement::Default);
}

#[test]
fn groups_in_rank_order_then_online() {
    let g = member_groups(&roles(), &members());
    let view: Vec<(String, Vec<usize>)> = g.into_iter().map(|g| (g.title, g.members)).collect();
    assert_eq!(
        view,
        vec![
            ("mod".to_string(), vec![0]),
            ("admin".to_string(), vec![1]),
            ("Online".to_string(), vec![3, 4]),
        ]
    );
}

#[test]
fn rows_sorted_by_lowercase_name() {
    let r = member_list(&roles(), &members());
    assert_eq!(rows(&r), vec!["mod:1", "#0", "admin:1", "#1", "Online:2", "#4", "#3"]);
}

#[test]
fn online_heading_even_when_nobody_is_online() {
    let ms = vec![member("a", &[], None, None, false)];
    assert_eq!(rows(&member_list(&roles(), &ms)), vec!["Online:0"]);
    assert!(member_list(&roles(), &Vec::new()).is_empty());
}

#[test]
fn names_and_ordering() {
    let ms = vec![
        member("zoe", &[], None, None, true),
        member("b", &[], Some("Adam"), None, true),
        member("c", &[], None, Some("adam"), true),
        member("d", &[], None, Some("Émile"), true),
    ];
    assert_eq!(member_name(&ms[1]), "Adam");
    assert_eq!(member_name(&ms[2]), "adam");
    assert_eq!(member_name(&ms[0]), "zoe");
    assert_eq!(order_by_name(&ms, &vec![0, 1, 2, 3]), vec![1, 2, 0, 3]);
}

#[test]
fn headings_and_status() {
    assert_eq!(heading_label("Online", 12), "Online - 12");
    assert_eq!(heading_label("mods", 0), "mods - 0");
    assert_eq!(status_line(&None), None);
    let s = UserStatus { text: Some("away".to_string()), presence: Some(Presence::Busy) };
    assert_eq!(status_line(&Some(s)), Some("away".to_string()));
    let s = UserStatus { text: None, presence: Some(Presence::Invisible) };
    assert_eq!(status_line(&Some(s)), Some("Invisible".to_string()));
    let s = UserStatus { text: None, presence: None };
    assert_eq!(status_line(&Some(s)), None);
}

#[test]
fn avatar_presence() {
    let busy = Some(UserStatus { text: None, presence: Some(Presence::Busy) });
    assert_eq!(shown_presence(false, &busy), Presence::Invisible);
    assert_eq!(shown_presence(true, &busy), Presence::Busy);
    assert_eq!(shown_presence(true, &None), Presence::Online);
    assert_eq!(shown_presence(true, &Some(UserStatus { text: None, presence: None })), Presence::Online);
}
