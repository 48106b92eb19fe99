//! The member list of a server: the online members, each under the first of
//! its hoisted roles in rank order or else under "Online", every group
//! ordered by name.
use vstd::prelude::*;
use crate::order::{
    ascii_lowercase_chars, key_order, precedes, stable_order_by_key, stable_order_by_text, text_lt,
    text_order,
};
use crate::text::ascii_lower;
use crate::text::{decimal, push_decimal, push_str_chars, string_of, text_eq};

verus! {

/// A role of a server, as the member list reads it.
pub struct Role {
    pub id: String,
    pub name: String,
    pub rank: i64,
    /// Members with this role are listed under it.
    pub hoist: bool,
}

/// A member of a server together with what the list shows of its user.
pub struct ListedMember {
    pub user_id: String,
    /// The ids of the member's roles.
    pub roles: Vec<String>,
    pub nickname: Option<String>,
    pub display_name: Option<String>,
    pub username: String,
    pub online: bool,
}

#[derive(Clone, Copy, Debug, PartialEq, Eq)]
pub enum Presence {
    Online,
    Idle,
    Focus,
    Busy,
    Invisible,
}

/// The status a user set.
pub struct UserStatus {
    pub text: Option<String>,
    pub presence: Option<Presence>,
}

// ------------------------------------------------------------ roles

/// The hoisted roles among the first `n`, in their order.
pub open spec fn hoisted_upto(roles: Seq<Role>, n: int) -> Seq<usize>
    decreases n,
{
    if n <= 0 {
        seq![]
    } else if roles[n - 1].hoist {
        hoisted_upto(roles, n - 1).push((n - 1) as usize)
    } else {
        hoisted_upto(roles, n - 1)
    }
}

pub open spec fn ranks_of(roles: Seq<Role>, idx: Seq<usize>) -> Seq<i128> {
    idx.map_values(|i: usize| roles[i as int].rank as i128)
}

/// The hoisted roles by rank, lowest first; roles of equal rank keep their
/// order.
pub open spec fn hoisted_order(roles: Seq<Role>) -> Seq<usize> {
    let hs = hoisted_upto(roles, roles.len() as int);
    key_order(ranks_of(roles, hs), hs.len() as int).map_values(|o: usize| hs[o as int])
}

proof fn lemma_hoisted_upto(roles: Seq<Role>, n: int)
    requires
        0 <= n <= roles.len(),
    ensures
        forall|k: int|
            0 <= k < hoisted_upto(roles, n).len() ==> #[trigger] hoisted_upto(roles, n)[k] < n,
    decreases n,
{
    if n > 0 {
        lemma_hoisted_upto(roles, n - 1);
        let prev = hoisted_upto(roles, n - 1);
        assert forall|k: int|
            0 <= k < hoisted_upto(roles, n).len() implies #[trigger] hoisted_upto(roles, n)[k] < n by {
            if k < prev.len() {
                assert(prev[k] < n - 1);
            }
        }
    }
}

/// The indices of the hoisted roles by rank, lowest first.
pub fn hoisted_roles(roles: &Vec<Role>) -> (r: Vec<usize>)
    ensures
        r@ == hoisted_order(roles@),
        forall|k: int| 0 <= k < r.len() ==> #[trigger] r@[k] < roles.len() && roles@[r@[k] as int].hoist,
        forall|a: int, b: int|
            0 <= a < b < r.len() ==> roles@[#[trigger] r@[a] as int].rank <= roles@[#[trigger] r@[b] as int].rank,
        forall|a: int, b: int| 0 <= a < b < r.len() ==> #[trigger] r@[a] != #[trigger] r@[b],
{
    let mut hs: Vec<usize> = Vec::new();
    let mut i: usize = 0;
    while i < roles.len()
        invariant
            0 <= i <= roles.len(),
            hs@ == hoisted_upto(roles@, i as int),
        decreases roles.len() - i,
    {
        if roles[i].hoist {
            hs.push(i);
        }
        i = i + 1;
    }
    proof {
        lemma_hoisted_upto(roles@, roles.len() as int);
    }
    let mut ranks: Vec<i128> = Vec::new();
    let mut j: usize = 0;
    while j < hs.len()
        invariant
            0 <= j <= hs.len(),
            hs@ == hoisted_upto(roles@, roles.len() as int),
            forall|k: int| 0 <= k < hs.len() ==> #[trigger] hs@[k] < roles.len(),
            ranks@ == ranks_of(roles@, hs@).take(j as int),
        decreases hs.len() - j,
    {
        ranks.push(roles[hs[j]].rank as i128);
        assert(ranks_of(roles@, hs@).take(j + 1) =~= ranks_of(roles@, hs@).take(j as int).push(
            roles@[hs@[j as int] as int].rank as i128,
        ));
        j = j + 1;
    }
    assert(ranks@ =~= ranks_of(roles@, hs@));
    let order = stable_order_by_key(&ranks);
    let mut r: Vec<usize> = Vec::new();
    let mut k: usize = 0;
    while k < order.len()
        invariant
            0 <= k <= order.len(),
            order.len() == hs.len(),
            forall|q: int| 0 <= q < order.len() ==> #[trigger] order@[q] < hs.len(),
            forall|q: int| 0 <= q < hs.len() ==> #[trigger] hs@[q] < roles.len(),
            r@ == order@.take(k as int).map_values(|o: usize| hs@[o as int]),
        decreases order.len() - k,
    {
        r.push(hs[order[k]]);
        assert(order@.take(k + 1) =~= order@.take(k as int).push(order@[k as int]));
        assert(r@ =~= order@.take(k + 1).map_values(|o: usize| hs@[o as int]));
        k = k + 1;
    }
    assert(order@.take(order.len() as int) =~= order@);
    proof {
        lemma_hoisted_facts(roles@, roles.len() as int);
        assert forall|q: int| 0 <= q < r.len() implies #[trigger] r@[q] < roles.len() && roles@[r@[q] as int].hoist by {
            assert(r@[q] == hs@[order@[q] as int]);
        }
        assert forall|a: int, b: int|
            0 <= a < b < r.len() implies roles@[#[trigger] r@[a] as int].rank <= roles@[#[trigger] r@[b] as int].rank by {
            assert(ranks@[order@[a] as int] <= ranks@[order@[b] as int]);
        }
        assert forall|a: int, b: int| 0 <= a < b < r.len() implies #[trigger] r@[a] != #[trigger] r@[b] by {
            assert(order@[a] != order@[b]);
            assert(hs@[order@[a] as int] != hs@[order@[b] as int]);
        }
    }
    r
}

proof fn lemma_hoisted_facts(roles: Seq<Role>, n: int)
    requires
        0 <= n <= roles.len(),
        roles.len() <= usize::MAX,
    ensures
        forall|k: int|
            0 <= k < hoisted_upto(roles, n).len() ==> roles[#[trigger] hoisted_upto(roles, n)[k] as int].hoist,
        forall|a: int, b: int|
            0 <= a < b < hoisted_upto(roles, n).len() ==> #[trigger] hoisted_upto(roles, n)[a]
                < #[trigger] hoisted_upto(roles, n)[b],
    decreases n,
{
    if n > 0 {
        lemma_hoisted_facts(roles, n - 1);
        lemma_hoisted_upto(roles, n - 1);
        let prev = hoisted_upto(roles, n - 1);
        let cur = hoisted_upto(roles, n);
        assert forall|k: int| 0 <= k < cur.len() implies roles[#[trigger] cur[k] as int].hoist by {
            if k < prev.len() {
                assert(cur[k] == prev[k]);
            } else {
                assert(cur[k] == (n - 1) as usize);
            }
        }
        assert forall|a: int, b: int| 0 <= a < b < cur.len() implies #[trigger] cur[a] < #[trigger] cur[b] by {
            if b < prev.len() {
                assert(cur[a] == prev[a] && cur[b] == prev[b]);
            } else {
                assert(cur[a] == prev[a]);
                assert(prev[a] < n - 1);
                assert(cur[b] == (n - 1) as usize);
            }
        }
    }
}

// ------------------------------------------------------------ placement

/// Where a member is listed: not at all when offline, under the hoisted
/// role at a position of the rank order, or under "Online".
#[derive(Clone, Copy, Debug, PartialEq, Eq, Structural)]
pub enum Placement {
    Offline,
    Hoisted(usize),
    Default,
}

pub open spec fn has_role(m: ListedMember, id: Seq<char>) -> bool {
    exists|k: int| 0 <= k < m.roles.len() && #[trigger] m.roles@[k]@ == id
}

/// The first position from `h` on of a hoisted role the member has.
pub open spec fn first_hoisted(m: ListedMember, roles: Seq<Role>, hoisted: Seq<usize>, h: int) -> Option<int>
    decreases hoisted.len() - h,
{
    if h < 0 || h >= hoisted.len() {
        None
    } else if has_role(m, roles[hoisted[h] as int].id@) {
        Some(h)
    } else {
        first_hoisted(m, roles, hoisted, h + 1)
    }
}

pub open spec fn placement(m: ListedMember, roles: Seq<Role>, hoisted: Seq<usize>) -> Placement {
    if !m.online {
        Placement::Offline
    } else {
        match first_hoisted(m, roles, hoisted, 0) {
            Some(h) => Placement::Hoisted(h as usize),
            None => Placement::Default,
        }
    }
}

fn has_role_exec(m: &ListedMember, id: &String) -> (r: bool)
    ensures
        r == has_role(*m, id@),
{
    let mut k: usize = 0;
    while k < m.roles.len()
        invariant
            0 <= k <= m.roles.len(),
            forall|q: int| 0 <= q < k ==> #[trigger] m.roles@[q]@ != id@,
        decreases m.roles.len() - k,
    {
        if text_eq(m.roles[k].as_str(), id.as_str()) {
            return true;
        }
        k = k + 1;
    }
    false
}

/// Where `m` is listed, given the hoisted roles in rank order.
pub fn place_member(m: &ListedMember, roles: &Vec<Role>, hoisted: &Vec<usize>) -> (r: Placement)
    requires
        forall|k: int| 0 <= k < hoisted.len() ==> #[trigger] hoisted@[k] < roles.len(),
    ensures
        r == placement(*m, roles@, hoisted@),
        !m.online <==> r == Placement::Offline,
        r matches Placement::Hoisted(h) ==> h < hoisted.len() && (exists|q: int|
            0 <= q < m.roles.len() && #[trigger] m.roles@[q]@ == roles@[hoisted@[h as int] as int].id@)
            && forall|k: int|
            #![trigger hoisted@[k]]
            0 <= k < h ==> !exists|q: int|
                0 <= q < m.roles.len() && #[trigger] m.roles@[q]@ == roles@[hoisted@[k] as int].id@,
        r == Placement::Default ==> forall|k: int|
            #![trigger hoisted@[k]]
            0 <= k < hoisted.len() ==> !exists|q: int|
                0 <= q < m.roles.len() && #[trigger] m.roles@[q]@ == roles@[hoisted@[k] as int].id@,
{
    if !m.online {
        return Placement::Offline;
    }
    let mut h: usize = 0;
    while h < hoisted.len()
        invariant
            0 <= h <= hoisted.len(),
            m.online,
            forall|k: int| 0 <= k < h ==> !has_role(*m, #[trigger] roles@[hoisted@[k] as int].id@),
            forall|k: int| 0 <= k < hoisted.len() ==> #[trigger] hoisted@[k] < roles.len(),
            first_hoisted(*m, roles@, hoisted@, 0) == first_hoisted(*m, roles@, hoisted@, h as int),
        decreases hoisted.len() - h,
    {
        if has_role_exec(m, &roles[hoisted[h]].id) {
            return Placement::Hoisted(h);
        }
        h = h + 1;
    }
    Placement::Default
}

// ------------------------------------------------------------ groups

/// The indices among the first `n` whose placement is `p`, in order.
pub open spec fn placed_in(places: Seq<Placement>, p: Placement, n: int) -> Seq<usize>
    decreases n,
{
    if n <= 0 {
        seq![]
    } else if places[n - 1] == p {
        placed_in(places, p, n - 1).push((n - 1) as usize)
    } else {
        placed_in(places, p, n - 1)
    }
}

pub open spec fn placements(members: Seq<ListedMember>, roles: Seq<Role>, hoisted: Seq<usize>) -> Seq<Placement> {
    members.map_values(|m: ListedMember| placement(m, roles, hoisted))
}

/// The non-empty groups of the first `h` hoisted roles: each role's name
/// and its members in the given order.
pub open spec fn role_groups(
    places: Seq<Placement>,
    roles: Seq<Role>,
    hoisted: Seq<usize>,
    h: int,
) -> Seq<(Seq<char>, Seq<usize>)>
    decreases h,
{
    if h <= 0 {
        seq![]
    } else {
        let acc = role_groups(places, roles, hoisted, h - 1);
        let g = placed_in(places, Placement::Hoisted((h - 1) as usize), places.len() as int);
        if g.len() > 0 {
            acc.push((roles[hoisted[h - 1] as int].name@, g))
        } else {
            acc
        }
    }
}

pub open spec fn online_title() -> Seq<char> {
    seq!['O', 'n', 'l', 'i', 'n', 'e']
}

/// The groups of the member list: the hoisted roles with members, in rank
/// order, then "Online" with everyone else who is online. The "Online"
/// group is there whenever the server has members at all, even when it is
/// empty.
pub open spec fn member_groups_of(roles: Seq<Role>, members: Seq<ListedMember>) -> Seq<(Seq<char>, Seq<usize>)> {
    let hoisted = hoisted_order(roles);
    let places = placements(members, roles, hoisted);
    role_groups(places, roles, hoisted, hoisted.len() as int) + if members.len() > 0 {
        seq![(online_title(), placed_in(places, Placement::Default, members.len() as int))]
    } else {
        seq![]
    }
}

/// A group of the member list: its title and the indices of its members.
pub struct MemberGroup {
    pub title: String,
    pub members: Vec<usize>,
}

pub open spec fn group_view(g: MemberGroup) -> (Seq<char>, Seq<usize>) {
    (g.title@, g.members@)
}

fn collect_placed(places: &Vec<Placement>, p: Placement) -> (r: Vec<usize>)
    ensures
        r@ == placed_in(places@, p, places.len() as int),
        forall|k: int| 0 <= k < r.len() ==> #[trigger] r@[k] < places.len(),
{
    let mut r: Vec<usize> = Vec::new();
    let mut i: usize = 0;
    while i < places.len()
        invariant
            0 <= i <= places.len(),
            r@ == placed_in(places@, p, i as int),
            forall|k: int| 0 <= k < r.len() ==> #[trigger] r@[k] < i,
        decreases places.len() - i,
    {
        if places[i] == p {
            r.push(i);
        }
        i = i + 1;
    }
    r
}

/// Groups the members as the member list shows them (see
/// `member_groups_of`), each group's members in the given order.
pub fn member_groups(roles: &Vec<Role>, members: &Vec<ListedMember>) -> (r: Vec<MemberGroup>)
    ensures
        r@.map_values(|g: MemberGroup| group_view(g)) == member_groups_of(roles@, members@),
        forall|g: int, k: int|
            0 <= g < r.len() && 0 <= k < r@[g].members.len() ==> #[trigger] r@[g].members@[k]
                < members.len(),
{
    let hoisted = hoisted_roles(roles);
    let mut places: Vec<Placement> = Vec::new();
    let mut i: usize = 0;
    while i < members.len()
        invariant
            0 <= i <= members.len(),
            hoisted@ == hoisted_order(roles@),
            forall|k: int| 0 <= k < hoisted.len() ==> #[trigger] hoisted@[k] < roles.len(),
            places@ == placements(members@, roles@, hoisted@).take(i as int),
        decreases members.len() - i,
    {
        let p = place_member(&members[i], roles, &hoisted);
        places.push(p);
        assert(places@ =~= placements(members@, roles@, hoisted@).take(i + 1));
        i = i + 1;
    }
    let ghost ps = placements(members@, roles@, hoisted@);
    assert(places@ =~= ps);
    let mut out: Vec<MemberGroup> = Vec::new();
    let mut h: usize = 0;
    while h < hoisted.len()
        invariant
            0 <= h <= hoisted.len(),
            places@ == ps,
            places.len() == members.len(),
            forall|k: int| 0 <= k < hoisted.len() ==> #[trigger] hoisted@[k] < roles.len(),
            out@.map_values(|g: MemberGroup| group_view(g)) == role_groups(ps, roles@, hoisted@, h as int),
            forall|g: int, k: int|
                0 <= g < out.len() && 0 <= k < out@[g].members.len() ==> #[trigger] out@[g].members@[k]
                    < members.len(),
        decreases hoisted.len() - h,
    {
        let g = collect_placed(&places, Placement::Hoisted(h));
        if g.len() > 0 {
            let title = roles[hoisted[h]].name.clone();
            let ghost before = out@;
            out.push(MemberGroup { title, members: g });
            assert(out@.map_values(|g: MemberGroup| group_view(g)) =~= before.map_values(
                |g: MemberGroup| group_view(g),
            ).push((roles@[hoisted@[h as int] as int].name@, g@)));
        }
        h = h + 1;
    }
    if members.len() > 0 {
        let g = collect_placed(&places, Placement::Default);
        let title = String::from_str("Online");
        proof {
            reveal_strlit("Online");
        }
        assert(title@ =~= online_title());
        let ghost before = out@;
        out.push(MemberGroup { title, members: g });
        assert(out@.map_values(|g: MemberGroup| group_view(g)) =~= before.map_values(
            |g: MemberGroup| group_view(g),
        ).push((online_title(), g@)));
    }
    assert(out@.map_values(|g: MemberGroup| group_view(g)) =~= member_groups_of(roles@, members@));
    out
}

// ------------------------------------------------------------ names

/// The name shown for a member: its nickname, else its user's display name,
/// else the username.
pub open spec fn shown_name(m: ListedMember) -> Seq<char> {
    match m.nickname {
        Some(n) => n@,
        None => match m.display_name {
            Some(d) => d@,
            None => m.username@,
        },
    }
}

/// The name shown for a member.
pub fn member_name(m: &ListedMember) -> (r: &str)
    ensures
        r@ == shown_name(*m),
        m.nickname matches Some(n) ==> r@ == n@,
        m.nickname is None && (m.display_name matches Some(d)) ==> r@ == m.display_name.unwrap()@,
        m.nickname is None && m.display_name is None ==> r@ == m.username@,
{
    match &m.nickname {
        Some(n) => n.as_str(),
        None => match &m.display_name {
            Some(d) => d.as_str(),
            None => m.username.as_str(),
        },
    }
}

/// The members `g` ordered by their shown name with ASCII capitals made
/// small, in code-point order; members with equal keys keep their order.
pub open spec fn by_name(members: Seq<ListedMember>, g: Seq<usize>) -> Seq<usize> {
    let keys = g.map_values(|i: usize| ascii_lower(shown_name(members[i as int])));
    text_order(keys, false, g.len() as int).map_values(|o: usize| g[o as int])
}

/// Orders the members `g` by name (see `by_name`).
pub fn order_by_name(members: &Vec<ListedMember>, g: &Vec<usize>) -> (r: Vec<usize>)
    requires
        forall|k: int| 0 <= k < g.len() ==> #[trigger] g@[k] < members.len(),
    ensures
        r@ == by_name(members@, g@),
        r.len() == g.len(),
        forall|k: int| 0 <= k < r.len() ==> #[trigger] r@[k] < members.len() && g@.contains(r@[k]),
        forall|a: int, b: int|
            0 <= a < b < r.len() ==> !text_lt(
                ascii_lower(shown_name(members@[#[trigger] r@[b] as int])),
                ascii_lower(shown_name(members@[#[trigger] r@[a] as int])),
            ),
{
    let ghost spec_keys = g@.map_values(|i: usize| ascii_lower(shown_name(members@[i as int])));
    let mut keys: Vec<Vec<char>> = Vec::new();
    let mut i: usize = 0;
    while i < g.len()
        invariant
            0 <= i <= g.len(),
            forall|k: int| 0 <= k < g.len() ==> #[trigger] g@[k] < members.len(),
            keys.len() == i,
            forall|k: int| 0 <= k < i ==> #[trigger] keys@[k]@ == spec_keys[k],
            spec_keys == g@.map_values(|i: usize| ascii_lower(shown_name(members@[i as int]))),
        decreases g.len() - i,
    {
        let name = member_name(&members[g[i]]);
        keys.push(ascii_lowercase_chars(name));
        i = i + 1;
    }
    assert(keys@.map_values(|k: Vec<char>| k@) =~= spec_keys);
    let order = stable_order_by_text(&keys, false);
    let mut r: Vec<usize> = Vec::new();
    let mut k: usize = 0;
    while k < order.len()
        invariant
            0 <= k <= order.len(),
            order.len() == g.len(),
            forall|q: int| 0 <= q < order.len() ==> #[trigger] order@[q] < g.len(),
            forall|q: int| 0 <= q < g.len() ==> #[trigger] g@[q] < members.len(),
            r@ == order@.take(k as int).map_values(|o: usize| g@[o as int]),
        decreases order.len() - k,
    {
        r.push(g[order[k]]);
        assert(order@.take(k + 1) =~= order@.take(k as int).push(order@[k as int]));
        assert(r@ =~= order@.take(k + 1).map_values(|o: usize| g@[o as int]));
        k = k + 1;
    }
    assert(order@.take(order.len() as int) =~= order@);
    proof {
        let ks = keys@.map_values(|k: Vec<char>| k@);
        assert forall|q: int| 0 <= q < r.len() implies #[trigger] r@[q] < members.len() && g@.contains(r@[q]) by {
            assert(r@[q] == g@[order@[q] as int]);
        }
        assert forall|a: int, b: int|
            0 <= a < b < r.len() implies !text_lt(
            ascii_lower(shown_name(members@[#[trigger] r@[b] as int])),
            ascii_lower(shown_name(members@[#[trigger] r@[a] as int])),
        ) by {
            assert(!precedes(ks[order@[b] as int], ks[order@[a] as int], false));
            assert(ks[order@[a] as int] == spec_keys[order@[a] as int]);
            assert(ks[order@[b] as int] == spec_keys[order@[b] as int]);
        }
    }
    r
}

// ------------------------------------------------------------ rows

/// A row of the member list: a group heading with its member count, or a
/// member (by index).
pub enum ListValue {
    Name(String, usize),
    Member(usize),
}

pub enum ListValueView {
    Name(Seq<char>, usize),
    Member(usize),
}

impl View for ListValue {
    type V = ListValueView;

    open spec fn view(&self) -> ListValueView {
        match self {
            ListValue::Name(t, n) => ListValueView::Name(t@, *n),
            ListValue::Member(i) => ListValueView::Member(*i),
        }
    }
}

/// The rows of the first `k` groups: for each, its heading and then its
/// members by name.
pub open spec fn rows_of(members: Seq<ListedMember>, groups: Seq<(Seq<char>, Seq<usize>)>, k: int) -> Seq<
    ListValueView,
>
    decreases k,
{
    if k <= 0 {
        seq![]
    } else {
        let (title, g) = groups[k - 1];
        rows_of(members, groups, k - 1) + seq![ListValueView::Name(title, g.len() as usize)]
            + by_name(members, g).map_values(|i: usize| ListValueView::Member(i))
    }
}

/// The rows of the member list of a server with the given roles and members.
pub fn member_list(roles: &Vec<Role>, members: &Vec<ListedMember>) -> (r: Vec<ListValue>)
    ensures
        r@.map_values(|v: ListValue| v@) == rows_of(
            members@,
            member_groups_of(roles@, members@),
            member_groups_of(roles@, members@).len() as int,
        ),
{
    let groups = member_groups(roles, members);
    let ghost gs = member_groups_of(roles@, members@);
    let mut out: Vec<ListValue> = Vec::new();
    let mut k: usize = 0;
    while k < groups.len()
        invariant
            0 <= k <= groups.len(),
            groups@.map_values(|g: MemberGroup| group_view(g)) == gs,
            forall|g: int, q: int|
                0 <= g < groups.len() && 0 <= q < groups@[g].members.len() ==> #[trigger] groups@[g].members@[q]
                    < members.len(),
            out@.map_values(|v: ListValue| v@) == rows_of(members@, gs, k as int),
        decreases groups.len() - k,
    {
        let group = &groups[k];
        assert(gs[k as int] == group_view(groups@[k as int]));
        let sorted = order_by_name(members, &group.members);
        let ghost before = out@;
        out.push(ListValue::Name(group.title.clone(), group.members.len()));
        let mut q: usize = 0;
        while q < sorted.len()
            invariant
                0 <= q <= sorted.len(),
                out@.map_values(|v: ListValue| v@) == before.map_values(|v: ListValue| v@) + seq![
                    ListValueView::Name(group.title@, group.members.len())
                ] + sorted@.take(q as int).map_values(|i: usize| ListValueView::Member(i)),
            decreases sorted.len() - q,
        {
            let ghost mid = out@;
            out.push(ListValue::Member(sorted[q]));
            assert(sorted@.take(q + 1) =~= sorted@.take(q as int).push(sorted@[q as int]));
            assert(out@.map_values(|v: ListValue| v@) =~= mid.map_values(|v: ListValue| v@).push(
                ListValueView::Member(sorted@[q as int]),
            ));
            assert(sorted@.take(q + 1).map_values(|i: usize| ListValueView::Member(i)) =~= sorted@.take(
                q as int,
            ).map_values(|i: usize| ListValueView::Member(i)).push(
                ListValueView::Member(sorted@[q as int]),
            ));
            q = q + 1;
        }
        assert(sorted@.take(sorted.len() as int) =~= sorted@);
        assert(out@.map_values(|v: ListValue| v@) =~= rows_of(members@, gs, k + 1));
        k = k + 1;
    }
    out
}

// ------------------------------------------------------------ the listing law

proof fn lemma_empty_multiset<A>(s: Seq<A>)
    requires
        s.len() == 0,
    ensures
        s.to_multiset() =~= vstd::multiset::Multiset::<A>::empty(),
{
    s.to_multiset_ensures();
    vstd::multiset::lemma_multiset_empty_len(s.to_multiset());
}

proof fn lemma_text_pos_bounds(r: Seq<usize>, keys: Seq<Seq<char>>, k: int, d: bool, p: int)
    requires
        0 <= p <= r.len(),
    ensures
        p <= crate::order::text_pos(r, keys, k, d, p) <= r.len(),
    decreases r.len() - p,
{
    if p < r.len() && !crate::order::precedes(keys[k], keys[r[p] as int], d) {
        lemma_text_pos_bounds(r, keys, k, d, p + 1);
    }
}

/// Ordering by text only reorders: the first `n` items of `g`, taken in
/// text order, are the first `n` items of `g`.
proof fn lemma_text_order_reorders(keys: Seq<Seq<char>>, g: Seq<usize>, n: int)
    requires
        0 <= n <= g.len(),
        g.len() <= usize::MAX,
    ensures
        text_order(keys, false, n).map_values(|o: usize| g[o as int]).to_multiset() == g.take(
            n,
        ).to_multiset(),
        text_order(keys, false, n).len() == n,
    decreases n,
{
    if n > 0 {
        lemma_text_order_reorders(keys, g, n - 1);
        let prev = text_order(keys, false, n - 1);
        let pos = crate::order::text_pos(prev, keys, n - 1, false, 0);
        lemma_text_pos_bounds(prev, keys, n - 1, false, 0);
        let cur = text_order(keys, false, n);
        assert(cur == prev.insert(pos, (n - 1) as usize));
        let pm = prev.map_values(|o: usize| g[o as int]);
        assert(cur.map_values(|o: usize| g[o as int]) =~= pm.insert(pos, g[n - 1]));
        vstd::seq_lib::to_multiset_insert(pm, pos, g[n - 1]);
        assert(g.take(n) =~= g.take(n - 1).push(g[n - 1]));
        vstd::seq_lib::to_multiset_build(g.take(n - 1), g[n - 1]);
    } else {
        lemma_empty_multiset(text_order(keys, false, n).map_values(|o: usize| g[o as int]));
        lemma_empty_multiset(g.take(n));
    }
}

proof fn lemma_by_name_reorders(members: Seq<ListedMember>, g: Seq<usize>)
    requires
        g.len() <= usize::MAX,
    ensures
        by_name(members, g).to_multiset() == g.to_multiset(),
{
    let keys = g.map_values(|i: usize| ascii_lower(shown_name(members[i as int])));
    lemma_text_order_reorders(keys, g, g.len() as int);
    assert(g.take(g.len() as int) =~= g);
}

/// Member rows made from indices count each index as often as it occurs.
proof fn lemma_member_rows_count(s: Seq<usize>, m: usize)
    ensures
        s.map_values(|i: usize| ListValueView::Member(i)).to_multiset().count(ListValueView::Member(m))
            == s.to_multiset().count(m),
    decreases s.len(),
{
    if s.len() > 0 {
        let t = s.drop_last();
        lemma_member_rows_count(t, m);
        assert(s =~= t.push(s.last()));
        assert(s.map_values(|i: usize| ListValueView::Member(i)) =~= t.map_values(
            |i: usize| ListValueView::Member(i),
        ).push(ListValueView::Member(s.last())));
        vstd::seq_lib::to_multiset_build(t, s.last());
        vstd::seq_lib::to_multiset_build(
            t.map_values(|i: usize| ListValueView::Member(i)),
            ListValueView::Member(s.last()),
        );
    } else {
        lemma_empty_multiset(s);
        lemma_empty_multiset(s.map_values(|i: usize| ListValueView::Member(i)));
    }
}

/// An index is among those placed `p` once when it is placed `p`, else not.
proof fn lemma_placed_in_count(places: Seq<Placement>, p: Placement, n: int, m: int)
    requires
        0 <= n <= places.len(),
        places.len() <= usize::MAX,
        0 <= m < places.len(),
    ensures
        placed_in(places, p, n).to_multiset().count(m as usize) == if m < n && places[m] == p {
            1nat
        } else {
            0nat
        },
    decreases n,
{
    broadcast use vstd::multiset::group_multiset_axioms;

    if n > 0 {
        lemma_placed_in_count(places, p, n - 1, m);
        let prev = placed_in(places, p, n - 1);
        if places[n - 1] == p {
            vstd::seq_lib::to_multiset_build(prev, (n - 1) as usize);
        }
    } else {
        lemma_empty_multiset(placed_in(places, p, n));
    }
}

proof fn lemma_first_hoisted_bound(m: ListedMember, roles: Seq<Role>, hoisted: Seq<usize>, h: int)
    requires
        0 <= h,
    ensures
        match first_hoisted(m, roles, hoisted, h) {
            Some(x) => h <= x < hoisted.len(),
            None => true,
        },
    decreases hoisted.len() - h,
{
    if h < hoisted.len() && !has_role(m, roles[hoisted[h] as int].id@) {
        lemma_first_hoisted_bound(m, roles, hoisted, h + 1);
    }
}

/// How often a member is in the rows of the first `k` groups.
pub open spec fn listed_count(members: Seq<ListedMember>, groups: Seq<(Seq<char>, Seq<usize>)>, k: int, m: usize) -> nat {
    rows_of(members, groups, k).to_multiset().count(ListValueView::Member(m))
}

proof fn lemma_rows_count(members: Seq<ListedMember>, groups: Seq<(Seq<char>, Seq<usize>)>, k: int, m: usize)
    requires
        0 <= k <= groups.len(),
        forall|j: int| 0 <= j < groups.len() ==> (#[trigger] groups[j]).1.len() <= usize::MAX,
    ensures
        k > 0 ==> listed_count(members, groups, k, m) == listed_count(members, groups, k - 1, m)
            + groups[k - 1].1.to_multiset().count(m),
    decreases k,
{
    if k > 0 {
        let (title, g) = groups[k - 1];
        let prev = rows_of(members, groups, k - 1);
        let head = seq![ListValueView::Name(title, g.len() as usize)];
        let body = by_name(members, g).map_values(|i: usize| ListValueView::Member(i));
        assert(rows_of(members, groups, k) == prev + head + body);
        vstd::seq_lib::lemma_multiset_commutative(prev + head, body);
        vstd::seq_lib::lemma_multiset_commutative(prev, head);
        assert(head =~= Seq::<ListValueView>::empty().push(ListValueView::Name(title, g.len() as usize)));
        vstd::seq_lib::to_multiset_build(Seq::<ListValueView>::empty(), ListValueView::Name(title, g.len() as usize));
        lemma_empty_multiset(Seq::<ListValueView>::empty());
        assert(head.to_multiset().count(ListValueView::Member(m)) == 0);
        lemma_member_rows_count(by_name(members, g), m);
        lemma_by_name_reorders(members, g);
    }
}

/// How often `m` is placed under the first `h` hoisted roles' groups.
proof fn lemma_role_groups_count(
    members: Seq<ListedMember>,
    places: Seq<Placement>,
    roles: Seq<Role>,
    hoisted: Seq<usize>,
    h: int,
    m: int,
)
    requires
        0 <= h <= hoisted.len(),
        0 <= m < places.len(),
        places.len() <= usize::MAX,
        hoisted.len() <= usize::MAX,
    ensures
        listed_count(members, role_groups(places, roles, hoisted, h), role_groups(places, roles, hoisted, h).len() as int, m as usize)
            == if (match places[m] {
            Placement::Hoisted(x) => x < h,
            _ => false,
        }) {
            1nat
        } else {
            0nat
        },
    decreases h,
{
    let gs = role_groups(places, roles, hoisted, h);
    if h > 0 {
        lemma_role_groups_count(members, places, roles, hoisted, h - 1, m);
        let prev = role_groups(places, roles, hoisted, h - 1);
        let g = placed_in(places, Placement::Hoisted((h - 1) as usize), places.len() as int);
        lemma_placed_in_count(places, Placement::Hoisted((h - 1) as usize), places.len() as int, m);
        lemma_role_groups_lens(places, roles, hoisted, h);
        if g.len() > 0 {
            assert(gs == prev.push((roles[hoisted[h - 1] as int].name@, g)));
            lemma_rows_count(members, gs, gs.len() as int, m as usize);
            assert forall|k: int| 0 <= k <= prev.len() implies rows_of(members, gs, k) == rows_of(members, prev, k) by {
                lemma_rows_prefix(members, gs, prev, k);
            }
        } else {
            assert(gs == prev);
            lemma_empty_multiset(g);
        }

    } else {
        assert(gs =~= Seq::<(Seq<char>, Seq<usize>)>::empty());
        lemma_empty_multiset(rows_of(members, gs, 0));
    }
}

proof fn lemma_role_groups_lens(places: Seq<Placement>, roles: Seq<Role>, hoisted: Seq<usize>, h: int)
    requires
        0 <= h,
        places.len() <= usize::MAX,
    ensures
        forall|j: int|
            0 <= j < role_groups(places, roles, hoisted, h).len() ==> (#[trigger] role_groups(
                places,
                roles,
                hoisted,
                h,
            )[j]).1.len() <= usize::MAX,
    decreases h,
{
    if h > 0 {
        lemma_role_groups_lens(places, roles, hoisted, h - 1);
        let g = placed_in(places, Placement::Hoisted((h - 1) as usize), places.len() as int);
        lemma_placed_in_len(places, Placement::Hoisted((h - 1) as usize), places.len() as int);
        let prev = role_groups(places, roles, hoisted, h - 1);
        let cur = role_groups(places, roles, hoisted, h);
        assert forall|j: int| 0 <= j < cur.len() implies (#[trigger] cur[j]).1.len() <= usize::MAX by {
            if j < prev.len() {
                assert(cur[j] == prev[j]);
            } else {
                assert(cur[j].1 == g);
            }
        }
    }
}

proof fn lemma_placed_in_len(places: Seq<Placement>, p: Placement, n: int)
    requires
        0 <= n,
    ensures
        placed_in(places, p, n).len() <= n,
    decreases n,
{
    if n > 0 {
        lemma_placed_in_len(places, p, n - 1);
    }
}

proof fn lemma_rows_prefix(
    members: Seq<ListedMember>,
    gs: Seq<(Seq<char>, Seq<usize>)>,
    prev: Seq<(Seq<char>, Seq<usize>)>,
    k: int,
)
    requires
        0 <= k <= prev.len(),
        prev.len() <= gs.len(),
        forall|j: int| 0 <= j < prev.len() ==> gs[j] == prev[j],
    ensures
        rows_of(members, gs, k) == rows_of(members, prev, k),
    decreases k,
{
    if k > 0 {
        lemma_rows_prefix(members, gs, prev, k - 1);
    }
}

/// Every online member is listed exactly once, and no offline member is
/// listed.
pub proof fn law_member_listed_once(roles: Seq<Role>, members: Seq<ListedMember>, m: int)
    requires
        0 <= m < members.len(),
        members.len() <= usize::MAX,
        roles.len() <= usize::MAX,
    ensures
        rows_of(members, member_groups_of(roles, members), member_groups_of(roles, members).len() as int).to_multiset().count(
            ListValueView::Member(m as usize),
        ) == if members[m].online {
            1nat
        } else {
            0nat
        },
{
    let hoisted = hoisted_order(roles);
    let places = placements(members, roles, hoisted);
    let rg = role_groups(places, roles, hoisted, hoisted.len() as int);
    let dg = placed_in(places, Placement::Default, members.len() as int);
    let gs = member_groups_of(roles, members);
    assert(gs == rg + seq![(online_title(), dg)]);
    lemma_hoisted_len(roles);
    lemma_role_groups_count(members, places, roles, hoisted, hoisted.len() as int, m);
    lemma_placed_in_count(places, Placement::Default, members.len() as int, m);
    lemma_role_groups_lens(places, roles, hoisted, hoisted.len() as int);
    lemma_placed_in_len(places, Placement::Default, members.len() as int);
    assert forall|j: int| 0 <= j < gs.len() implies (#[trigger] gs[j]).1.len() <= usize::MAX by {
        if j < rg.len() {
            assert(gs[j] == rg[j]);
        }
    }
    lemma_rows_count(members, gs, gs.len() as int, m as usize);
    assert forall|k: int| 0 <= k <= rg.len() implies rows_of(members, gs, k) == rows_of(members, rg, k) by {
        lemma_rows_prefix(members, gs, rg, k);
    }
    assert(places[m] == placement(members[m], roles, hoisted));
    lemma_first_hoisted_bound(members[m], roles, hoisted, 0);
    if members[m].online {
        match first_hoisted(members[m], roles, hoisted, 0) {
            Some(x) => {
                assert(places[m] == Placement::Hoisted(x as usize));
            },
            None => {
                assert(places[m] == Placement::Default);
            },
        }
    } else {
        assert(places[m] == Placement::Offline);
    }
}

proof fn lemma_hoisted_len(roles: Seq<Role>)
    requires
        roles.len() <= usize::MAX,
    ensures
        hoisted_order(roles).len() <= usize::MAX,
{
    let hs = hoisted_upto(roles, roles.len() as int);
    lemma_hoisted_upto_len(roles, roles.len() as int);
    crate::order::lemma_key_order_len(ranks_of(roles, hs), hs.len() as int);
}

proof fn lemma_hoisted_upto_len(roles: Seq<Role>, n: int)
    requires
        0 <= n,
    ensures
        hoisted_upto(roles, n).len() <= n,
    decreases n,
{
    if n > 0 {
        lemma_hoisted_upto_len(roles, n - 1);
    }
}

/// The text of a group heading: its name, " - " and its member count.
pub open spec fn heading_text(name: Seq<char>, count: nat) -> Seq<char> {
    name + seq![' ', '-', ' '] + decimal(count)
}

pub fn heading_label(name: &str, count: usize) -> (r: String)
    ensures
        r@ == heading_text(name@, count as nat),
{
    let mut v: Vec<char> = Vec::new();
    push_str_chars(&mut v, name);
    v.push(' ');
    v.push('-');
    v.push(' ');
    push_decimal(&mut v, count as u64);
    assert(v@ =~= heading_text(name@, count as nat));
    string_of(&v)
}

// ------------------------------------------------------------ status

pub open spec fn presence_name(p: Presence) -> Seq<char> {
    match p {
        Presence::Online => seq!['O', 'n', 'l', 'i', 'n', 'e'],
        Presence::Idle => seq!['I', 'd', 'l', 'e'],
        Presence::Focus => seq!['F', 'o', 'c', 'u', 's'],
        Presence::Busy => seq!['B', 'u', 's', 'y'],
        Presence::Invisible => seq!['I', 'n', 'v', 'i', 's', 'i', 'b', 'l', 'e'],
    }
}

/// The line under a member's name: its status text, else the name of its
/// presence; nothing without a status or with neither.
pub open spec fn status_text(status: Option<UserStatus>) -> Option<Seq<char>> {
    match status {
        Some(s) => match s.text {
            Some(t) => Some(t@),
            None => match s.presence {
                Some(p) => Some(presence_name(p)),
                None => None,
            },
        },
        None => None,
    }
}

pub fn status_line(status: &Option<UserStatus>) -> (r: Option<String>)
    ensures
        match r {
            Some(s) => status_text(*status) == Some(s@),
            None => status_text(*status) is None,
        },
{
    match status {
        Some(s) => match &s.text {
            Some(t) => Some(t.clone()),
            None => match s.presence {
                Some(p) => {
                    let name = match p {
                        Presence::Online => vec!['O', 'n', 'l', 'i', 'n', 'e'],
                        Presence::Idle => vec!['I', 'd', 'l', 'e'],
                        Presence::Focus => vec!['F', 'o', 'c', 'u', 's'],
                        Presence::Busy => vec!['B', 'u', 's', 'y'],
                        Presence::Invisible => vec!['I', 'n', 'v', 'i', 's', 'i', 'b', 'l', 'e'],
                    };
                    assert(name@ =~= presence_name(p));
                    Some(string_of(&name))
                },
                None => None,
            },
        },
        None => None,
    }
}

/// The presence the avatar dot shows: invisible for a user who is offline,
/// else the presence of the user's status, else online.
pub open spec fn presence_shown(online: bool, status: Option<UserStatus>) -> Presence {
    if !online {
        Presence::Invisible
    } else {
        match status {
            Some(s) => match s.presence {
                Some(p) => p,
                None => Presence::Online,
            },
            None => Presence::Online,
        }
    }
}

pub fn shown_presence(online: bool, status: &Option<UserStatus>) -> (r: Presence)
    ensures
        r == presence_shown(online, *status),
        !online ==> r == Presence::Invisible,
        online && (status matches Some(st) && st.presence matches Some(p)) ==> r == status.unwrap().presence.unwrap(),
        online && (status is None || status.unwrap().presence is None) ==> r == Presence::Online,
{
    if !online {
        return Presence::Invisible;
    }
    match status {
        Some(s) => match s.presence {
            Some(p) => p,
            None => Presence::Online,
        },
        None => Presence::Online,
    }
}

} // verus!
