//! Grouping consecutive messages under one header.
use vstd::prelude::*;
use crate::text::text_eq;

verus! {

/// Two messages more than this many seconds apart never share a group.
pub const GROUP_GAP_SECONDS: u64 = 420;

#[derive(Clone, Copy, Debug, PartialEq, Eq, Structural)]
pub struct LocalDate {
    pub year: i16,
    pub month: i8,
    pub day: i8,
}

/// The name, avatar and colour a message is shown under instead of its
/// author's.
pub struct Masquerade {
    pub name: Option<String>,
    pub avatar: Option<String>,
    pub colour: Option<String>,
}

/// What grouping reads of a message.
pub struct MessageMeta {
    pub author: String,
    pub has_replies: bool,
    /// Milliseconds since the Unix epoch at which the message was sent.
    pub millis: u64,
    /// The calendar day it was sent on, in the reader's time zone.
    pub date: LocalDate,
    pub system: bool,
    pub masquerade: Option<Masquerade>,
}

pub open spec fn same_text(a: Option<String>, b: Option<String>) -> bool {
    match (a, b) {
        (Some(x), Some(y)) => x@ == y@,
        (None, None) => true,
        _ => false,
    }
}

pub open spec fn same_masquerade(a: Option<Masquerade>, b: Option<Masquerade>) -> bool {
    match (a, b) {
        (Some(x), Some(y)) => same_text(x.name, y.name) && same_text(x.avatar, y.avatar)
            && same_text(x.colour, y.colour),
        (None, None) => true,
        _ => false,
    }
}

pub open spec fn seconds(m: MessageMeta) -> int {
    m.millis as int / 1000
}

/// Whether `cur`, sent right after `prev`, starts a new group: another
/// author, a message with replies, another day, `GROUP_GAP_SECONDS` or more
/// apart, a system message on either side, or another masquerade.
pub open spec fn starts_group(prev: MessageMeta, cur: MessageMeta) -> bool {
    ||| prev.author@ != cur.author@
    ||| cur.has_replies
    ||| prev.date != cur.date
    ||| seconds(cur) - seconds(prev) >= GROUP_GAP_SECONDS
    ||| seconds(prev) - seconds(cur) >= GROUP_GAP_SECONDS
    ||| prev.system
    ||| cur.system
    ||| !same_masquerade(prev.masquerade, cur.masquerade)
}

/// Whether message `i` (oldest first) starts a group.
pub open spec fn is_group_start(m: Seq<MessageMeta>, i: int) -> bool {
    i == 0 || starts_group(m[i - 1], m[i])
}

fn same_text_exec(a: &Option<String>, b: &Option<String>) -> (r: bool)
    ensures
        r == same_text(*a, *b),
{
    match (a, b) {
        (Some(x), Some(y)) => text_eq(x.as_str(), y.as_str()),
        (None, None) => true,
        _ => false,
    }
}

fn same_masquerade_exec(a: &Option<Masquerade>, b: &Option<Masquerade>) -> (r: bool)
    ensures
        r == same_masquerade(*a, *b),
{
    match (a, b) {
        (Some(x), Some(y)) => same_text_exec(&x.name, &y.name) && same_text_exec(
            &x.avatar,
            &y.avatar,
        ) && same_text_exec(&x.colour, &y.colour),
        (None, None) => true,
        _ => false,
    }
}

/// The text of an optional string, compared by its characters.
pub open spec fn text_view(t: Option<String>) -> Option<Seq<char>> {
    match t {
        Some(s) => Some(s@),
        None => None,
    }
}

/// Two masquerades that show a message differently: one is present and the
/// other is not, or both are and their names, avatars or colours differ.
pub open spec fn masquerades_differ(a: Option<Masquerade>, b: Option<Masquerade>) -> bool {
    ||| (a is Some) != (b is Some)
    ||| (a matches Some(x) && b matches Some(y) && (text_view(x.name) != text_view(y.name)
        || text_view(x.avatar) != text_view(y.avatar) || text_view(x.colour) != text_view(y.colour)))
}

pub fn starts_new_group(prev: &MessageMeta, cur: &MessageMeta) -> (r: bool)
    ensures
        r == starts_group(*prev, *cur),
        prev.author@ != cur.author@ ==> r,
        cur.has_replies ==> r,
        prev.date != cur.date ==> r,
        prev.system ==> r,
        cur.system ==> r,
        cur.millis / 1000 >= prev.millis / 1000 + GROUP_GAP_SECONDS ==> r,
        prev.millis / 1000 >= cur.millis / 1000 + GROUP_GAP_SECONDS ==> r,
        masquerades_differ(prev.masquerade, cur.masquerade) ==> r,
        !r ==> {
            &&& prev.author@ == cur.author@
            &&& !cur.has_replies
            &&& prev.date == cur.date
            &&& !prev.system && !cur.system
            &&& cur.millis / 1000 < prev.millis / 1000 + GROUP_GAP_SECONDS
            &&& prev.millis / 1000 < cur.millis / 1000 + GROUP_GAP_SECONDS
            &&& !masquerades_differ(prev.masquerade, cur.masquerade)
        },
{
    proof {
        law_group_reasons(*prev, *cur);
    }
    let a = prev.millis / 1000;
    let b = cur.millis / 1000;
    let apart = if a > b {
        a - b
    } else {
        b - a
    };
    !text_eq(prev.author.as_str(), cur.author.as_str()) || cur.has_replies || prev.date != cur.date
        || apart >= GROUP_GAP_SECONDS || prev.system || cur.system || !same_masquerade_exec(
        &prev.masquerade,
        &cur.masquerade,
    )
}

/// Whether two masquerades count as the same does not depend on their
/// order.
pub proof fn law_same_masquerade_symmetric(a: Option<Masquerade>, b: Option<Masquerade>)
    ensures
        same_masquerade(a, b) == same_masquerade(b, a),
        same_masquerade(a, b) == !masquerades_differ(a, b),
{
}

/// A message starts a new group, after the message before it, exactly when
/// one of these holds: another author, replies on it, another day, at least
/// `GROUP_GAP_SECONDS` whole seconds apart either way, a system message on
/// either side, or masquerades that differ (one present and not the other,
/// or another name, avatar or colour).
pub proof fn law_group_reasons(prev: MessageMeta, cur: MessageMeta)
    ensures
        starts_group(prev, cur) <==> {
            ||| prev.author@ != cur.author@
            ||| cur.has_replies
            ||| prev.date != cur.date
            ||| prev.system
            ||| cur.system
            ||| cur.millis / 1000 >= prev.millis / 1000 + GROUP_GAP_SECONDS
            ||| prev.millis / 1000 >= cur.millis / 1000 + GROUP_GAP_SECONDS
            ||| masquerades_differ(prev.masquerade, cur.masquerade)
        },
{
    law_same_masquerade_symmetric(prev.masquerade, cur.masquerade);
}

/// The positions (oldest first) at which groups start: every message that
/// starts a group, in increasing order; the first message always does.
pub fn group_starts(messages: &Vec<MessageMeta>) -> (r: Vec<usize>)
    ensures
        forall|k: int| 0 <= k < r.len() ==> #[trigger] r@[k] < messages.len(),
        forall|k: int, l: int| 0 <= k < l < r.len() ==> #[trigger] r@[k] < #[trigger] r@[l],
        forall|i: int|
            0 <= i < messages.len() ==> (r@.contains(i as usize) <==> is_group_start(
                messages@,
                i,
            )),
{
    let mut r: Vec<usize> = Vec::new();
    let mut i: usize = 0;
    while i < messages.len()
        invariant
            0 <= i <= messages.len(),
            forall|k: int| 0 <= k < r.len() ==> #[trigger] r@[k] < i,
            forall|k: int, l: int| 0 <= k < l < r.len() ==> #[trigger] r@[k] < #[trigger] r@[l],
            forall|j: int| 0 <= j < i ==> (r@.contains(j as usize) <==> is_group_start(messages@, j)),
        decreases messages.len() - i,
    {
        let start = i == 0 || starts_new_group(&messages[i - 1], &messages[i]);
        let ghost before = r@;
        if start {
            r.push(i);
        }
        assert forall|j: int| 0 <= j < i + 1 implies (r@.contains(j as usize) <==> is_group_start(
            messages@,
            j,
        )) by {
            if j < i {
                if before.contains(j as usize) {
                    let k = choose|k: int| 0 <= k < before.len() && before[k] == j as usize;
                    assert(r@[k] == j as usize);
                }
                if r@.contains(j as usize) {
                    let k = choose|k: int| 0 <= k < r@.len() && r@[k] == j as usize;
                    if k < before.len() {
                        assert(before[k] == j as usize);
                    }
                }
            } else {
                if start {
                    assert(r@[r@.len() - 1] == i);
                } else {
                    if r@.contains(i) {
                        let k = choose|k: int| 0 <= k < r@.len() && r@[k] == i;
                        assert(before[k] < i);
                    }
                }
            }
        }
        i = i + 1;
    }
    r
}

} // verus!
