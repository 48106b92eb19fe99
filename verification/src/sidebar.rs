//! What the sidebars list, and in which order: the direct messages by
//! recency, a server's channels outside categories, its categories and the
//! channels of a category.
use vstd::prelude::*;
use crate::order::{key_order, precedes, stable_order_by_key, stable_order_by_text, text_lt, text_order};
use crate::text::{chars_of, text_eq};

verus! {

#[derive(Clone, Copy, Debug, PartialEq, Eq, Structural)]
pub enum ChannelType {
    SavedMessages,
    DirectMessage,
    Group,
    TextChannel,
}

/// What the direct-message list reads of a channel.
pub struct ChannelSummary {
    pub id: String,
    pub kind: ChannelType,
    pub last_message_id: Option<String>,
}

/// The first saved-messages channel.
pub fn saved_messages(channels: &Vec<ChannelSummary>) -> (r: Option<usize>)
    ensures
        match r {
            Some(i) => i < channels.len() && channels@[i as int].kind == ChannelType::SavedMessages
                && forall|j: int| 0 <= j < i ==> #[trigger] channels@[j].kind != ChannelType::SavedMessages,
            None => forall|j: int| 0 <= j < channels.len() ==> #[trigger] channels@[j].kind != ChannelType::SavedMessages,
        },
{
    let mut i: usize = 0;
    while i < channels.len()
        invariant
            0 <= i <= channels.len(),
            forall|j: int| 0 <= j < i ==> #[trigger] channels@[j].kind != ChannelType::SavedMessages,
        decreases channels.len() - i,
    {
        if channels[i].kind == ChannelType::SavedMessages {
            return Some(i);
        }
        i = i + 1;
    }
    None
}

pub open spec fn is_conversation(c: ChannelSummary) -> bool {
    c.kind == ChannelType::DirectMessage || c.kind == ChannelType::Group
}

/// The direct messages and groups among the first `n` channels, in order.
pub open spec fn conversations_upto(channels: Seq<ChannelSummary>, n: int) -> Seq<usize>
    decreases n,
{
    if n <= 0 {
        seq![]
    } else if is_conversation(channels[n - 1]) {
        conversations_upto(channels, n - 1).push((n - 1) as usize)
    } else {
        conversations_upto(channels, n - 1)
    }
}

/// What orders a conversation: the id of its last message, else its own id.
pub open spec fn recency_key(c: ChannelSummary) -> Seq<char> {
    match c.last_message_id {
        Some(m) => m@,
        None => c.id@,
    }
}

/// The direct messages and groups, most recent first by `recency_key` in
/// text order; equal keys keep the order of `channels`.
pub open spec fn conversation_order(channels: Seq<ChannelSummary>) -> Seq<usize> {
    let ds = conversations_upto(channels, channels.len() as int);
    text_order(ds.map_values(|i: usize| recency_key(channels[i as int])), true, ds.len() as int).map_values(
        |o: usize| ds[o as int],
    )
}

proof fn lemma_conversations_upto(channels: Seq<ChannelSummary>, n: int)
    requires
        0 <= n <= channels.len(),
    ensures
        forall|k: int|
            0 <= k < conversations_upto(channels, n).len() ==> #[trigger] conversations_upto(channels, n)[k]
                < n,
    decreases n,
{
    if n > 0 {
        lemma_conversations_upto(channels, n - 1);
        let prev = conversations_upto(channels, n - 1);
        assert forall|k: int|
            0 <= k < conversations_upto(channels, n).len() implies #[trigger] conversations_upto(
            channels,
            n,
        )[k] < n by {
            if k < prev.len() {
                assert(prev[k] < n - 1);
            }
        }
    }
}

/// The direct-message list: the indices of the direct messages and groups,
/// most recent first (see `conversation_order`).
pub fn conversation_list(channels: &Vec<ChannelSummary>) -> (r: Vec<usize>)
    ensures
        r@ == conversation_order(channels@),
        r.len() == conversations_upto(channels@, channels.len() as int).len(),
        forall|k: int|
            0 <= k < r.len() ==> #[trigger] r@[k] < channels.len() && is_conversation(
                channels@[r@[k] as int],
            ),
        forall|a: int, b: int| 0 <= a < b < r.len() ==> #[trigger] r@[a] != #[trigger] r@[b],
        forall|a: int, b: int|
            0 <= a < b < r.len() ==> !text_lt(
                recency_key(channels@[#[trigger] r@[a] as int]),
                recency_key(channels@[#[trigger] r@[b] as int]),
            ),
        forall|a: int, b: int|
            0 <= a < b < r.len() && channels@[#[trigger] r@[a] as int].last_message_id is Some
                && channels@[#[trigger] r@[b] as int].last_message_id is Some ==> !text_lt(
                channels@[r@[a] as int].last_message_id.unwrap()@,
                channels@[r@[b] as int].last_message_id.unwrap()@,
            ),
        forall|a: int, b: int|
            0 <= a < b < r.len() && channels@[#[trigger] r@[a] as int].last_message_id is None
                && channels@[#[trigger] r@[b] as int].last_message_id is None ==> !text_lt(
                channels@[r@[a] as int].id@,
                channels@[r@[b] as int].id@,
            ),
{
    let mut ds: Vec<usize> = Vec::new();
    let mut i: usize = 0;
    while i < channels.len()
        invariant
            0 <= i <= channels.len(),
            ds@ == conversations_upto(channels@, i as int),
        decreases channels.len() - i,
    {
        if channels[i].kind == ChannelType::DirectMessage || channels[i].kind == ChannelType::Group {
            ds.push(i);
        }
        i = i + 1;
    }
    proof {
        lemma_conversations_upto(channels@, channels.len() as int);
    }
    let ghost spec_keys = ds@.map_values(|i: usize| recency_key(channels@[i as int]));
    let mut keys: Vec<Vec<char>> = Vec::new();
    let mut j: usize = 0;
    while j < ds.len()
        invariant
            0 <= j <= ds.len(),
            ds@ == conversations_upto(channels@, channels.len() as int),
            forall|k: int| 0 <= k < ds.len() ==> #[trigger] ds@[k] < channels.len(),
            keys.len() == j,
            forall|k: int| 0 <= k < j ==> #[trigger] keys@[k]@ == spec_keys[k],
            spec_keys == ds@.map_values(|i: usize| recency_key(channels@[i as int])),
        decreases ds.len() - j,
    {
        let c = &channels[ds[j]];
        let key = match &c.last_message_id {
            Some(m) => chars_of(m.as_str()),
            None => chars_of(c.id.as_str()),
        };
        keys.push(key);
        j = j + 1;
    }
    assert(keys@.map_values(|k: Vec<char>| k@) =~= spec_keys);
    let order = stable_order_by_text(&keys, true);
    let mut r: Vec<usize> = Vec::new();
    let mut k: usize = 0;
    while k < order.len()
        invariant
            0 <= k <= order.len(),
            order.len() == ds.len(),
            forall|q: int| 0 <= q < order.len() ==> #[trigger] order@[q] < ds.len(),
            r@ == order@.take(k as int).map_values(|o: usize| ds@[o as int]),
        decreases order.len() - k,
    {
        r.push(ds[order[k]]);
        assert(order@.take(k + 1) =~= order@.take(k as int).push(order@[k as int]));
        assert(r@ =~= order@.take(k + 1).map_values(|o: usize| ds@[o as int]));
        k = k + 1;
    }
    assert(order@.take(order.len() as int) =~= order@);
    proof {
        lemma_conversations_are(channels@, channels.len() as int);
        let ks = keys@.map_values(|k: Vec<char>| k@);
        assert forall|a: int, b: int| 0 <= a < b < r.len() implies #[trigger] r@[a] != #[trigger] r@[b] by {
            assert(order@[a] != order@[b]);
            lemma_conversations_distinct(channels@, channels.len() as int, order@[a] as int, order@[b] as int);
        }
        assert forall|a: int, b: int|
            0 <= a < b < r.len() implies !text_lt(
            recency_key(channels@[#[trigger] r@[a] as int]),
            recency_key(channels@[#[trigger] r@[b] as int]),
        ) by {
            assert(!precedes(ks[order@[b] as int], ks[order@[a] as int], true));
            assert(ks[order@[a] as int] == spec_keys[order@[a] as int]);
            assert(ks[order@[b] as int] == spec_keys[order@[b] as int]);
        }
        assert forall|q: int| 0 <= q < r.len() implies #[trigger] r@[q] < channels.len() && is_conversation(
            channels@[r@[q] as int],
        ) by {
            assert(r@[q] == ds@[order@[q] as int]);
        }
    }
    r
}

proof fn lemma_conversations_are(channels: Seq<ChannelSummary>, n: int)
    requires
        0 <= n <= channels.len(),
        channels.len() <= usize::MAX,
    ensures
        forall|k: int|
            0 <= k < conversations_upto(channels, n).len() ==> is_conversation(
                channels[#[trigger] conversations_upto(channels, n)[k] as int],
            ),
    decreases n,
{
    if n > 0 {
        lemma_conversations_are(channels, n - 1);
        lemma_conversations_upto(channels, n - 1);
        let prev = conversations_upto(channels, n - 1);
        assert forall|k: int|
            0 <= k < conversations_upto(channels, n).len() implies is_conversation(
            channels[#[trigger] conversations_upto(channels, n)[k] as int],
        ) by {
            if k < prev.len() {
                assert(conversations_upto(channels, n)[k] == prev[k]);
            } else {
                assert(is_conversation(channels[n - 1]));
                assert(conversations_upto(channels, n)[k] == (n - 1) as usize);
            }
        }
    }
}

proof fn lemma_conversations_distinct(channels: Seq<ChannelSummary>, n: int, a: int, b: int)
    requires
        0 <= n <= channels.len(),
        channels.len() <= usize::MAX,
        0 <= a < conversations_upto(channels, n).len(),
        0 <= b < conversations_upto(channels, n).len(),
        a != b,
    ensures
        conversations_upto(channels, n)[a] != conversations_upto(channels, n)[b],
    decreases n,
{
    if n > 0 {
        let prev = conversations_upto(channels, n - 1);
        lemma_conversations_upto(channels, n - 1);
        if a < prev.len() && b < prev.len() {
            lemma_conversations_distinct(channels, n - 1, a, b);
            assert(conversations_upto(channels, n)[a] == prev[a]);
            assert(conversations_upto(channels, n)[b] == prev[b]);
        } else if a < prev.len() {
            assert(conversations_upto(channels, n)[a] == prev[a]);
            assert(prev[a] < n - 1);
            assert(conversations_upto(channels, n)[b] == (n - 1) as usize);
        } else if b < prev.len() {
            assert(conversations_upto(channels, n)[b] == prev[b]);
            assert(prev[b] < n - 1);
            assert(conversations_upto(channels, n)[a] == (n - 1) as usize);
        }
    }
}

// ------------------------------------------------------------ servers

/// A category of a server's channels.
pub struct Category {
    pub id: String,
    pub title: String,
    pub channels: Vec<String>,
}

pub open spec fn default_id() -> Seq<char> {
    seq!['d', 'e', 'f', 'a', 'u', 'l', 't']
}

fn is_default_id(id: &String) -> (r: bool)
    ensures
        r == (id@ == default_id()),
{
    let d = String::from_str("default");
    proof {
        reveal_strlit("default");
    }
    assert(d@ =~= default_id());
    text_eq(id.as_str(), d.as_str())
}

pub open spec fn seq_has(list: Seq<String>, id: Seq<char>) -> bool {
    exists|j: int| 0 <= j < list.len() && #[trigger] list[j]@ == id
}

/// Whether a category other than "default" holds the channel.
pub open spec fn in_named_category(cats: Seq<Category>, id: Seq<char>) -> bool {
    exists|k: int| 0 <= k < cats.len() && #[trigger] cats[k].id@ != default_id() && seq_has(cats[k].channels@, id)
}

/// The first category with the id "default".
pub open spec fn default_category(cats: Seq<Category>) -> Option<int> {
    if exists|k: int| 0 <= k < cats.len() && #[trigger] cats[k].id@ == default_id() {
        Some(
            choose|k: int|
                0 <= k < cats.len() && #[trigger] cats[k].id@ == default_id() && forall|j: int|
                    0 <= j < k ==> #[trigger] cats[j].id@ != default_id(),
        )
    } else {
        None
    }
}

/// The first position of `id` in `list`.
pub open spec fn position_in(list: Seq<String>, id: Seq<char>) -> Option<int> {
    if seq_has(list, id) {
        Some(
            choose|j: int|
                0 <= j < list.len() && #[trigger] list[j]@ == id && forall|q: int|
                    0 <= q < j ==> #[trigger] list[q]@ != id,
        )
    } else {
        None
    }
}

/// The indices among the first `n` server channels that no named category
/// holds, in order.
pub open spec fn uncategorised_upto(channels: Seq<String>, cats: Seq<Category>, n: int) -> Seq<usize>
    decreases n,
{
    if n <= 0 {
        seq![]
    } else if !in_named_category(cats, channels[n - 1]@) {
        uncategorised_upto(channels, cats, n - 1).push((n - 1) as usize)
    } else {
        uncategorised_upto(channels, cats, n - 1)
    }
}

/// Where the default category puts a channel: its position there, or last
/// (`usize::MAX`) when it does not hold it.
pub open spec fn default_rank(list: Seq<String>, id: Seq<char>) -> i128 {
    match position_in(list, id) {
        Some(p) => p as i128,
        None => usize::MAX as i128,
    }
}

/// The channels outside named categories: ordered by their position in the
/// default category when there is one (stably, the others last), else in the
/// server's order; then only the channels the client knows.
pub open spec fn uncategorised_order(channels: Seq<String>, cats: Seq<Category>, known: Seq<String>) -> Seq<usize> {
    let us = uncategorised_upto(channels, cats, channels.len() as int);
    let ordered = match default_category(cats) {
        Some(d) => key_order(
            us.map_values(|i: usize| default_rank(cats[d].channels@, channels[i as int]@)),
            us.len() as int,
        ).map_values(|o: usize| us[o as int]),
        None => us,
    };
    ordered.filter(|i: usize| seq_has(known, channels[i as int]@))
}

fn has_text(list: &Vec<String>, id: &str) -> (r: bool)
    ensures
        r == seq_has(list@, id@),
{
    let mut j: usize = 0;
    while j < list.len()
        invariant
            0 <= j <= list.len(),
            forall|q: int| 0 <= q < j ==> #[trigger] list@[q]@ != id@,
        decreases list.len() - j,
    {
        if text_eq(list[j].as_str(), id) {
            return true;
        }
        j = j + 1;
    }
    false
}

fn position_of(list: &Vec<String>, id: &str) -> (r: Option<usize>)
    ensures
        match r {
            Some(p) => position_in(list@, id@) == Some(p as int),
            None => position_in(list@, id@) is None,
        },
{
    let mut j: usize = 0;
    while j < list.len()
        invariant
            0 <= j <= list.len(),
            forall|q: int| 0 <= q < j ==> #[trigger] list@[q]@ != id@,
        decreases list.len() - j,
    {
        if text_eq(list[j].as_str(), id) {
            proof {
                let c = choose|c: int|
                    0 <= c < list@.len() && #[trigger] list@[c]@ == id@ && forall|q: int|
                        0 <= q < c ==> #[trigger] list@[q]@ != id@;
                assert(list@[j as int]@ == id@);
                if c < j {
                    assert(list@[c]@ != id@);
                }
                if c > j {
                    assert(list@[j as int]@ != id@);
                }
            }
            return Some(j);
        }
        j = j + 1;
    }
    None
}

fn in_named_category_exec(cats: &Vec<Category>, id: &str) -> (r: bool)
    ensures
        r == in_named_category(cats@, id@),
{
    let mut k: usize = 0;
    while k < cats.len()
        invariant
            0 <= k <= cats.len(),
            forall|q: int|
                0 <= q < k ==> !(#[trigger] cats@[q].id@ != default_id() && seq_has(
                    cats@[q].channels@,
                    id@,
                )),
        decreases cats.len() - k,
    {
        if !is_default_id(&cats[k].id) && has_text(&cats[k].channels, id) {
            return true;
        }
        k = k + 1;
    }
    false
}

fn find_default(cats: &Vec<Category>) -> (r: Option<usize>)
    ensures
        match r {
            Some(d) => default_category(cats@) == Some(d as int) && d < cats.len(),
            None => default_category(cats@) is None,
        },
{
    let mut k: usize = 0;
    while k < cats.len()
        invariant
            0 <= k <= cats.len(),
            forall|q: int| 0 <= q < k ==> #[trigger] cats@[q].id@ != default_id(),
        decreases cats.len() - k,
    {
        if is_default_id(&cats[k].id) {
            proof {
                let c = choose|c: int|
                    0 <= c < cats@.len() && #[trigger] cats@[c].id@ == default_id() && forall|j: int|
                        0 <= j < c ==> #[trigger] cats@[j].id@ != default_id();
                assert(cats@[k as int].id@ == default_id());
                if c < k {
                    assert(cats@[c].id@ != default_id());
                }
                if c > k {
                    assert(cats@[k as int].id@ != default_id());
                }
            }
            return Some(k);
        }
        k = k + 1;
    }
    None
}

proof fn lemma_uncategorised_upto(channels: Seq<String>, cats: Seq<Category>, n: int)
    requires
        0 <= n <= channels.len(),
    ensures
        forall|k: int|
            0 <= k < uncategorised_upto(channels, cats, n).len() ==> #[trigger] uncategorised_upto(
                channels,
                cats,
                n,
            )[k] < n,
    decreases n,
{
    if n > 0 {
        lemma_uncategorised_upto(channels, cats, n - 1);
        let prev = uncategorised_upto(channels, cats, n - 1);
        assert forall|k: int|
            0 <= k < uncategorised_upto(channels, cats, n).len() implies #[trigger] uncategorised_upto(
            channels,
            cats,
            n,
        )[k] < n by {
            if k < prev.len() {
                assert(prev[k] < n - 1);
            }
        }
    }
}

/// The channels of a server outside named categories, as the channel list
/// shows them (see `uncategorised_order`): indices into `channels`.
pub fn uncategorised_channels(
    channels: &Vec<String>,
    categories: &Option<Vec<Category>>,
    known: &Vec<String>,
) -> (r: Vec<usize>)
    ensures
        r@ == uncategorised_order(
            channels@,
            match categories {
                Some(c) => c@,
                None => Seq::<Category>::empty(),
            },
            known@,
        ),
        forall|k: int|
            0 <= k < r.len() ==> #[trigger] r@[k] < channels.len() && seq_has(known@, channels@[r@[k] as int]@)
                && !in_named_category(
                match categories {
                    Some(c) => c@,
                    None => Seq::<Category>::empty(),
                },
                channels@[r@[k] as int]@,
            ),
{
    let empty: Vec<Category> = Vec::new();
    let cats: &Vec<Category> = match categories {
        Some(c) => c,
        None => &empty,
    };
    let mut us: Vec<usize> = Vec::new();
    let mut i: usize = 0;
    while i < channels.len()
        invariant
            0 <= i <= channels.len(),
            us@ == uncategorised_upto(channels@, cats@, i as int),
            forall|k: int| 0 <= k < us.len() ==> !in_named_category(cats@, channels@[#[trigger] us@[k] as int]@),
        decreases channels.len() - i,
    {
        if !in_named_category_exec(cats, channels[i].as_str()) {
            us.push(i);
            assert(us@[us.len() - 1] == i);
        }
        i = i + 1;
    }
    proof {
        lemma_uncategorised_upto(channels@, cats@, channels.len() as int);
    }
    let ghost ordered_spec = match default_category(cats@) {
        Some(d) => key_order(
            us@.map_values(|i: usize| default_rank(cats@[d].channels@, channels@[i as int]@)),
            us.len() as int,
        ).map_values(|o: usize| us@[o as int]),
        None => us@,
    };
    let ordered: Vec<usize> = match find_default(cats) {
        Some(d) => {
            let ghost spec_keys = us@.map_values(
                |i: usize| default_rank(cats@[d as int].channels@, channels@[i as int]@),
            );
            let mut keys: Vec<i128> = Vec::new();
            let mut j: usize = 0;
            while j < us.len()
                invariant
                    0 <= j <= us.len(),
                    d < cats.len(),
                    forall|k: int| 0 <= k < us.len() ==> #[trigger] us@[k] < channels.len(),
                    keys@ == spec_keys.take(j as int),
                    spec_keys == us@.map_values(
                        |i: usize| default_rank(cats@[d as int].channels@, channels@[i as int]@),
                    ),
                decreases us.len() - j,
            {
                let key: i128 = match position_of(&cats[d].channels, channels[us[j]].as_str()) {
                    Some(p) => p as i128,
                    None => usize::MAX as i128,
                };
                keys.push(key);
                assert(spec_keys.take(j + 1) =~= spec_keys.take(j as int).push(spec_keys[j as int]));
                j = j + 1;
            }
            assert(keys@ =~= spec_keys);
            let order = stable_order_by_key(&keys);
            let mut r: Vec<usize> = Vec::new();
            let mut k: usize = 0;
            while k < order.len()
                invariant
                    0 <= k <= order.len(),
                    order.len() == us.len(),
                    forall|q: int| 0 <= q < order.len() ==> #[trigger] order@[q] < us.len(),
                    r@ == order@.take(k as int).map_values(|o: usize| us@[o as int]),
                    forall|t: int| 0 <= t < us.len() ==> !in_named_category(cats@, channels@[#[trigger] us@[t] as int]@),
                    forall|t: int| 0 <= t < r.len() ==> !in_named_category(cats@, channels@[#[trigger] r@[t] as int]@),
                decreases order.len() - k,
            {
                r.push(us[order[k]]);
                assert(r@[r.len() - 1] == us@[order@[k as int] as int]);
                assert(order@.take(k + 1) =~= order@.take(k as int).push(order@[k as int]));
                assert(r@ =~= order@.take(k + 1).map_values(|o: usize| us@[o as int]));
                k = k + 1;
            }
            assert(order@.take(order.len() as int) =~= order@);
            r
        },
        None => us,
    };
    assert(ordered@ == ordered_spec);
    assert(forall|t: int| 0 <= t < ordered.len() ==> !in_named_category(cats@, channels@[#[trigger] ordered@[t] as int]@));
    let ghost keep = |i: usize| seq_has(known@, channels@[i as int]@);
    let mut out: Vec<usize> = Vec::new();
    let mut q: usize = 0;
    proof {
        reveal(Seq::filter);
        assert(ordered@.take(0).filter(keep) =~= Seq::<usize>::empty());
    }
    while q < ordered.len()
        invariant
            0 <= q <= ordered.len(),
            forall|k: int| 0 <= k < ordered.len() ==> #[trigger] ordered@[k] < channels.len(),
            out@ == ordered@.take(q as int).filter(keep),
            keep == (|i: usize| seq_has(known@, channels@[i as int]@)),
            forall|t: int| 0 <= t < ordered.len() ==> !in_named_category(cats@, channels@[#[trigger] ordered@[t] as int]@),
            forall|t: int|
                0 <= t < out.len() ==> #[trigger] out@[t] < channels.len() && seq_has(known@, channels@[out@[t] as int]@)
                    && !in_named_category(cats@, channels@[out@[t] as int]@),
        decreases ordered.len() - q,
    {
        let c = ordered[q];
        assert(ordered@.take(q + 1) =~= ordered@.take(q as int).push(c));
        proof {
            ordered@.take(q as int).lemma_filter_push(c, keep);
        }
        if has_text(known, channels[c].as_str()) {
            out.push(c);
            assert(out@[out.len() - 1] == c);
        }
        q = q + 1;
    }
    assert(ordered@.take(ordered.len() as int) =~= ordered@);
    out
}

/// The categories the channel list shows: every one with channels, except
/// "default", in order.
pub open spec fn shown_categories_upto(cats: Seq<Category>, n: int) -> Seq<usize>
    decreases n,
{
    if n <= 0 {
        seq![]
    } else if cats[n - 1].channels.len() > 0 && cats[n - 1].id@ != default_id() {
        shown_categories_upto(cats, n - 1).push((n - 1) as usize)
    } else {
        shown_categories_upto(cats, n - 1)
    }
}

pub fn shown_categories(categories: &Option<Vec<Category>>) -> (r: Vec<usize>)
    ensures
        r@ == match categories {
            Some(c) => shown_categories_upto(c@, c.len() as int),
            None => Seq::<usize>::empty(),
        },
{
    let mut r: Vec<usize> = Vec::new();
    match categories {
        Some(cats) => {
            let mut k: usize = 0;
            while k < cats.len()
                invariant
                    0 <= k <= cats.len(),
                    r@ == shown_categories_upto(cats@, k as int),
                decreases cats.len() - k,
            {
                if cats[k].channels.len() > 0 && !is_default_id(&cats[k].id) {
                    r.push(k);
                }
                k = k + 1;
            }
        },
        None => {},
    }
    r
}

/// The channels of a category the list shows: those the client knows, in
/// order; when the category is collapsed, only the selected channel, if it
/// is one of them.
pub open spec fn category_rows(list: Seq<String>, known: Seq<String>, expanded: bool, selected: Option<String>) -> Seq<usize> {
    let ks = Seq::new(list.len(), |i: int| i as usize).filter(|i: usize| seq_has(known, list[i as int]@));
    if expanded {
        ks
    } else {
        match selected {
            Some(s) => {
                let hits = ks.filter(|i: usize| list[i as int]@ == s@);
                if hits.len() > 0 {
                    seq![hits[0]]
                } else {
                    seq![]
                }
            },
            None => seq![],
        }
    }
}

pub fn category_channels(
    list: &Vec<String>,
    known: &Vec<String>,
    expanded: bool,
    selected: &Option<String>,
) -> (r: Vec<usize>)
    ensures
        r@ == category_rows(list@, known@, expanded, *selected),
{
    let ghost all = Seq::new(list.len() as nat, |i: int| i as usize);
    let ghost keep = |i: usize| seq_has(known@, list@[i as int]@);
    let mut ks: Vec<usize> = Vec::new();
    let mut i: usize = 0;
    proof {
        reveal(Seq::filter);
        assert(all.take(0).filter(keep) =~= Seq::<usize>::empty());
    }
    while i < list.len()
        invariant
            0 <= i <= list.len(),
            all == Seq::new(list.len() as nat, |i: int| i as usize),
            keep == (|i: usize| seq_has(known@, list@[i as int]@)),
            ks@ == all.take(i as int).filter(keep),
            forall|k: int| 0 <= k < ks.len() ==> #[trigger] ks@[k] < list.len(),
        decreases list.len() - i,
    {
        assert(all.take(i + 1) =~= all.take(i as int).push(i));
        proof {
            all.take(i as int).lemma_filter_push(i, keep);
        }
        if has_text(known, list[i].as_str()) {
            ks.push(i);
        }
        i = i + 1;
    }
    assert(all.take(list.len() as int) =~= all);
    assert(ks@ == Seq::new(list@.len(), |i: int| i as usize).filter(
        |i: usize| seq_has(known@, list@[i as int]@),
    ));
    if expanded {
        return ks;
    }
    match selected {
        Some(s) => {
            let ghost hit = |i: usize| list@[i as int]@ == s@;
            let mut k: usize = 0;
            while k < ks.len()
                invariant
                    0 <= k <= ks.len(),
                    forall|q: int| 0 <= q < ks.len() ==> #[trigger] ks@[q] < list.len(),
                    hit == (|i: usize| list@[i as int]@ == s@),
                    !expanded,
                    *selected == Some(*s),
                    ks@.take(k as int).filter(hit) =~= Seq::<usize>::empty(),
                    ks@ == Seq::new(list@.len(), |i: int| i as usize).filter(
                        |i: usize| seq_has(known@, list@[i as int]@),
                    ),
                decreases ks.len() - k,
            {
                assert(ks@.take(k + 1) =~= ks@.take(k as int).push(ks@[k as int]));
                proof {
                    reveal(Seq::filter);
                    ks@.take(k as int).lemma_filter_push(ks@[k as int], hit);
                }
                if text_eq(list[ks[k]].as_str(), s.as_str()) {
                    proof {
                        let pre = ks@.take(k as int);
                        let x = ks@[k as int];
                        assert(ks@ =~= pre.push(x) + ks@.skip(k + 1));
                        Seq::filter_distributes_over_add(pre.push(x), ks@.skip(k + 1), hit);
                        assert(hit(x));
                        assert(pre.push(x).filter(hit) =~= seq![x]);
                        let hits = ks@.filter(hit);
                        assert(hits == seq![x] + ks@.skip(k + 1).filter(hit));
                        assert(hits[0] == x);
                    }
                    let mut out: Vec<usize> = Vec::new();
                    out.push(ks[k]);
                    assert(out@ =~= seq![ks@[k as int]]);
                    return out;
                }
                k = k + 1;
            }
            assert(ks@.take(ks.len() as int) =~= ks@);
            Vec::new()
        },
        None => Vec::new(),
    }
}

/// Collapsing or expanding a category: the ids of the collapsed categories
/// lose `id` when they hold it, and gain it at the end otherwise.
pub open spec fn toggled_collapse(collapsed: Seq<String>, id: Seq<char>) -> Seq<Seq<char>> {
    let ids = collapsed.map_values(|c: String| c@);
    if ids.contains(id) {
        ids.filter(|c: Seq<char>| c != id)
    } else {
        ids.push(id)
    }
}

pub fn toggle_collapsed(collapsed: &mut Vec<String>, id: &str)
    ensures
        final(collapsed)@.map_values(|c: String| c@) == toggled_collapse(old(collapsed)@, id@),
{
    let ghost ids = old(collapsed)@.map_values(|c: String| c@);
    let ghost keep = |c: Seq<char>| c != id@;
    if has_text(collapsed, id) {
        assert(ids.contains(id@)) by {
            let j = choose|j: int| 0 <= j < old(collapsed)@.len() && #[trigger] old(collapsed)@[j]@ == id@;
            assert(ids[j] == id@);
        }
        let mut rest: Vec<String> = Vec::new();
        std::mem::swap(&mut rest, collapsed);
        let mut i: usize = 0;
        proof {
            reveal(Seq::filter);
            assert(ids.take(0).filter(keep) =~= Seq::<Seq<char>>::empty());
        }
        while i < rest.len()
            invariant
                0 <= i <= rest.len(),
                rest@ == old(collapsed)@,
                ids == old(collapsed)@.map_values(|c: String| c@),
                keep == (|c: Seq<char>| c != id@),
                collapsed@.map_values(|c: String| c@) == ids.take(i as int).filter(keep),
            decreases rest.len() - i,
        {
            assert(ids.take(i + 1) =~= ids.take(i as int).push(ids[i as int]));
            proof {
                ids.take(i as int).lemma_filter_push(ids[i as int], keep);
            }
            if !text_eq(rest[i].as_str(), id) {
                let ghost before = collapsed@;
                collapsed.push(rest[i].clone());
                assert(collapsed@.map_values(|c: String| c@) =~= before.map_values(|c: String| c@).push(
                    ids[i as int],
                ));
            }
            i = i + 1;
        }
        assert(ids.take(rest.len() as int) =~= ids);
    } else {
        assert(!ids.contains(id@)) by {
            if ids.contains(id@) {
                let j = choose|j: int| 0 <= j < ids.len() && ids[j] == id@;
                assert(old(collapsed)@[j]@ == id@);
            }
        }
        collapsed.push(String::from_str(id));
        assert(collapsed@.map_values(|c: String| c@) =~= ids.push(id@));
    }
}

} // verus!
