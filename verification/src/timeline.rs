//! The window of loaded messages of a channel: newest first, at most
//! `WINDOW_CAP` after a page is merged in, with flags that say whether the
//! oldest and the newest message of the channel are loaded.
use vstd::prelude::*;
use crate::order::{lemma_not_lt_trans, lemma_text_lt, text_less, text_lt};
use crate::text::{chars_of, text_eq};
use std::collections::VecDeque;

verus! {

/// Messages asked for per page.
pub const PAGE_SIZE: usize = 25;

/// Messages kept when a page is merged into the window.
pub const WINDOW_CAP: usize = 75;

/// A loaded message: its id (ids of messages order them by time, as text)
/// and the message itself.
pub struct Entry<M> {
    pub id: String,
    pub message: M,
}

/// The 128-bit value a ULID text decodes to, when it is a valid ULID.
pub uninterp spec fn ulid_value(id: Seq<char>) -> Option<u128>;

/// `ulid::Ulid::from_string`: decodes a 26-character Crockford base-32
/// ULID; its value is given by the name `ulid_value`.
#[verifier::external_body]
pub(crate) fn decode_ulid(id: &str) -> (r: Option<u128>)
    ensures
        r == ulid_value(id@),
{
    ulid::Ulid::from_string(id).ok().map(|u| u.0)
}

/// `ulid::Ulid::timestamp_ms`: the milliseconds since the Unix epoch held in
/// the top 48 bits.
#[verifier::external_body]
pub(crate) fn ulid_millis(value: u128) -> (r: u64)
    ensures
        r as int == value as int / 0x100000000000000000000,
{
    ulid::Ulid(value).timestamp_ms()
}

impl<M> Entry<M> {
    /// When the message was sent, in milliseconds since the Unix epoch, read
    /// from its id; `None` when the id is no ULID.
    pub fn millis(&self) -> (r: Option<u64>)
        ensures
            match ulid_value(self.id@) {
                Some(v) => r is Some && r.unwrap() as int == v as int / 0x100000000000000000000,
                None => r is None,
            },
    {
        match decode_ulid(self.id.as_str()) {
            Some(v) => Some(ulid_millis(v)),
            None => None,
        }
    }
}

// ------------------------------------------------------------- ordering

/// Every message comes before all older ones: no id is before the id of a
/// message after it.
pub open spec fn newest_first<M>(s: Seq<Entry<M>>) -> bool {
    forall|i: int, j: int| 0 <= i < j < s.len() ==> !text_lt(#[trigger] s[i].id@, #[trigger] s[j].id@)
}

/// Where a message with id `k` goes in a newest-first sequence: after every
/// message whose id is not before `k`.
pub open spec fn insert_pos<M>(r: Seq<Entry<M>>, k: Seq<char>) -> int
    decreases r.len(),
{
    if r.len() == 0 {
        0
    } else if text_lt(r[0].id@, k) {
        0
    } else {
        1 + insert_pos(r.drop_first(), k)
    }
}

pub open spec fn insert_sorted<M>(r: Seq<Entry<M>>, x: Entry<M>) -> Seq<Entry<M>> {
    r.insert(insert_pos(r, x.id@), x)
}

/// The messages newest first; messages with equal ids keep their order.
pub open spec fn sort_newest_first<M>(s: Seq<Entry<M>>) -> Seq<Entry<M>>
    decreases s.len(),
{
    if s.len() == 0 {
        s
    } else {
        insert_sorted(sort_newest_first(s.drop_last()), s.last())
    }
}

pub proof fn lemma_insert_pos<M>(r: Seq<Entry<M>>, k: Seq<char>)
    ensures
        0 <= insert_pos(r, k) <= r.len(),
        forall|j: int| 0 <= j < insert_pos(r, k) ==> !text_lt(#[trigger] r[j].id@, k),
        insert_pos(r, k) < r.len() ==> text_lt(r[insert_pos(r, k)].id@, k),
    decreases r.len(),
{
    if r.len() > 0 && !text_lt(r[0].id@, k) {
        lemma_insert_pos(r.drop_first(), k);
        assert forall|j: int| 0 <= j < insert_pos(r, k) implies !text_lt(#[trigger] r[j].id@, k) by {
            if j > 0 {
                assert(r[j] == r.drop_first()[j - 1]);
            }
        }
    }
}

pub proof fn lemma_insert_sorted<M>(r: Seq<Entry<M>>, x: Entry<M>)
    requires
        newest_first(r),
    ensures
        newest_first(insert_sorted(r, x)),
        insert_sorted(r, x).len() == r.len() + 1,
        insert_sorted(r, x).to_multiset() == r.to_multiset().insert(x),
{
    lemma_insert_pos(r, x.id@);
    let p = insert_pos(r, x.id@);
    let t = insert_sorted(r, x);
    assert forall|i: int, j: int| 0 <= i < j < t.len() implies !text_lt(
        #[trigger] t[i].id@,
        #[trigger] t[j].id@,
    ) by {
        if j < p {
        } else if j == p {
            assert(t[i] == r[i]);
        } else if i < p {
            assert(t[j] == r[j - 1]);
            if i < j - 1 {
                assert(!text_lt(r[i].id@, r[j - 1].id@));
            }
        } else if i == p {
            assert(t[j] == r[j - 1]);
            assert(p < r.len());
            if p < j - 1 {
                assert(!text_lt(r[p].id@, r[j - 1].id@));
            }
            lemma_text_lt(r[p].id@, r[p].id@, r[p].id@);
            lemma_not_lt_trans(x.id@, r[p].id@, r[j - 1].id@);
        } else {
            assert(t[i] == r[i - 1]);
            assert(t[j] == r[j - 1]);
        }
    }
    vstd::seq_lib::to_multiset_insert(r, p, x);
}

/// Sorting newest first gives a newest-first permutation of the messages.
pub proof fn lemma_sort<M>(s: Seq<Entry<M>>)
    ensures
        newest_first(sort_newest_first(s)),
        sort_newest_first(s).len() == s.len(),
        sort_newest_first(s).to_multiset() == s.to_multiset(),
    decreases s.len(),
{
    if s.len() > 0 {
        lemma_sort(s.drop_last());
        lemma_insert_sorted(sort_newest_first(s.drop_last()), s.last());
        vstd::seq_lib::to_multiset_build(s.drop_last(), s.last());
        assert(s.drop_last().push(s.last()) =~= s);
    }
}

fn id_before(a: &String, b: &String) -> (r: bool)
    ensures
        r == text_lt(a@, b@),
{
    text_less(&chars_of(a.as_str()), &chars_of(b.as_str()))
}

fn insertion_index<M>(r: &VecDeque<Entry<M>>, k: &String) -> (j: usize)
    ensures
        j as int == insert_pos(r@, k@),
        j <= r.len(),
{
    proof {
        lemma_insert_pos(r@, k@);
    }
    let mut j: usize = 0;
    while j < r.len() && !id_before(&r[j].id, k)
        invariant
            0 <= j <= r.len(),
            forall|i: int| 0 <= i < j ==> !text_lt(#[trigger] r@[i].id@, k@),
        decreases r.len() - j,
    {
        j = j + 1;
    }
    proof {
        let p = insert_pos(r@, k@);
        if (j as int) < p {
            assert(!text_lt(r@[j as int].id@, k@));
        }
        if p < j {
            assert(!text_lt(r@[p].id@, k@));
        }
    }
    j
}

/// The messages of a page, in a deque, in the same order.
pub fn deque_of<M>(v: Vec<Entry<M>>) -> (r: VecDeque<Entry<M>>)
    ensures
        r@ == v@,
{
    let ghost orig = v@;
    let mut v = v;
    let mut r: VecDeque<Entry<M>> = VecDeque::new();
    assert(orig.skip(0) =~= orig);
    while v.len() > 0
        invariant
            v.len() <= orig.len(),
            v@ == orig.skip(orig.len() - v.len()),
            r@ == orig.take(orig.len() - v.len()),
        decreases v.len(),
    {
        let ghost t = orig.len() - v.len();
        let x = v.remove(0);
        assert(v@ =~= orig.skip(orig.len() - v.len()));
        r.push_back(x);
        assert(r@ =~= orig.take(t + 1));
    }
    assert(orig.take(orig.len() as int) =~= orig);
    r
}

/// Sorts messages newest first; messages with equal ids keep their order.
pub fn sort_entries<M>(v: VecDeque<Entry<M>>) -> (r: VecDeque<Entry<M>>)
    ensures
        r@ == sort_newest_first(v@),
{
    let ghost orig = v@;
    let mut v = v;
    let mut r: VecDeque<Entry<M>> = VecDeque::new();
    assert(orig.take(0) =~= Seq::<Entry<M>>::empty());
    assert(orig.skip(0) =~= orig);
    while v.len() > 0
        invariant
            v.len() <= orig.len(),
            v@ == orig.skip(orig.len() - v.len()),
            r@ == sort_newest_first(orig.take(orig.len() - v.len())),
        decreases v.len(),
    {
        let ghost t = orig.len() - v.len();
        let x = v.pop_front().unwrap();
        assert(x == orig[t]);
        assert(v@ =~= orig.skip(orig.len() - v.len()));
        let j = insertion_index(&r, &x.id);
        r.insert(j, x);
        assert(orig.take(t + 1).drop_last() =~= orig.take(t));
        assert(orig.take(t + 1).last() == orig[t]);
    }
    assert(orig.take(orig.len() as int) =~= orig);
    r
}

// -------------------------------------------------------------- merging

/// An older page merged in: all messages newest first; past the cap the
/// newest ones are dropped.
pub open spec fn merge_older<M>(old: Seq<Entry<M>>, page: Seq<Entry<M>>) -> Seq<Entry<M>> {
    let all = sort_newest_first(old + page);
    if page.len() == 0 {
        old
    } else if all.len() > WINDOW_CAP {
        all.skip(all.len() - WINDOW_CAP)
    } else {
        all
    }
}

/// A newer page merged in: all messages newest first; past the cap the
/// oldest ones are dropped.
pub open spec fn merge_newer<M>(old: Seq<Entry<M>>, page: Seq<Entry<M>>) -> Seq<Entry<M>> {
    let all = sort_newest_first(old + page);
    if page.len() == 0 {
        old
    } else if all.len() > WINDOW_CAP {
        all.take(WINDOW_CAP as int)
    } else {
        all
    }
}

/// The messages of `all` past its first `k` come after them in a
/// newest-first order, and the two parts together hold all of `all`.
proof fn lemma_split<M>(all: Seq<Entry<M>>, k: int)
    requires
        0 <= k <= all.len(),
    ensures
        (all.take(k) + all.skip(k)).to_multiset() == all.to_multiset(),
        all.skip(k).to_multiset().subset_of(all.to_multiset()),
        all.take(k).to_multiset().subset_of(all.to_multiset()),
{
    assert(all.take(k) + all.skip(k) =~= all);
    vstd::seq_lib::lemma_multiset_commutative(all.take(k), all.skip(k));
}

/// Loading an older page: afterwards the window is newest first and holds
/// `WINDOW_CAP` messages, or all of them when they fit; it holds only
/// messages that were loaded or fetched; and every one of those that is
/// older than the newest message kept is kept.
pub proof fn law_merge_older<M>(old: Seq<Entry<M>>, page: Seq<Entry<M>>)
    requires
        page.len() > 0,
    ensures
        newest_first(merge_older(old, page)),
        merge_older(old, page).len() == if old.len() + page.len() > WINDOW_CAP {
            WINDOW_CAP as int
        } else {
            (old.len() + page.len()) as int
        },
        merge_older(old, page).to_multiset().subset_of((old + page).to_multiset()),
        forall|e: Entry<M>|
            (old + page).contains(e) && text_lt(e.id@, merge_older(old, page)[0].id@)
                ==> #[trigger] merge_older(old, page).contains(e),
{
    let all = sort_newest_first(old + page);
    lemma_sort(old + page);
    let k: int = if all.len() > WINDOW_CAP {
        all.len() - WINDOW_CAP
    } else {
        0
    };
    let r = merge_older(old, page);
    assert(all.skip(0) =~= all);
    assert(r == all.skip(k));
    lemma_split(all, k);
    (old + page).to_multiset_ensures();
    all.to_multiset_ensures();
    assert forall|e: Entry<M>|
        (old + page).contains(e) && text_lt(e.id@, r[0].id@) implies #[trigger] r.contains(e) by {
        assert((old + page).to_multiset().count(e) > 0);
        assert(all.to_multiset().count(e) > 0);
        assert(all.contains(e));
        let j = choose|j: int| 0 <= j < all.len() && all[j] == e;
        if j < k {
            assert(!text_lt(all[j].id@, all[k].id@));
        } else {
            assert(r[j - k] == e);
        }
    }
}

/// Loading a newer page: afterwards the window is newest first and holds
/// `WINDOW_CAP` messages, or all of them when they fit; it holds only
/// messages that were loaded or fetched; and every one of those that is
/// newer than the oldest message kept is kept.
pub proof fn law_merge_newer<M>(old: Seq<Entry<M>>, page: Seq<Entry<M>>)
    requires
        page.len() > 0,
    ensures
        newest_first(merge_newer(old, page)),
        merge_newer(old, page).len() == if old.len() + page.len() > WINDOW_CAP {
            WINDOW_CAP as int
        } else {
            (old.len() + page.len()) as int
        },
        merge_newer(old, page).to_multiset().subset_of((old + page).to_multiset()),
        forall|e: Entry<M>|
            (old + page).contains(e) && text_lt(merge_newer(old, page).last().id@, e.id@)
                ==> #[trigger] merge_newer(old, page).contains(e),
{
    let all = sort_newest_first(old + page);
    lemma_sort(old + page);
    let k: int = if all.len() > WINDOW_CAP {
        WINDOW_CAP as int
    } else {
        all.len() as int
    };
    let r = merge_newer(old, page);
    assert(all.take(all.len() as int) =~= all);
    assert(r == all.take(k));
    lemma_split(all, k);
    (old + page).to_multiset_ensures();
    all.to_multiset_ensures();
    assert forall|e: Entry<M>|
        (old + page).contains(e) && text_lt(r.last().id@, e.id@) implies #[trigger] r.contains(e) by {
        assert((old + page).to_multiset().count(e) > 0);
        assert(all.to_multiset().count(e) > 0);
        assert(all.contains(e));
        let j = choose|j: int| 0 <= j < all.len() && all[j] == e;
        if j >= k {
            assert(!text_lt(all[k - 1].id@, all[j].id@));
        } else {
            assert(r[j] == e);
        }
    }
}

/// A message that arrives is put first; the loaded messages stay newest
/// first when it is at least as new as the newest loaded one.
pub proof fn law_receive_keeps_order<M>(entries: Seq<Entry<M>>, e: Entry<M>)
    requires
        newest_first(entries),
        entries.len() > 0 ==> !text_lt(e.id@, entries[0].id@),
    ensures
        newest_first(seq![e] + entries),
{
    let r = seq![e] + entries;
    assert forall|i: int, j: int| 0 <= i < j < r.len() implies !text_lt(#[trigger] r[i].id@, #[trigger] r[j].id@) by {
        if i == 0 {
            assert(r[j] == entries[j - 1]);
            if j - 1 > 0 {
                assert(!text_lt(entries[0].id@, entries[j - 1].id@));
                lemma_not_lt_trans(e.id@, entries[0].id@, entries[j - 1].id@);
            }
        } else {
            assert(r[i] == entries[i - 1] && r[j] == entries[j - 1]);
        }
    }
}

/// A message that arrives while the newest messages are loaded, and is
/// then deleted, leaves the loaded messages as they were, unless a message
/// with its key was already loaded.
pub proof fn law_receive_then_delete<M>(entries: Seq<Entry<M>>, e: Entry<M>)
    requires
        !contains_key(entries, e.id@),
    ensures
        (seq![e] + entries).filter(|x: Entry<M>| x.id@ != e.id@) == entries,
{
    let keep = |x: Entry<M>| x.id@ != e.id@;
    Seq::filter_distributes_over_add(seq![e], entries, keep);
    assert(seq![e] =~= Seq::<Entry<M>>::empty().push(e));
    Seq::<Entry<M>>::empty().lemma_filter_push(e, keep);
    reveal(Seq::filter);
    assert(Seq::<Entry<M>>::empty().filter(keep) =~= Seq::<Entry<M>>::empty());
    assert forall|i: int| 0 <= i < entries.len() implies keep(#[trigger] entries[i]) by {
        if entries[i].id@ == e.id@ {
            assert(contains_key(entries, e.id@));
        }
    }
    crate::replies::lemma_filter_keeps_all(entries, keep);
    assert(Seq::<Entry<M>>::empty() + entries =~= entries);
}

/// What a channel's window was when the client left it.
pub struct StoredWindow<M> {
    pub entries: VecDeque<Entry<M>>,
    pub at_start: bool,
    pub at_end: bool,
}

/// The loaded messages of a channel.
pub struct MessageWindow<M> {
    pub channel: String,
    /// Newest first.
    pub entries: VecDeque<Entry<M>>,
    /// The oldest message of the channel is loaded.
    pub at_start: bool,
    /// The newest message of the channel is loaded.
    pub at_end: bool,
}

/// Whether opening a channel fetches a first page: unless a stored window is
/// reused, which happens when there is one and no message to centre on.
pub open spec fn fetch_on_open(stored: bool, nearby: bool) -> bool {
    !(stored && !nearby)
}

pub fn needs_fetch(stored: bool, nearby: bool) -> (r: bool)
    ensures
        r == fetch_on_open(stored, nearby),
{
    !(stored && !nearby)
}

pub open spec fn contains_key<M>(s: Seq<Entry<M>>, k: Seq<char>) -> bool {
    exists|i: int| 0 <= i < s.len() && #[trigger] s[i].id@ == k
}

fn has_key<M>(v: &VecDeque<Entry<M>>, k: &str) -> (r: bool)
    ensures
        r == contains_key(v@, k@),
{
    let mut i: usize = 0;
    while i < v.len()
        invariant
            0 <= i <= v.len(),
            forall|j: int| 0 <= j < i ==> #[trigger] v@[j].id@ != k@,
        decreases v.len() - i,
    {
        if text_eq(v[i].id.as_str(), k) {
            return true;
        }
        i = i + 1;
    }
    false
}

/// Where scrolling goes after a channel opens.
#[derive(Clone, Copy, Debug, PartialEq, Eq)]
pub enum ScrollTarget {
    /// Back to where the reader was.
    Restore(i32),
    /// To the newest message.
    End,
    Stay,
}

impl<M> MessageWindow<M> {
    /// The window a channel opens with.
    ///
    /// With a stored window and no message to centre on, the stored messages
    /// and flags come back. Otherwise the fetched page is used, newest first:
    /// centred on a message, the newest message is loaded when the page holds
    /// the channel's last message (`channel_last` is `None` for a channel
    /// that does not track one, which leaves it loaded); a page shorter than
    /// `PAGE_SIZE` holds the oldest message too.
    pub fn open(
        channel: String,
        stored: Option<StoredWindow<M>>,
        fetched: Option<Vec<Entry<M>>>,
        nearby: bool,
        channel_last: Option<Option<String>>,
    ) -> (r: Self)
        requires
            fetch_on_open(stored is Some, nearby) ==> fetched is Some,
        ensures
            r.channel == channel,
            stored is Some && !nearby ==> r.entries@ == stored.unwrap().entries@ && r.at_start
                == stored.unwrap().at_start && r.at_end == stored.unwrap().at_end,
            !(stored is Some && !nearby) ==> {
                &&& r.entries@ == sort_newest_first(fetched.unwrap()@)
                &&& nearby ==> !r.at_start && r.at_end == match channel_last {
                    Some(last) => match last {
                        Some(k) => contains_key(r.entries@, k@),
                        None => false,
                    },
                    None => true,
                }
                &&& !nearby ==> r.at_end && r.at_start == (fetched.unwrap().len() < PAGE_SIZE)
            },
    {
        let reuse = stored.is_some() && !nearby;
        if reuse {
            let st = stored.unwrap();
            return MessageWindow {
                channel,
                entries: st.entries,
                at_start: st.at_start,
                at_end: st.at_end,
            };
        }
        let page = fetched.unwrap();
        let n = page.len();
        let entries = sort_entries(deque_of(page));
        proof {
            lemma_sort(fetched.unwrap()@);
        }
        let mut at_start = false;
        let mut at_end = true;
        if nearby {
            match channel_last {
                Some(last) => {
                    at_end = match last {
                        Some(k) => has_key(&entries, k.as_str()),
                        None => false,
                    };
                },
                None => {},
            }
        } else if n < PAGE_SIZE {
            at_start = true;
        }
        MessageWindow { channel, entries, at_start, at_end }
    }

    /// The id to load older messages before: the oldest loaded message,
    /// unless the oldest message of the channel is loaded or nothing is.
    pub fn older_anchor(&self) -> (r: Option<String>)
        ensures
            r == if self.at_start || self.entries.len() == 0 {
                None::<String>
            } else {
                Some(self.entries@.last().id)
            },
    {
        if self.at_start || self.entries.len() == 0 {
            None
        } else {
            Some(self.entries[self.entries.len() - 1].id.clone())
        }
    }

    /// The id to load newer messages after: the newest loaded message,
    /// unless the newest message of the channel is loaded or nothing is.
    pub fn newer_anchor(&self) -> (r: Option<String>)
        ensures
            r == if self.at_end || self.entries.len() == 0 {
                None::<String>
            } else {
                Some(self.entries@[0].id)
            },
    {
        if self.at_end || self.entries.len() == 0 {
            None
        } else {
            Some(self.entries[0].id.clone())
        }
    }

    /// Merges a page of older messages. A short page means the oldest
    /// message is reached; when the cap drops messages, the newest ones go
    /// and the newest message is no longer loaded.
    pub fn apply_older(&mut self, page: Vec<Entry<M>>)
        requires
            old(self).entries.len() + page.len() <= usize::MAX,
        ensures
            final(self).entries@ == merge_older(old(self).entries@, page@),
            final(self).at_start == (old(self).at_start || page.len() < PAGE_SIZE),
            final(self).at_end == (old(self).at_end && !(page.len() > 0 && old(
                self,
            ).entries.len() + page.len() > WINDOW_CAP)),
            final(self).channel == old(self).channel,
    {
        let n = page.len();
        let m = self.entries.len();
        if n < PAGE_SIZE {
            self.at_start = true;
        }
        if n > 0 {
            let total = n + m;
            if total > WINDOW_CAP {
                self.at_end = false;
            }
            let mut all: VecDeque<Entry<M>> = VecDeque::new();
            std::mem::swap(&mut all, &mut self.entries);
            let ghost old_entries = all@;
            let ghost page_entries = page@;
            let mut page = deque_of(page);
            all.append(&mut page);
            assert(all@ == old_entries + page_entries);
            let mut sorted = sort_entries(all);
            proof {
                lemma_sort(old_entries + page_entries);
            }
            if total > WINDOW_CAP {
                let kept = sorted.split_off(total - WINDOW_CAP);
                self.entries = kept;
            } else {
                self.entries = sorted;
            }
        }
    }

    /// Merges a page of newer messages. A short page means the newest
    /// message is reached; when the cap drops messages, the oldest ones go
    /// and the oldest message is no longer loaded.
    pub fn apply_newer(&mut self, page: Vec<Entry<M>>)
        requires
            old(self).entries.len() + page.len() <= usize::MAX,
        ensures
            final(self).entries@ == merge_newer(old(self).entries@, page@),
            final(self).at_end == (old(self).at_end || page.len() < PAGE_SIZE),
            final(self).at_start == (old(self).at_start && !(page.len() > 0 && old(
                self,
            ).entries.len() + page.len() > WINDOW_CAP)),
            final(self).channel == old(self).channel,
    {
        let n = page.len();
        let m = self.entries.len();
        if n < PAGE_SIZE {
            self.at_end = true;
        }
        if n > 0 {
            let total = n + m;
            if total > WINDOW_CAP {
                self.at_start = false;
            }
            let mut all: VecDeque<Entry<M>> = VecDeque::new();
            std::mem::swap(&mut all, &mut self.entries);
            let ghost old_entries = all@;
            let ghost page_entries = page@;
            let mut page = deque_of(page);
            all.append(&mut page);
            let mut sorted = sort_entries(all);
            proof {
                lemma_sort(old_entries + page_entries);
            }
            if total > WINDOW_CAP {
                sorted.truncate(WINDOW_CAP);
            }
            self.entries = sorted;
        }
    }

    /// A message sent to a channel: it is put first when it belongs to this
    /// channel and the newest message is loaded; otherwise nothing changes.
    pub fn receive(&mut self, channel_id: &str, entry: Entry<M>)
        ensures
            final(self).channel == old(self).channel,
            final(self).at_start == old(self).at_start,
            final(self).at_end == old(self).at_end,
            final(self).entries@ == if old(self).channel@ == channel_id@ && old(self).at_end {
                seq![entry] + old(self).entries@
            } else {
                old(self).entries@
            },
    {
        if text_eq(self.channel.as_str(), channel_id) && self.at_end {
            self.entries.push_front(entry);
        }
    }

    /// A deleted message: every loaded message with that id goes when the
    /// channel matches.
    pub fn remove_message(&mut self, channel_id: &str, key: &str)
        ensures
            final(self).channel == old(self).channel,
            final(self).at_start == old(self).at_start,
            final(self).at_end == old(self).at_end,
            final(self).entries@ == if old(self).channel@ == channel_id@ {
                old(self).entries@.filter(|e: Entry<M>| e.id@ != key@)
            } else {
                old(self).entries@
            },
            old(self).channel@ == channel_id@ ==> !contains_key(final(self).entries@, key@),
    {
        if !text_eq(self.channel.as_str(), channel_id) {
            return;
        }
        let ghost keep = |e: Entry<M>| e.id@ != key@;
        let mut rest: VecDeque<Entry<M>> = VecDeque::new();
        std::mem::swap(&mut rest, &mut self.entries);
        let ghost orig = rest@;
        let mut out: VecDeque<Entry<M>> = VecDeque::new();
        proof {
            reveal(Seq::filter);
            assert(orig.skip(0) =~= orig);
            assert(out@ =~= orig.take(0).filter(keep));
        }
        while rest.len() > 0
            invariant
                rest.len() <= orig.len(),
                rest@ == orig.skip(orig.len() - rest.len()),
                out@ == orig.take(orig.len() - rest.len()).filter(keep),
                keep == (|e: Entry<M>| e.id@ != key@),
            decreases rest.len(),
        {
            let ghost t = orig.len() - rest.len();
            let x = rest.pop_front().unwrap();
            assert(x == orig[t]);
            assert(rest@ =~= orig.skip(orig.len() - rest.len()));
            assert(orig.take(t + 1) =~= orig.take(t).push(orig[t]));
            proof {
                orig.take(t).lemma_filter_push(orig[t], keep);
            }
            if !text_eq(x.id.as_str(), key) {
                out.push_back(x);
                assert(out@ =~= orig.take(t + 1).filter(keep));
            } else {
                assert(out@ =~= orig.take(t + 1).filter(keep));
            }
        }
        assert(orig.take(orig.len() as int) =~= orig);
        proof {
            orig.filter_lemma(keep);
            if contains_key(out@, key@) {
                let i = choose|i: int| 0 <= i < out@.len() && #[trigger] out@[i].id@ == key@;
                assert(keep(out@[i]));
            }
        }
        self.entries = out;
    }

    /// The first loaded message with id `key`, when the channel matches.
    pub fn position(&self, channel_id: &str, key: &str) -> (r: Option<usize>)
        ensures
            match r {
                Some(i) => self.channel@ == channel_id@ && i < self.entries.len()
                    && self.entries@[i as int].id@ == key@ && forall|j: int|
                    0 <= j < i ==> #[trigger] self.entries@[j].id@ != key@,
                None => self.channel@ != channel_id@ || !contains_key(self.entries@, key@),
            },
    {
        if !text_eq(self.channel.as_str(), channel_id) {
            return None;
        }
        let mut i: usize = 0;
        while i < self.entries.len()
            invariant
                0 <= i <= self.entries.len(),
                self.channel@ == channel_id@,
                forall|j: int| 0 <= j < i ==> #[trigger] self.entries@[j].id@ != key@,
            decreases self.entries.len() - i,
        {
            if text_eq(self.entries[i].id.as_str(), key) {
                return Some(i);
            }
            i = i + 1;
        }
        None
    }

    /// What the client keeps of this window when it leaves the channel.
    pub fn into_stored(self) -> (r: StoredWindow<M>)
        ensures
            r.entries@ == self.entries@,
            r.at_start == self.at_start,
            r.at_end == self.at_end,
    {
        StoredWindow { entries: self.entries, at_start: self.at_start, at_end: self.at_end }
    }
}

/// Embeds appended to a message: added after its embeds, which a message
/// without any gains; without new embeds nothing changes.
pub fn append_embeds<E>(existing: Option<Vec<E>>, appended: Option<Vec<E>>) -> (r: Option<Vec<E>>)
    ensures
        match appended {
            Some(a) => r is Some && r.unwrap()@ == match existing {
                Some(e) => e@,
                None => Seq::<E>::empty(),
            } + a@,
            None => r == existing,
        },
{
    match appended {
        Some(a) => {
            let mut all = match existing {
                Some(e) => e,
                None => Vec::new(),
            };
            let mut a = a;
            all.append(&mut a);
            Some(all)
        },
        None => existing,
    }
}

/// Which load of messages is under way.
#[derive(Clone, Copy, Debug, PartialEq, Eq, Structural)]
pub enum FetchDirection {
    /// The first page when a channel opens.
    Initial,
    /// Older messages.
    Upward,
    /// Newer messages.
    Downward,
}

/// The loads of a channel's messages: which one runs, and whether a running
/// one was overtaken by the channel opening again.
pub struct FetchControl {
    pub fetching: Option<FetchDirection>,
    pub failed: bool,
    /// A load that finds this set drops what it fetched.
    pub preempted: bool,
    /// A load has begun, so opening the channel again overtakes it.
    pub can_preempt: bool,
}

impl FetchControl {
    pub fn new() -> (r: Self)
        ensures
            r.fetching is None,
            !r.failed,
            !r.preempted,
            !r.can_preempt,
    {
        FetchControl { fetching: None, failed: false, preempted: false, can_preempt: false }
    }

    /// Whether a load of older or newer messages may start.
    pub fn can_fetch(&self) -> (r: bool)
        ensures
            r == (self.fetching is None || !self.failed),
    {
        self.fetching.is_none() || !self.failed
    }

    /// Whether the message list may ask for more messages.
    pub fn permits_fetching(&self) -> (r: bool)
        ensures
            r == self.fetching is None,
    {
        self.fetching.is_none()
    }

    fn renew_preemption(&mut self)
        ensures
            !final(self).preempted,
            final(self).can_preempt,
            final(self).fetching == old(self).fetching,
            final(self).failed == old(self).failed,
    {
        self.preempted = false;
        self.can_preempt = true;
    }

    /// The channel opens: a running load is overtaken (the flag it would
    /// see is set and, at once, cleared again for the new load), and the
    /// first page starts loading.
    pub fn open_channel(&mut self)
        ensures
            final(self).fetching == Some(FetchDirection::Initial),
            !final(self).failed,
            !final(self).preempted,
            final(self).can_preempt,
    {
        self.fetching = None;
        self.failed = false;
        if self.can_preempt {
            self.preempted = true;
        }
        self.fetching = Some(FetchDirection::Initial);
        self.renew_preemption();
    }

    /// Starts loading older messages, unless the oldest is loaded or a load
    /// may not start; says whether it started.
    pub fn begin_older(&mut self, at_start: bool) -> (r: bool)
        ensures
            r == (!at_start && (old(self).fetching is None || !old(self).failed)),
            r ==> final(self).fetching == Some(FetchDirection::Upward) && !final(self).preempted
                && final(self).can_preempt && final(self).failed == old(self).failed,
            !r ==> *final(self) == *old(self),
    {
        if at_start || !self.can_fetch() {
            return false;
        }
        self.fetching = Some(FetchDirection::Upward);
        self.renew_preemption();
        true
    }

    /// Starts loading newer messages, unless the newest is loaded or a load
    /// may not start; says whether it started.
    pub fn begin_newer(&mut self, at_end: bool) -> (r: bool)
        ensures
            r == (!at_end && (old(self).fetching is None || !old(self).failed)),
            r ==> final(self).fetching == Some(FetchDirection::Downward) && !final(self).preempted
                && final(self).can_preempt && final(self).failed == old(self).failed,
            !r ==> *final(self) == *old(self),
    {
        if at_end || !self.can_fetch() {
            return false;
        }
        self.fetching = Some(FetchDirection::Downward);
        self.renew_preemption();
        true
    }

    /// Whether a load that just returned may apply what it fetched.
    pub fn may_apply(&self) -> (r: bool)
        ensures
            r == !self.preempted,
    {
        !self.preempted
    }

    /// A load applied its messages and is done.
    pub fn finish(&mut self)
        ensures
            final(self).fetching is None,
            final(self).failed == old(self).failed,
            final(self).preempted == old(self).preempted,
            final(self).can_preempt == old(self).can_preempt,
    {
        self.fetching = None;
    }

    /// Whether leaving the channel keeps its window: not while the first
    /// page is still loading.
    pub fn keeps_window_on_leave(&self) -> (r: bool)
        ensures
            r == (self.fetching != Some(FetchDirection::Initial)),
    {
        match self.fetching {
            Some(FetchDirection::Initial) => false,
            _ => true,
        }
    }
}

/// After opening: back to the stored position when the stored window did
/// not hold the newest message; else to the end when the newest message is
/// loaded.
pub fn scroll_after_open(stored_scroll: Option<i32>, stored_at_end: Option<bool>, at_end: bool) -> (r: ScrollTarget)
    ensures
        r == match (stored_scroll, stored_at_end) {
            (Some(y), Some(false)) => ScrollTarget::Restore(y),
            _ => if at_end {
                ScrollTarget::End
            } else {
                ScrollTarget::Stay
            },
        },
{
    match (stored_scroll, stored_at_end) {
        (Some(y), Some(false)) => ScrollTarget::Restore(y),
        _ => if at_end {
            ScrollTarget::End
        } else {
            ScrollTarget::Stay
        },
    }
}

} // verus!
