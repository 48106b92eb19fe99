//! The reactions on a message: each emoji with the users who reacted with
//! it, kept in insertion order and removed by swapping in the last entry.
use vstd::prelude::*;
use crate::emoji::code_points;
use crate::text::{push_str_chars, string_of, text_eq};

verus! {

/// An emoji and the users who reacted with it.
pub struct Reaction {
    pub emoji: String,
    pub users: Vec<String>,
}

/// The reactions of a message.
pub struct Reactions {
    entries: Vec<Reaction>,
}

pub open spec fn texts(v: Seq<String>) -> Seq<Seq<char>> {
    v.map_values(|s: String| s@)
}

pub open spec fn no_repeats(s: Seq<Seq<char>>) -> bool {
    forall|i: int, j: int| 0 <= i < j < s.len() ==> #[trigger] s[i] != #[trigger] s[j]
}

/// Removing position `j` by moving the last element into its place.
pub open spec fn swap_removed<A>(s: Seq<A>, j: int) -> Seq<A> {
    if j == s.len() - 1 {
        s.drop_last()
    } else {
        s.drop_last().update(j, s.last())
    }
}

pub open spec fn index_of(s: Seq<Seq<char>>, x: Seq<char>) -> Option<int> {
    if s.contains(x) {
        Some(choose|i: int| 0 <= i < s.len() && s[i] == x)
    } else {
        None
    }
}

impl View for Reactions {
    type V = Seq<(Seq<char>, Seq<Seq<char>>)>;

    closed spec fn view(&self) -> Seq<(Seq<char>, Seq<Seq<char>>)> {
        self.entries@.map_values(|r: Reaction| (r.emoji@, texts(r.users@)))
    }
}

pub open spec fn emojis_of(v: Seq<(Seq<char>, Seq<Seq<char>>)>) -> Seq<Seq<char>> {
    v.map_values(|e: (Seq<char>, Seq<Seq<char>>)| e.0)
}

/// No emoji twice, every emoji with a user, and no user twice under an
/// emoji.
pub open spec fn well_formed(v: Seq<(Seq<char>, Seq<Seq<char>>)>) -> bool {
    &&& no_repeats(emojis_of(v))
    &&& forall|i: int| 0 <= i < v.len() ==> no_repeats(#[trigger] v[i].1) && v[i].1.len() > 0
}

/// A reaction added: the user joins the emoji's users unless already there;
/// a new emoji goes last with just that user.
pub open spec fn reacted(v: Seq<(Seq<char>, Seq<Seq<char>>)>, emoji: Seq<char>, user: Seq<char>) -> Seq<
    (Seq<char>, Seq<Seq<char>>),
> {
    match index_of(emojis_of(v), emoji) {
        Some(i) => if v[i].1.contains(user) {
            v
        } else {
            v.update(i, (emoji, v[i].1.push(user)))
        },
        None => v.push((emoji, seq![user])),
    }
}

/// A reaction taken back: the user leaves the emoji's users (the last user
/// takes its place); an emoji left without users leaves the same way.
pub open spec fn unreacted(v: Seq<(Seq<char>, Seq<Seq<char>>)>, emoji: Seq<char>, user: Seq<char>) -> Seq<
    (Seq<char>, Seq<Seq<char>>),
> {
    match index_of(emojis_of(v), emoji) {
        Some(i) => {
            let users = match index_of(v[i].1, user) {
                Some(j) => swap_removed(v[i].1, j),
                None => v[i].1,
            };
            if users.len() == 0 {
                swap_removed(v, i)
            } else {
                v.update(i, (emoji, users))
            }
        },
        None => v,
    }
}

/// An emoji's reactions all removed.
pub open spec fn cleared(v: Seq<(Seq<char>, Seq<Seq<char>>)>, emoji: Seq<char>) -> Seq<(Seq<char>, Seq<Seq<char>>)> {
    match index_of(emojis_of(v), emoji) {
        Some(i) => swap_removed(v, i),
        None => v,
    }
}

fn find_text(v: &Vec<String>, x: &str) -> (r: Option<usize>)
    ensures
        match r {
            Some(i) => i < v.len() && v@[i as int]@ == x@,
            None => !texts(v@).contains(x@),
        },
{
    let mut i: usize = 0;
    while i < v.len()
        invariant
            0 <= i <= v.len(),
            forall|j: int| 0 <= j < i ==> #[trigger] v@[j]@ != x@,
        decreases v.len() - i,
    {
        if text_eq(v[i].as_str(), x) {
            return Some(i);
        }
        i = i + 1;
    }
    assert(!texts(v@).contains(x@)) by {
        if texts(v@).contains(x@) {
            let j = choose|j: int| 0 <= j < texts(v@).len() && texts(v@)[j] == x@;
            assert(v@[j]@ == x@);
        }
    }
    None
}

proof fn lemma_index_unique(s: Seq<Seq<char>>, x: Seq<char>, i: int)
    requires
        no_repeats(s),
        0 <= i < s.len(),
        s[i] == x,
    ensures
        index_of(s, x) == Some(i),
{
    assert(s.contains(x));
    let c = choose|c: int| 0 <= c < s.len() && s[c] == x;
    if c < i {
        assert(s[c] != s[i]);
    }
    if c > i {
        assert(s[i] != s[c]);
    }
}

proof fn lemma_swap_removed_no_repeats(s: Seq<Seq<char>>, j: int)
    requires
        no_repeats(s),
        0 <= j < s.len(),
    ensures
        no_repeats(swap_removed(s, j)),
        forall|k: int| 0 <= k < swap_removed(s, j).len() ==> s.contains(#[trigger] swap_removed(s, j)[k]),
        !swap_removed(s, j).contains(s[j]),
{
    let r = swap_removed(s, j);
    let last = s.len() - 1;
    assert forall|a: int, b: int| 0 <= a < b < r.len() implies #[trigger] r[a] != #[trigger] r[b] by {
        let pa = if a == j && j != last { last } else { a };
        let pb = if b == j && j != last { last } else { b };
        assert(r[a] == s[pa]);
        assert(r[b] == s[pb]);
    }
    assert forall|k: int| 0 <= k < r.len() implies s.contains(#[trigger] r[k]) by {
        let p = if k == j && j != last { last } else { k };
        assert(r[k] == s[p]);
    }
    if r.contains(s[j]) {
        let k = choose|k: int| 0 <= k < r.len() && r[k] == s[j];
        let p = if k == j && j != last { last } else { k };
        assert(r[k] == s[p]);
    }
}

impl Reactions {
    #[verifier::type_invariant]
    spec fn inv(self) -> bool {
        well_formed(self@)
    }

    pub fn new() -> (r: Self)
        ensures
            r@ == Seq::<(Seq<char>, Seq<Seq<char>>)>::empty(),
    {
        let r = Reactions { entries: Vec::new() };
        assert(r@ =~= Seq::<(Seq<char>, Seq<Seq<char>>)>::empty());
        r
    }

    /// The reactions, in order.
    pub fn entries(&self) -> (r: &Vec<Reaction>)
        ensures
            r@.map_values(|r: Reaction| (r.emoji@, texts(r.users@))) == self@,
            well_formed(self@),
    {
        proof {
            use_type_invariant(self);
        }
        &self.entries
    }

    /// Whether `user` reacted with `emoji`.
    pub fn has_reacted(&self, emoji: &str, user: &str) -> (r: bool)
        ensures
            r == match index_of(emojis_of(self@), emoji@) {
                Some(i) => self@[i].1.contains(user@),
                None => false,
            },
    {
        proof {
            use_type_invariant(self);
        }
        match self_position(&self.entries, emoji, Ghost(self@)) {
            Some(i) => {
                let found = find_text(&self.entries[i].users, user);
                proof {
                    match found {
                        Some(j) => {
                            assert(texts(self.entries@[i as int].users@)[j as int] == user@);
                        },
                        None => {},
                    }
                }
                found.is_some()
            },
            None => false,
        }
    }

    /// Someone reacted (see `reacted`).
    pub fn react(&mut self, emoji: &str, user: &str)
        ensures
            final(self)@ == reacted(old(self)@, emoji@, user@),
    {
        proof {
            use_type_invariant(&*self);
        }
        let ghost v = self@;
        let mut entries: Vec<Reaction> = Vec::new();
        std::mem::swap(&mut entries, &mut self.entries);
        match self_position(&entries, emoji, Ghost(v)) {
            Some(i) => {
                match find_text(&entries[i].users, user) {
                    Some(j) => {
                        proof {
                            assert(texts(entries@[i as int].users@)[j as int] == user@);
                        }
                    },
                    None => {
                        let mut r = entries.remove(i);
                        r.users.push(String::from_str(user));
                        entries.insert(i, r);
                        proof {
                            let nv = entries@.map_values(|r: Reaction| (r.emoji@, texts(r.users@)));
                            assert(texts(entries@[i as int].users@) =~= v[i as int].1.push(user@));
                            assert(nv =~= v.update(i as int, (emoji@, v[i as int].1.push(user@))));
                            assert(emojis_of(nv) =~= emojis_of(v));
                            assert forall|k: int| 0 <= k < nv.len() implies no_repeats(#[trigger] nv[k].1) by {
                                if k == i {
                                    assert forall|a: int, b: int|
                                        0 <= a < b < nv[k].1.len() implies #[trigger] nv[k].1[a]
                                        != #[trigger] nv[k].1[b] by {
                                        if b == nv[k].1.len() - 1 {
                                            assert(v[i as int].1[a] != user@);
                                        }
                                    }
                                } else {
                                    assert(nv[k] == v[k]);
                                }
                            }
                        }
                    },
                }
            },
            None => {
                let mut users: Vec<String> = Vec::new();
                users.push(String::from_str(user));
                entries.push(Reaction { emoji: String::from_str(emoji), users });
                proof {
                    let nv = entries@.map_values(|r: Reaction| (r.emoji@, texts(r.users@)));
                    assert(texts(entries@[entries.len() - 1].users@) =~= seq![user@]);
                    assert(nv =~= v.push((emoji@, seq![user@])));
                    assert(emojis_of(nv) =~= emojis_of(v).push(emoji@));
                    assert forall|a: int, b: int|
                        0 <= a < b < emojis_of(nv).len() implies #[trigger] emojis_of(nv)[a]
                        != #[trigger] emojis_of(nv)[b] by {
                        if b == emojis_of(nv).len() - 1 {
                            assert(emojis_of(v)[a] != emoji@);
                        }
                    }
                    assert forall|k: int| 0 <= k < nv.len() implies no_repeats(#[trigger] nv[k].1) by {
                        if k < v.len() {
                            assert(nv[k] == v[k]);
                        }
                    }
                }
            },
        }
        self.entries = entries;
    }

    /// Someone took a reaction back (see `unreacted`).
    pub fn unreact(&mut self, emoji: &str, user: &str)
        ensures
            final(self)@ == unreacted(old(self)@, emoji@, user@),
    {
        proof {
            use_type_invariant(&*self);
        }
        let ghost v = self@;
        let mut entries: Vec<Reaction> = Vec::new();
        std::mem::swap(&mut entries, &mut self.entries);
        match self_position(&entries, emoji, Ghost(v)) {
            Some(i) => {
                let ghost before = entries@;
                let mut r = entries.remove(i);
                let ghost old_users = texts(r.users@);
                assert(old_users == v[i as int].1);
                match find_text(&r.users, user) {
                    Some(j) => {
                        proof {
                            assert(old_users[j as int] == user@);
                            lemma_index_unique(old_users, user@, j as int);
                        }
                        let _ = r.users.swap_remove(j);
                        proof {
                            assert(texts(r.users@) =~= swap_removed(old_users, j as int));
                            lemma_swap_removed_no_repeats(old_users, j as int);
                        }
                    },
                    None => {
                        assert(index_of(old_users, user@) is None);
                    },
                }
                let emptied = r.users.len() == 0;
                let ghost rv = r;
                entries.insert(i, r);
                assert(entries@ =~= before.update(i as int, rv));
                if emptied {
                    let _ = entries.swap_remove(i);
                    proof {
                        let nv = entries@.map_values(|r: Reaction| (r.emoji@, texts(r.users@)));
                        assert(nv =~= swap_removed(v, i as int));
                        lemma_swap_removed_no_repeats(emojis_of(v), i as int);
                        assert(emojis_of(nv) =~= swap_removed(emojis_of(v), i as int));
                        assert forall|k: int| 0 <= k < nv.len() implies no_repeats(#[trigger] nv[k].1) by {
                            let p = if k == i && i != v.len() - 1 { v.len() - 1 } else { k };
                            assert(nv[k] == v[p]);
                        }
                    }
                } else {
                    proof {
                        let nv = entries@.map_values(|r: Reaction| (r.emoji@, texts(r.users@)));
                        assert(nv =~= v.update(i as int, (emoji@, texts(rv.users@))));
                        assert(emojis_of(nv) =~= emojis_of(v));
                        assert forall|k: int| 0 <= k < nv.len() implies no_repeats(#[trigger] nv[k].1) by {
                            if k != i {
                                assert(nv[k] == v[k]);
                            }
                        }
                    }
                }
            },
            None => {},
        }
        self.entries = entries;
    }

    /// All reactions with an emoji removed (see `cleared`).
    pub fn remove_reaction(&mut self, emoji: &str)
        ensures
            final(self)@ == cleared(old(self)@, emoji@),
    {
        proof {
            use_type_invariant(&*self);
        }
        let ghost v = self@;
        let mut entries: Vec<Reaction> = Vec::new();
        std::mem::swap(&mut entries, &mut self.entries);
        match self_position(&entries, emoji, Ghost(v)) {
            Some(i) => {
                let _ = entries.swap_remove(i);
                proof {
                    let nv = entries@.map_values(|r: Reaction| (r.emoji@, texts(r.users@)));
                    assert(nv =~= swap_removed(v, i as int));
                    lemma_swap_removed_no_repeats(emojis_of(v), i as int);
                    assert(emojis_of(nv) =~= swap_removed(emojis_of(v), i as int));
                    assert forall|k: int| 0 <= k < nv.len() implies no_repeats(#[trigger] nv[k].1) by {
                        let p = if k == i && i != v.len() - 1 { v.len() - 1 } else { k };
                        assert(nv[k] == v[p]);
                    }
                }
            },
            None => {},
        }
        self.entries = entries;
    }
}

/// Reacting with an emoji the user had not reacted with, then taking the
/// reaction back, leaves the reactions as they were.
pub proof fn law_react_then_unreact(v: Seq<(Seq<char>, Seq<Seq<char>>)>, emoji: Seq<char>, user: Seq<char>)
    requires
        well_formed(v),
        !(match index_of(emojis_of(v), emoji) {
            Some(i) => v[i].1.contains(user),
            None => false,
        }),
    ensures
        unreacted(reacted(v, emoji, user), emoji, user) == v,
{
    let w = reacted(v, emoji, user);
    match index_of(emojis_of(v), emoji) {
        Some(i) => {
            assert(emojis_of(v).contains(emoji));
            assert(emojis_of(v)[i] == emoji);
            let us = v[i].1.push(user);
            assert(w == v.update(i, (emoji, us)));
            assert(emojis_of(w) =~= emojis_of(v));
            lemma_index_unique(emojis_of(v), emoji, i);
            assert forall|a: int, b: int| 0 <= a < b < us.len() implies #[trigger] us[a] != #[trigger] us[b] by {
                if b == us.len() - 1 {
                    assert(v[i].1[a] != user);
                    assert(v[i].1.contains(v[i].1[a]));
                } else {
                    assert(no_repeats(v[i].1));
                }
            }
            lemma_index_unique(us, user, us.len() - 1);
            assert(swap_removed(us, us.len() - 1) =~= v[i].1);
            assert(v[i].1.len() > 0);
            assert(v[i] == (emoji, v[i].1));
            assert(w.update(i, (emoji, v[i].1)) =~= v);
        },
        None => {
            assert(w == v.push((emoji, seq![user])));
            assert(emojis_of(w) =~= emojis_of(v).push(emoji));
            assert(!emojis_of(v).contains(emoji));
            assert forall|a: int, b: int|
                0 <= a < b < emojis_of(w).len() implies #[trigger] emojis_of(w)[a] != #[trigger] emojis_of(w)[b] by {
                if b == emojis_of(w).len() - 1 {
                    assert(emojis_of(v).contains(emojis_of(v)[a]));
                }
            }
            lemma_index_unique(emojis_of(w), emoji, v.len() as int);
            lemma_index_unique(seq![user], user, 0);
            assert(swap_removed(seq![user], 0).len() == 0);
            assert(swap_removed(w, v.len() as int) =~= v);
        },
    }
}

/// Reacting twice with the same emoji is reacting once.
pub proof fn law_react_twice(v: Seq<(Seq<char>, Seq<Seq<char>>)>, emoji: Seq<char>, user: Seq<char>)
    requires
        well_formed(v),
    ensures
        reacted(reacted(v, emoji, user), emoji, user) == reacted(v, emoji, user),
{
    let w = reacted(v, emoji, user);
    match index_of(emojis_of(v), emoji) {
        Some(i) => {
            assert(emojis_of(v).contains(emoji));
            assert(emojis_of(v)[i] == emoji);
            if !v[i].1.contains(user) {
                let us = v[i].1.push(user);
                assert(emojis_of(w) =~= emojis_of(v));
                lemma_index_unique(emojis_of(v), emoji, i);
                assert(w[i].1 == us);
                assert(us[us.len() - 1] == user);
                assert(us.contains(user));
            }
        },
        None => {
            assert(emojis_of(w) =~= emojis_of(v).push(emoji));
            assert(!emojis_of(v).contains(emoji));
            assert forall|a: int, b: int|
                0 <= a < b < emojis_of(w).len() implies #[trigger] emojis_of(w)[a] != #[trigger] emojis_of(w)[b] by {
                if b == emojis_of(w).len() - 1 {
                    assert(emojis_of(v).contains(emojis_of(v)[a]));
                }
            }
            lemma_index_unique(emojis_of(w), emoji, v.len() as int);
            assert(w[v.len() as int].1 == seq![user]);
            assert(seq![user][0] == user);
            assert(seq![user].contains(user));
        },
    }
}

/// What pressing a reaction does: take back the reader's reaction, or
/// react with that emoji.
#[derive(Clone, Copy, Debug, PartialEq, Eq)]
pub enum ReactionAction {
    React,
    Unreact,
}

impl Reactions {
    pub fn press(&self, emoji: &str, me: &str) -> (r: ReactionAction)
        ensures
            r == if match index_of(emojis_of(self@), emoji@) {
                Some(i) => self@[i].1.contains(me@),
                None => false,
            } {
                ReactionAction::Unreact
            } else {
                ReactionAction::React
            },
    {
        if self.has_reacted(emoji, me) {
            ReactionAction::Unreact
        } else {
            ReactionAction::React
        }
    }
}

/// The length of a text in UTF-8 bytes, as `str::len` gives it.
pub open spec fn byte_len(s: Seq<char>) -> usize {
    vstd::utf8::encode_utf8(s).len() as usize
}

/// An emoji's text as a custom emoji id: 26 bytes long.
pub open spec fn is_custom(s: Seq<char>) -> bool {
    byte_len(s) == 26
}

/// Where an emoji's picture comes from.
#[derive(Debug, PartialEq, Eq)]
pub enum EmojiImage {
    /// A custom emoji, served from the file server.
    Custom(String),
    /// A unicode emoji, drawn from the Fluent set by its code points.
    Unicode(String),
}

pub open spec fn fluent_url(s: Seq<char>) -> Seq<char> {
    "https://static.stoat.chat/emoji/fluent-3d/"@ + code_points(s) + ".svg?v=1"@
}

/// The picture of a reaction's emoji: a custom emoji at `emojis_base`, a
/// slash and its id; any other at its Fluent picture.
pub fn emoji_image(emoji: &str, emojis_base: &str) -> (r: EmojiImage)
    ensures
        match r {
            EmojiImage::Custom(u) => is_custom(emoji@) && u@ == emojis_base@ + seq!['/'] + emoji@,
            EmojiImage::Unicode(u) => !is_custom(emoji@) && u@ == fluent_url(emoji@),
        },
{
    if emoji.len() == 26 {
        let mut v: Vec<char> = Vec::new();
        push_str_chars(&mut v, emojis_base);
        v.push('/');
        push_str_chars(&mut v, emoji);
        assert(v@ =~= emojis_base@ + seq!['/'] + emoji@);
        EmojiImage::Custom(string_of(&v))
    } else {
        let codes = crate::emoji::emoji_code_points(emoji);
        let mut v: Vec<char> = Vec::new();
        push_str_chars(&mut v, "https://static.stoat.chat/emoji/fluent-3d/");
        push_str_chars(&mut v, codes.as_str());
        push_str_chars(&mut v, ".svg?v=1");
        assert(v@ =~= fluent_url(emoji@));
        EmojiImage::Unicode(string_of(&v))
    }
}

/// What the picker puts in the message box for an emoji: a custom emoji's
/// id between colons, any other emoji as it is.
pub fn emoji_token(e: String) -> (r: String)
    ensures
        r@ == if is_custom(e@) {
            seq![':'] + e@ + seq![':']
        } else {
            e@
        },
{
    if e.as_str().len() == 26 {
        let mut v: Vec<char> = Vec::new();
        v.push(':');
        push_str_chars(&mut v, e.as_str());
        v.push(':');
        string_of(&v)
    } else {
        e
    }
}

/// The position of `emoji` among `entries`, which hold the reactions `v`.
fn self_position(entries: &Vec<Reaction>, emoji: &str, v: Ghost<Seq<(Seq<char>, Seq<Seq<char>>)>>) -> (r: Option<usize>)
    requires
        v@ == entries@.map_values(|r: Reaction| (r.emoji@, texts(r.users@))),
        well_formed(v@),
    ensures
        match r {
            Some(i) => i < entries.len() && index_of(emojis_of(v@), emoji@) == Some(i as int),
            None => index_of(emojis_of(v@), emoji@) is None,
        },
{
    let mut i: usize = 0;
    while i < entries.len()
        invariant
            0 <= i <= entries.len(),
            v@ == entries@.map_values(|r: Reaction| (r.emoji@, texts(r.users@))),
            well_formed(v@),
            forall|j: int| 0 <= j < i ==> #[trigger] entries@[j].emoji@ != emoji@,
        decreases entries.len() - i,
    {
        if text_eq(entries[i].emoji.as_str(), emoji) {
            proof {
                assert(emojis_of(v@)[i as int] == emoji@);
                lemma_index_unique(emojis_of(v@), emoji@, i as int);
            }
            return Some(i);
        }
        i = i + 1;
    }
    assert(!emojis_of(v@).contains(emoji@)) by {
        if emojis_of(v@).contains(emoji@) {
            let j = choose|j: int| 0 <= j < emojis_of(v@).len() && emojis_of(v@)[j] == emoji@;
            assert(entries@[j].emoji@ == emoji@);
        }
    }
    None
}

} // verus!
