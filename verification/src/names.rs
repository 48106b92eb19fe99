//! The names the client shows for users and channels.
use vstd::prelude::*;
use crate::text::{push_str_chars, string_of, text_eq};

verus! {

/// A user the client knows: its id and username.
pub struct KnownUser {
    pub id: String,
    pub username: String,
}

/// The first known user with `id`.
pub open spec fn lookup(users: Seq<KnownUser>, id: Seq<char>) -> Option<int> {
    if exists|i: int| 0 <= i < users.len() && #[trigger] users[i].id@ == id {
        Some(
            choose|i: int|
                0 <= i < users.len() && #[trigger] users[i].id@ == id && forall|j: int|
                    0 <= j < i ==> #[trigger] users[j].id@ != id,
        )
    } else {
        None
    }
}

/// The position of the first known user with `id`.
pub fn find_user(users: &Vec<KnownUser>, id: &str) -> (r: Option<usize>)
    ensures
        match r {
            Some(i) => i < users.len() && users@[i as int].id@ == id@ && forall|j: int|
                0 <= j < i ==> #[trigger] users@[j].id@ != id@,
            None => forall|j: int| 0 <= j < users.len() ==> #[trigger] users@[j].id@ != id@,
        },
        match r {
            Some(i) => lookup(users@, id@) == Some(i as int),
            None => lookup(users@, id@) is None,
        },
{
    let mut i: usize = 0;
    while i < users.len()
        invariant
            0 <= i <= users.len(),
            forall|j: int| 0 <= j < i ==> #[trigger] users@[j].id@ != id@,
        decreases users.len() - i,
    {
        if text_eq(users[i].id.as_str(), id) {
            proof {
                let c = choose|c: int|
                    0 <= c < users.len() && #[trigger] users@[c].id@ == id@ && forall|j: int|
                        0 <= j < c ==> #[trigger] users@[j].id@ != id@;
                assert(users@[i as int].id@ == id@);
                if c < i {
                    assert(users@[c].id@ != id@);
                }
                if c > i {
                    assert(users@[i as int].id@ != id@);
                }
            }
            return Some(i);
        }
        i = i + 1;
    }
    None
}

/// The name shown for a user: its nickname in the server, else its display
/// name, else its username.
pub open spec fn shown_name_of(
    nickname: Option<String>,
    display_name: Option<String>,
    username: Seq<char>,
) -> Seq<char> {
    match nickname {
        Some(n) => n@,
        None => match display_name {
            Some(d) => d@,
            None => username,
        },
    }
}

pub fn display_name<'a>(
    nickname: &'a Option<String>,
    display: &'a Option<String>,
    username: &'a String,
) -> (r: &'a str)
    ensures
        r@ == shown_name_of(*nickname, *display, username@),
        nickname matches Some(n) ==> r@ == n@,
        nickname is None && (display matches Some(d)) ==> r@ == display.unwrap()@,
        nickname is None && display is None ==> r@ == username@,
{
    match nickname {
        Some(n) => n.as_str(),
        None => match display {
            Some(d) => d.as_str(),
            None => username.as_str(),
        },
    }
}

// ------------------------------------------------------------ channels

/// What the client reads of a channel to name it.
pub enum ChannelKind {
    SavedMessages,
    DirectMessage { recipients: Vec<String> },
    Group { name: String, recipients: Vec<String> },
    TextChannel { name: String },
}

/// The first recipient that is not the reader.
pub open spec fn other_recipient(recipients: Seq<String>, me: Seq<char>) -> Option<int> {
    if exists|i: int| 0 <= i < recipients.len() && #[trigger] recipients[i]@ != me {
        Some(
            choose|i: int|
                0 <= i < recipients.len() && #[trigger] recipients[i]@ != me && forall|j: int|
                    0 <= j < i ==> #[trigger] recipients[j]@ == me,
        )
    } else {
        None
    }
}

pub fn find_other_recipient(recipients: &Vec<String>, me: &str) -> (r: Option<usize>)
    ensures
        match r {
            Some(i) => other_recipient(recipients@, me@) == Some(i as int),
            None => other_recipient(recipients@, me@) is None,
        },
        match r {
            Some(i) => i < recipients.len() && recipients@[i as int]@ != me@,
            None => true,
        },
{
    let mut i: usize = 0;
    while i < recipients.len()
        invariant
            0 <= i <= recipients.len(),
            forall|j: int| 0 <= j < i ==> #[trigger] recipients@[j]@ == me@,
        decreases recipients.len() - i,
    {
        if !text_eq(recipients[i].as_str(), me) {
            proof {
                let c = choose|c: int|
                    0 <= c < recipients.len() && #[trigger] recipients@[c]@ != me@ && forall|j: int|
                        0 <= j < c ==> #[trigger] recipients@[j]@ == me@;
                assert(recipients@[i as int]@ != me@);
                if c < i {
                    assert(recipients@[c]@ == me@);
                }
                if c > i {
                    assert(recipients@[i as int]@ == me@);
                }
            }
            return Some(i);
        }
        i = i + 1;
    }
    None
}

pub open spec fn saved_messages_title() -> Seq<char> {
    seq!['S', 'a', 'v', 'e', 'd', ' ', 'M', 'e', 's', 's', 'a', 'g', 'e', 's']
}

/// The title of a channel: for a direct message, the username of the other
/// recipient; the name of a group or text channel; "Saved Messages". `None`
/// when a direct message has no other recipient the client knows.
pub open spec fn title_of(channel: ChannelKind, me: Seq<char>, users: Seq<KnownUser>) -> Option<Seq<char>> {
    match channel {
        ChannelKind::DirectMessage { recipients } => match other_recipient(recipients@, me) {
            Some(o) => match lookup(users, recipients@[o]@) {
                Some(u) => Some(users[u].username@),
                None => None,
            },
            None => None,
        },
        ChannelKind::Group { name, .. } => Some(name@),
        ChannelKind::TextChannel { name } => Some(name@),
        ChannelKind::SavedMessages => Some(saved_messages_title()),
    }
}

/// The title of a channel (see `title_of`).
pub fn channel_title(channel: &ChannelKind, me: &str, users: &Vec<KnownUser>) -> (r: String)
    requires
        title_of(*channel, me@, users@) is Some,
    ensures
        r@ == title_of(*channel, me@, users@).unwrap(),
        channel matches ChannelKind::Group { name, .. } ==> r@ == name@,
        channel matches ChannelKind::TextChannel { name } ==> r@ == name@,
        channel is SavedMessages ==> r@ == "Saved Messages"@,
{
    match channel {
        ChannelKind::DirectMessage { recipients } => {
            let oo = find_other_recipient(recipients, me);
            assert(oo is Some);
            let o = oo.unwrap();
            let uu = find_user(users, recipients[o].as_str());
            assert(lookup(users@, recipients@[o as int]@) is Some);
            assert(uu is Some);
            let u = uu.unwrap();
            users[u].username.clone()
        },
        ChannelKind::Group { name, .. } => name.clone(),
        ChannelKind::TextChannel { name } => name.clone(),
        ChannelKind::SavedMessages => {
            let t = String::from_str("Saved Messages");
            proof {
                reveal_strlit("Saved Messages");
            }
            assert(t@ =~= saved_messages_title());
            t
        },
    }
}

/// The hint in an empty message box: "Message " and the channel's title.
pub fn message_placeholder(channel: &ChannelKind, me: &str, users: &Vec<KnownUser>) -> (r: String)
    requires
        title_of(*channel, me@, users@) is Some,
    ensures
        r@ == seq!['M', 'e', 's', 's', 'a', 'g', 'e', ' '] + title_of(*channel, me@, users@).unwrap(),
{
    let title = channel_title(channel, me, users);
    let mut v: Vec<char> = vec!['M', 'e', 's', 's', 'a', 'g', 'e', ' '];
    push_str_chars(&mut v, title.as_str());
    string_of(&v)
}

/// The icon in a channel's header.
#[derive(Clone, Copy, Debug, PartialEq, Eq)]
pub enum HeaderIcon {
    AtSign,
    Notebook,
    Hash,
}

pub fn header_icon(channel: &ChannelKind) -> (r: HeaderIcon)
    ensures
        r == match *channel {
            ChannelKind::DirectMessage { .. } => HeaderIcon::AtSign,
            ChannelKind::SavedMessages => HeaderIcon::Notebook,
            _ => HeaderIcon::Hash,
        },
{
    match channel {
        ChannelKind::DirectMessage { .. } => HeaderIcon::AtSign,
        ChannelKind::SavedMessages => HeaderIcon::Notebook,
        _ => HeaderIcon::Hash,
    }
}

/// Whether a channel shows the member list beside it: only a server's
/// channel, and only while the list is not hidden.
pub fn shows_member_list(in_server: bool, hide_members_list: bool) -> (r: bool)
    ensures
        r == (in_server && !hide_members_list),
{
    in_server && !hide_members_list
}

// ------------------------------------------------------------ initials

/// `char::is_whitespace` on ASCII; beyond ASCII, what the name
/// `white_space` gives.
pub open spec fn is_white_space(c: char) -> bool {
    if (c as u32) < 128 {
        c == ' ' || c == '\t' || c == '\n' || c == '\x0B' || c == '\x0C' || c == '\r'
    } else {
        white_space(c)
    }
}

/// Whether `char::is_whitespace` holds of a character beyond ASCII.
pub uninterp spec fn white_space(c: char) -> bool;

/// `char::is_whitespace`: the Unicode White_Space property. On ASCII this is
/// the space, tab, line feed, vertical tab, form feed and carriage return;
/// beyond ASCII it is given by the name `white_space`.
#[verifier::external_body]
fn char_is_white_space(c: char) -> (r: bool)
    ensures
        r == is_white_space(c),
        (c as u32) >= 128 ==> r == white_space(c),
{
    c.is_whitespace()
}

/// Position `i` of `s` begins a word: a character that is not white space
/// after white space or at the start.
pub open spec fn word_start(s: Seq<char>, i: int) -> bool {
    !is_white_space(s[i]) && (i == 0 || is_white_space(s[i - 1]))
}

/// The first letters of the first two words among the first `n` characters.
pub open spec fn initials_upto(s: Seq<char>, n: int) -> Seq<char>
    decreases n,
{
    if n <= 0 {
        seq![]
    } else {
        let acc = initials_upto(s, n - 1);
        if word_start(s, n - 1) && acc.len() < 2 {
            acc.push(s[n - 1])
        } else {
            acc
        }
    }
}

/// `c` is the first character of a word among the first `n` of `s`.
pub open spec fn begins_a_word(s: Seq<char>, n: int, c: char) -> bool {
    exists|i: int| 0 <= i < n && word_start(s, i) && s[i] == c
}

/// The initials among the first `n` characters: at most two, each the first
/// character of a word; one as soon as there is a word, two as soon as
/// there are two.
pub proof fn law_initials(s: Seq<char>, n: int)
    requires
        0 <= n <= s.len(),
    ensures
        initials_upto(s, n).len() <= 2,
        forall|k: int| 0 <= k < initials_upto(s, n).len() ==> begins_a_word(s, n, #[trigger] initials_upto(s, n)[k]),
        (exists|i: int| 0 <= i < n && word_start(s, i)) ==> initials_upto(s, n).len() >= 1,
        forall|i: int, j: int|
            0 <= i < j < n && word_start(s, i) && word_start(s, j) ==> initials_upto(s, n).len() == 2,
    decreases n,
{
    if n > 0 {
        law_initials(s, n - 1);
        let acc = initials_upto(s, n - 1);
        let cur = initials_upto(s, n);
        assert forall|k: int| 0 <= k < cur.len() implies begins_a_word(s, n, #[trigger] cur[k]) by {
            if k < acc.len() {
                assert(cur[k] == acc[k]);
                assert(begins_a_word(s, n - 1, acc[k]));
                let i = choose|i: int| 0 <= i < n - 1 && word_start(s, i) && s[i] == acc[k];
                assert(0 <= i < n && word_start(s, i) && s[i] == cur[k]);
            } else {
                assert(cur[k] == s[n - 1]);
                assert(0 <= n - 1 < n && word_start(s, n - 1) && s[n - 1] == cur[k]);
            }
        }
        if exists|i: int| 0 <= i < n && word_start(s, i) {
            let i = choose|i: int| 0 <= i < n && word_start(s, i);
            if i < n - 1 {
                assert(acc.len() >= 1);
            }
        }
        assert forall|i: int, j: int|
            0 <= i < j < n && word_start(s, i) && word_start(s, j) implies cur.len() == 2 by {
            if j < n - 1 {
            } else {
                assert(acc.len() >= 1);
            }
        }
    }
}

/// The initials shown for a group without an icon: the first letter of each
/// of the first two words of its name.
pub fn initials(name: &str) -> (r: String)
    ensures
        r@ == initials_upto(name@, name@.len() as int),
        r@.len() <= 2,
        forall|k: int| 0 <= k < r@.len() ==> begins_a_word(name@, name@.len() as int, #[trigger] r@[k]),
        (exists|i: int| 0 <= i < name@.len() && word_start(name@, i)) ==> r@.len() >= 1,
        forall|i: int, j: int|
            0 <= i < j < name@.len() && word_start(name@, i) && word_start(name@, j) ==> r@.len() == 2,
{
    let v = crate::text::chars_of(name);
    let mut out: Vec<char> = Vec::new();
    let mut prev_ws = true;
    let mut i: usize = 0;
    while i < v.len()
        invariant
            0 <= i <= v.len(),
            v@ == name@,
            out@ == initials_upto(name@, i as int),
            prev_ws == (i == 0 || is_white_space(name@[i - 1])),
        decreases v.len() - i,
    {
        let ws = char_is_white_space(v[i]);
        if !ws && prev_ws && out.len() < 2 {
            out.push(v[i]);
        }
        prev_ws = ws;
        i = i + 1;
    }
    let r = string_of(&out);
    proof {
        law_initials(name@, name@.len() as int);
        let ini = initials_upto(name@, name@.len() as int);
        assert(r@ == ini);
        assert forall|k: int| 0 <= k < r@.len() implies begins_a_word(name@, name@.len() as int, #[trigger] r@[k]) by {
            assert(r@[k] == ini[k]);
        }
    }
    r
}

// ------------------------------------------------------------ replies

/// The name over a replied-to message: the author's username, after "@"
/// when the reply mentions the author.
pub open spec fn reply_author_text(username: Seq<char>, user_id: Seq<char>, mentions: Option<Vec<String>>) -> Seq<char> {
    match mentions {
        Some(m) => if exists|k: int| 0 <= k < m.len() && #[trigger] m@[k]@ == user_id {
            seq!['@'] + username
        } else {
            username
        },
        None => username,
    }
}

pub(crate) fn contains_text(v: &Vec<String>, x: &str) -> (r: bool)
    ensures
        r == exists|k: int| 0 <= k < v.len() && #[trigger] v@[k]@ == x@,
{
    let mut k: usize = 0;
    while k < v.len()
        invariant
            0 <= k <= v.len(),
            forall|q: int| 0 <= q < k ==> #[trigger] v@[q]@ != x@,
        decreases v.len() - k,
    {
        if text_eq(v[k].as_str(), x) {
            return true;
        }
        k = k + 1;
    }
    false
}

pub fn reply_author_label(username: &str, user_id: &str, mentions: &Option<Vec<String>>) -> (r: String)
    ensures
        r@ == reply_author_text(username@, user_id@, *mentions),
        (mentions matches Some(m) && exists|k: int| 0 <= k < m.len() && #[trigger] m@[k]@ == user_id@)
            ==> r@ == seq!['@'] + username@,
        !(mentions matches Some(m) && exists|k: int| 0 <= k < m.len() && #[trigger] m@[k]@ == user_id@)
            ==> r@ == username@,
{
    let mentioned = match mentions {
        Some(m) => contains_text(m, user_id),
        None => false,
    };
    let mut v: Vec<char> = Vec::new();
    if mentioned {
        v.push('@');
    }
    push_str_chars(&mut v, username);
    string_of(&v)
}

/// The id of the user that stands for an author the client does not know.
pub open spec fn nil_user_id() -> Seq<char> {
    Seq::new(26, |i: int| '0')
}

/// Whose name and avatar a reply shows: the author of the replied-to
/// message when the client knows that user; otherwise, or when the message
/// is not loaded, the placeholder user.
pub fn reply_user_id(author: Option<&str>, users: &Vec<KnownUser>) -> (r: String)
    ensures
        r@ == match author {
            Some(a) => if lookup(users@, a@) is Some {
                a@
            } else {
                nil_user_id()
            },
            None => nil_user_id(),
        },
{
    let zeros: Vec<char> = vec!['0'; 26];
    assert(zeros@ =~= nil_user_id());
    let nil = string_of(&zeros);
    match author {
        Some(a) => match find_user(users, a) {
            Some(_) => String::from_str(a),
            None => nil,
        },
        None => nil,
    }
}

/// The username given to an author the server could not find.
pub fn unknown_user_name(author: &str) -> (r: String)
    ensures
        r@ == seq!['U', 'n', 'k', 'n', 'o', 'w', 'n', ' ', 'U', 's', 'e', 'r', ' '] + author@,
{
    let mut v: Vec<char> = vec!['U', 'n', 'k', 'n', 'o', 'w', 'n', ' ', 'U', 's', 'e', 'r', ' '];
    push_str_chars(&mut v, author);
    string_of(&v)
}

/// Where the user of a replied-to message comes from when the client does
/// not know it yet.
#[derive(Clone, Debug, PartialEq, Eq)]
pub enum AuthorSource {
    /// The message carries its user: add it unless known.
    Embedded,
    /// The client knows the author already.
    Known,
    /// A webhook sent the message: a user with the webhook's name.
    Webhook(String),
    /// Ask the server; should that fail, an unknown user.
    Fetch,
}

pub fn author_source(embedded: bool, known: bool, webhook_name: Option<String>) -> (r: AuthorSource)
    ensures
        r == if embedded {
            AuthorSource::Embedded
        } else if known {
            AuthorSource::Known
        } else {
            match webhook_name {
                Some(n) => AuthorSource::Webhook(n),
                None => AuthorSource::Fetch,
            }
        },
{
    if embedded {
        AuthorSource::Embedded
    } else if known {
        AuthorSource::Known
    } else {
        match webhook_name {
            Some(n) => AuthorSource::Webhook(n),
            None => AuthorSource::Fetch,
        }
    }
}

// ------------------------------------------------------------ friends

/// The pages of the friends list.
#[derive(Clone, Copy, Debug, PartialEq, Eq)]
pub enum FriendPage {
    Online,
    All,
    Pending,
    Blocked,
}

/// How the reader relates to a user.
#[derive(Clone, Copy, Debug, PartialEq, Eq)]
pub enum Relationship {
    NoRelation,
    User,
    Friend,
    Outgoing,
    Incoming,
    Blocked,
    BlockedOther,
}

/// Whether a user in the reader's relations is on a page: online users on
/// "Online", everyone on "All", requests either way on "Pending", and
/// blocks either way on "Blocked".
pub fn friend_on_page(page: FriendPage, online: bool, relationship: Relationship) -> (r: bool)
    ensures
        r == match page {
            FriendPage::Online => online,
            FriendPage::All => true,
            FriendPage::Pending => relationship == Relationship::Incoming || relationship
                == Relationship::Outgoing,
            FriendPage::Blocked => relationship == Relationship::Blocked || relationship
                == Relationship::BlockedOther,
        },
{
    match page {
        FriendPage::Online => online,
        FriendPage::All => true,
        FriendPage::Pending => match relationship {
            Relationship::Incoming | Relationship::Outgoing => true,
            _ => false,
        },
        FriendPage::Blocked => match relationship {
            Relationship::Blocked | Relationship::BlockedOther => true,
            _ => false,
        },
    }
}

} // verus!
