//! The emoji picker's grid and the image names of unicode emojis.
use vstd::prelude::*;
use crate::text::{chars_of, lowercase, string_from_chars, to_lowercase};

verus! {

/// Cells per row of the picker grid.
pub const ROW: usize = 10;

/// A custom emoji: its id, name and the server it belongs to, if any.
pub struct CustomEmoji {
    pub id: String,
    pub name: String,
    pub server: Option<String>,
}

/// A unicode emoji: its name and the emoji itself.
pub struct UnicodeEmoji {
    pub name: String,
    pub value: String,
}

/// A cell of the picker grid. Indices point into the lists the grid was
/// laid out from.
#[derive(Clone, Copy, Debug, PartialEq, Eq)]
pub enum PickerItem {
    /// The heading of a server's emojis.
    Server(usize),
    Spacer,
    Emoji(usize),
    /// The heading of the unicode emojis.
    Title,
    Unicode(usize),
}

/// How many cells fill up a row begun by `n` cells.
pub open spec fn row_gap(n: int) -> nat {
    ((ROW as int - n % (ROW as int)) % (ROW as int)) as nat
}

/// `s` followed by spacers up to a multiple of `ROW` cells.
pub open spec fn pad_row(s: Seq<PickerItem>) -> Seq<PickerItem> {
    s + Seq::new(row_gap(s.len() as int), |i: int| PickerItem::Spacer)
}

fn pad_to_row(items: &mut Vec<PickerItem>)
    ensures
        final(items)@ == pad_row(old(items)@),
        final(items)@.len() as int % (ROW as int) == 0,
{
    let ghost start = items@;
    let ghost extra = row_gap(start.len() as int);
    while items.len() % ROW != 0
        invariant
            start.len() <= items@.len() <= start.len() + extra,
            items@.subrange(0, start.len() as int) == start,
            extra == row_gap(start.len() as int),
            forall|i: int| start.len() <= i < items@.len() ==> items@[i] == PickerItem::Spacer,
            items@.len() < start.len() + extra ==> items@.len() as int % (ROW as int) != 0,
            items@.len() == start.len() + extra ==> items@.len() as int % (ROW as int) == 0,
        decreases start.len() + extra - items@.len(),
    {
        items.push(PickerItem::Spacer);
        assert(items@.subrange(0, start.len() as int) =~= start);
    }
    assert(items@ =~= pad_row(start));
}

pub open spec fn in_server(e: CustomEmoji, server: Seq<char>) -> bool {
    match e.server {
        Some(s) => s@ == server,
        None => false,
    }
}

/// The emojis among the first `j` that belong to `server`, in order.
pub open spec fn server_emojis(emojis: Seq<CustomEmoji>, server: Seq<char>, j: int) -> Seq<
    PickerItem,
>
    decreases j,
{
    if j <= 0 {
        seq![]
    } else if in_server(emojis[j - 1], server) {
        server_emojis(emojis, server, j - 1).push(PickerItem::Emoji((j - 1) as usize))
    } else {
        server_emojis(emojis, server, j - 1)
    }
}

/// The grid for the first `k` servers: each server with emojis gets a
/// heading row, then its emojis, each part padded to whole rows.
pub open spec fn server_rows(servers: Seq<String>, emojis: Seq<CustomEmoji>, k: int) -> Seq<
    PickerItem,
>
    decreases k,
{
    if k <= 0 {
        seq![]
    } else {
        let acc = server_rows(servers, emojis, k - 1);
        let mine = server_emojis(emojis, servers[k - 1]@, emojis.len() as int);
        if mine.len() == 0 {
            acc
        } else {
            pad_row(pad_row(acc.push(PickerItem::Server((k - 1) as usize))) + mine)
        }
    }
}

/// The grid without a search: the servers' emojis, then a heading and all
/// unicode emojis, each part padded to whole rows.
pub open spec fn full_grid(servers: Seq<String>, emojis: Seq<CustomEmoji>, unicode_count: nat) -> Seq<
    PickerItem,
> {
    pad_row(
        pad_row(server_rows(servers, emojis, servers.len() as int).push(PickerItem::Title))
            + Seq::new(unicode_count, |i: int| PickerItem::Unicode(i as usize)),
    )
}

/// Whether `needle` occurs in `hay`.
pub open spec fn occurs_in(hay: Seq<char>, needle: Seq<char>) -> bool {
    exists|i: int| 0 <= i <= hay.len() - needle.len() && #[trigger] hay.subrange(i, i + needle.len()) == needle
}

/// The custom emojis among the first `j` whose lowercase name holds `query`.
pub open spec fn matching_custom(emojis: Seq<CustomEmoji>, query: Seq<char>, j: int) -> Seq<
    PickerItem,
>
    decreases j,
{
    if j <= 0 {
        seq![]
    } else if occurs_in(lowercase(emojis[j - 1].name@), query) {
        matching_custom(emojis, query, j - 1).push(PickerItem::Emoji((j - 1) as usize))
    } else {
        matching_custom(emojis, query, j - 1)
    }
}

/// The unicode emojis among the first `j` whose lowercase name holds `query`.
pub open spec fn matching_unicode(unicode: Seq<UnicodeEmoji>, query: Seq<char>, j: int) -> Seq<
    PickerItem,
>
    decreases j,
{
    if j <= 0 {
        seq![]
    } else if occurs_in(lowercase(unicode[j - 1].name@), query) {
        matching_unicode(unicode, query, j - 1).push(PickerItem::Unicode((j - 1) as usize))
    } else {
        matching_unicode(unicode, query, j - 1)
    }
}

/// The grid for a search: the matching custom emojis, then the matching
/// unicode emojis, padded to whole rows.
pub open spec fn search_grid(emojis: Seq<CustomEmoji>, unicode: Seq<UnicodeEmoji>, query: Seq<char>) -> Seq<
    PickerItem,
> {
    pad_row(
        matching_custom(emojis, query, emojis.len() as int) + matching_unicode(
            unicode,
            query,
            unicode.len() as int,
        ),
    )
}

/// The picker grid: the search grid when the lowercase search text is not
/// empty, else the full grid.
pub open spec fn picker_grid(
    servers: Seq<String>,
    emojis: Seq<CustomEmoji>,
    unicode: Seq<UnicodeEmoji>,
    search: Seq<char>,
) -> Seq<PickerItem> {
    let query = lowercase(search);
    if query.len() > 0 {
        search_grid(emojis, unicode, query)
    } else {
        full_grid(servers, emojis, unicode.len())
    }
}

/// A heading: a server's or the unicode emojis'.
pub open spec fn is_heading(item: PickerItem) -> bool {
    item is Server || item is Title
}

/// Every heading of `s` sits at the start of a row.
pub open spec fn headings_start_rows(s: Seq<PickerItem>) -> bool {
    forall|i: int| 0 <= i < s.len() && #[trigger] is_heading(s[i]) ==> i % (ROW as int) == 0
}

proof fn lemma_pad_row(s: Seq<PickerItem>)
    ensures
        pad_row(s).len() as int % (ROW as int) == 0,
        headings_start_rows(s) ==> headings_start_rows(pad_row(s)),
{
    let p = pad_row(s);
    assert forall|i: int| 0 <= i < p.len() && #[trigger] is_heading(p[i]) implies i < s.len() && p[i] == s[i] by {
        if i >= s.len() {
            assert(p[i] == PickerItem::Spacer);
        }
    }
}

proof fn lemma_no_headings_concat(a: Seq<PickerItem>, b: Seq<PickerItem>)
    requires
        a.len() as int % (ROW as int) == 0,
        headings_start_rows(a),
        forall|i: int| 0 <= i < b.len() ==> !#[trigger] is_heading(b[i]),
    ensures
        headings_start_rows(a + b),
{
    let c = a + b;
    assert forall|i: int| 0 <= i < c.len() && #[trigger] is_heading(c[i]) implies i % (ROW as int) == 0 by {
        if i >= a.len() {
            assert(c[i] == b[i - a.len()]);
            assert(!is_heading(b[i - a.len()]));
        } else {
            assert(c[i] == a[i]);
        }
    }
}

proof fn lemma_server_emojis_plain(emojis: Seq<CustomEmoji>, server: Seq<char>, j: int)
    ensures
        forall|i: int|
            0 <= i < server_emojis(emojis, server, j).len() ==> !#[trigger] is_heading(
                server_emojis(emojis, server, j)[i],
            ),
    decreases j,
{
    if j > 0 {
        lemma_server_emojis_plain(emojis, server, j - 1);
        let prev = server_emojis(emojis, server, j - 1);
        let cur = server_emojis(emojis, server, j);
        assert forall|i: int| 0 <= i < cur.len() implies !#[trigger] is_heading(cur[i]) by {
            if i < prev.len() {
                assert(cur[i] == prev[i]);
            }
        }
    }
}

proof fn lemma_custom_plain(emojis: Seq<CustomEmoji>, query: Seq<char>, j: int)
    ensures
        forall|i: int|
            0 <= i < matching_custom(emojis, query, j).len() ==> !#[trigger] is_heading(
                matching_custom(emojis, query, j)[i],
            ),
    decreases j,
{
    if j > 0 {
        lemma_custom_plain(emojis, query, j - 1);
        let prev = matching_custom(emojis, query, j - 1);
        let cur = matching_custom(emojis, query, j);
        assert forall|i: int| 0 <= i < cur.len() implies !#[trigger] is_heading(cur[i]) by {
            if i < prev.len() {
                assert(cur[i] == prev[i]);
            }
        }
    }
}

proof fn lemma_unicode_plain(unicode: Seq<UnicodeEmoji>, query: Seq<char>, u: int)
    ensures
        forall|i: int|
            0 <= i < matching_unicode(unicode, query, u).len() ==> !#[trigger] is_heading(
                matching_unicode(unicode, query, u)[i],
            ),
    decreases u,
{
    if u > 0 {
        lemma_unicode_plain(unicode, query, u - 1);
        let prev = matching_unicode(unicode, query, u - 1);
        let cur = matching_unicode(unicode, query, u);
        assert forall|i: int| 0 <= i < cur.len() implies !#[trigger] is_heading(cur[i]) by {
            if i < prev.len() {
                assert(cur[i] == prev[i]);
            }
        }
    }
}

proof fn lemma_server_rows(servers: Seq<String>, emojis: Seq<CustomEmoji>, k: int)
    ensures
        server_rows(servers, emojis, k).len() as int % (ROW as int) == 0,
        headings_start_rows(server_rows(servers, emojis, k)),
    decreases k,
{
    if k > 0 {
        lemma_server_rows(servers, emojis, k - 1);
        let acc = server_rows(servers, emojis, k - 1);
        let mine = server_emojis(emojis, servers[k - 1]@, emojis.len() as int);
        if mine.len() != 0 {
            let head = acc.push(PickerItem::Server((k - 1) as usize));
            assert(headings_start_rows(head)) by {
                assert forall|i: int| 0 <= i < head.len() && #[trigger] is_heading(head[i]) implies i
                    % (ROW as int) == 0 by {
                    if i < acc.len() {
                        assert(head[i] == acc[i]);
                    }
                }
            }
            lemma_pad_row(head);
            lemma_server_emojis_plain(emojis, servers[k - 1]@, emojis.len() as int);
            lemma_no_headings_concat(pad_row(head), mine);
            lemma_pad_row(pad_row(head) + mine);
        }
    }
}

/// Every heading of the picker grid, a server's or the unicode emojis',
/// begins a row: the grid is laid out in rows of `ROW` cells, and each
/// heading sits at an index that is a multiple of `ROW`.
pub proof fn law_headings_start_rows(
    servers: Seq<String>,
    emojis: Seq<CustomEmoji>,
    unicode: Seq<UnicodeEmoji>,
    search: Seq<char>,
)
    ensures
        picker_grid(servers, emojis, unicode, search).len() as int % (ROW as int) == 0,
        headings_start_rows(picker_grid(servers, emojis, unicode, search)),
{
    let query = lowercase(search);
    if query.len() > 0 {
        let mc = matching_custom(emojis, query, emojis.len() as int);
        let mu = matching_unicode(unicode, query, unicode.len() as int);
        lemma_custom_plain(emojis, query, emojis.len() as int);
        lemma_unicode_plain(unicode, query, unicode.len() as int);
        assert forall|i: int| 0 <= i < (mc + mu).len() implies !#[trigger] is_heading((mc + mu)[i]) by {
            if i < mc.len() {
                assert((mc + mu)[i] == mc[i]);
            } else {
                assert((mc + mu)[i] == mu[i - mc.len()]);
            }
        }
        lemma_no_headings_concat(seq![], mc + mu);
        assert(seq![] + (mc + mu) =~= mc + mu);
        lemma_pad_row(mc + mu);
    } else {
        let rows = server_rows(servers, emojis, servers.len() as int);
        lemma_server_rows(servers, emojis, servers.len() as int);
        let head = rows.push(PickerItem::Title);
        assert(headings_start_rows(head)) by {
            assert forall|i: int| 0 <= i < head.len() && #[trigger] is_heading(head[i]) implies i % (
            ROW as int) == 0 by {
                if i < rows.len() {
                    assert(head[i] == rows[i]);
                }
            }
        }
        lemma_pad_row(head);
        let uni = Seq::new(unicode.len(), |i: int| PickerItem::Unicode(i as usize));
        assert forall|i: int| 0 <= i < uni.len() implies !#[trigger] is_heading(uni[i]) by {}
        lemma_no_headings_concat(pad_row(head), uni);
        lemma_pad_row(pad_row(head) + uni);
    }
}

fn occurs(hay: &Vec<char>, needle: &Vec<char>) -> (r: bool)
    ensures
        r == occurs_in(hay@, needle@),
{
    if needle.len() > hay.len() {
        return false;
    }
    let mut i: usize = 0;
    while i <= hay.len() - needle.len()
        invariant
            needle.len() <= hay.len(),
            0 <= i <= hay.len() - needle.len() + 1,
            forall|k: int| 0 <= k < i ==> #[trigger] hay@.subrange(k, k + needle@.len()) != needle@,
        decreases hay.len() - needle.len() + 1 - i,
    {
        let mut j: usize = 0;
        let mut same = true;
        while j < needle.len()
            invariant
                needle.len() <= hay.len(),
                i <= hay.len() - needle.len(),
                0 <= j <= needle.len(),
                same == forall|m: int| 0 <= m < j ==> hay@[i + m] == needle@[m],
            decreases needle.len() - j,
        {
            if hay[i + j] != needle[j] {
                same = false;
            }
            j = j + 1;
        }
        if same {
            assert(hay@.subrange(i as int, i + needle@.len()) =~= needle@);
            return true;
        } else {
            let ghost m = choose|m: int| 0 <= m < needle.len() && hay@[i + m] != needle@[m];
            assert(hay@.subrange(i as int, i + needle@.len())[m] != needle@[m]);
        }
        i = i + 1;
    }
    false
}

fn lowercase_chars(s: &String) -> (r: Vec<char>)
    ensures
        r@ == lowercase(s@),
{
    let l = to_lowercase(s.as_str());
    chars_of(l.as_str())
}

fn belongs(e: &CustomEmoji, server: &Vec<char>) -> (r: bool)
    ensures
        r == in_server(*e, server@),
{
    match &e.server {
        Some(s) => {
            let c = chars_of(s.as_str());
            if c.len() != server.len() {
                return false;
            }
            let mut i: usize = 0;
            while i < c.len()
                invariant
                    c@ == s@,
                    e.server matches Some(x) && x@ == c@,
                    c.len() == server.len(),
                    0 <= i <= c.len(),
                    forall|j: int| 0 <= j < i ==> c@[j] == server@[j],
                decreases c.len() - i,
            {
                if c[i] != server[i] {
                    assert(c@[i as int] != server@[i as int]);
                    return false;
                }
                i = i + 1;
            }
            assert(c@ =~= server@);
            true
        },
        None => false,
    }
}

/// Lays out the emoji picker grid for the given servers (in display order),
/// custom emojis, unicode emojis and search text.
pub fn picker_items(
    servers: &Vec<String>,
    emojis: &Vec<CustomEmoji>,
    unicode: &Vec<UnicodeEmoji>,
    search: &String,
) -> (r: Vec<PickerItem>)
    ensures
        r@ == picker_grid(servers@, emojis@, unicode@, search@),
        r@.len() as int % (ROW as int) == 0,
        headings_start_rows(r@),
{
    proof {
        law_headings_start_rows(servers@, emojis@, unicode@, search@);
    }
    let query = lowercase_chars(search);
    let mut items: Vec<PickerItem> = Vec::new();
    if query.len() > 0 {
        let mut j: usize = 0;
        while j < emojis.len()
            invariant
                0 <= j <= emojis.len(),
                items@ == matching_custom(emojis@, query@, j as int),
            decreases emojis.len() - j,
        {
            let name = lowercase_chars(&emojis[j].name);
            if occurs(&name, &query) {
                items.push(PickerItem::Emoji(j));
            }
            j = j + 1;
        }
        let ghost custom = items@;
        let mut u: usize = 0;
        while u < unicode.len()
            invariant
                0 <= u <= unicode.len(),
                items@ == custom + matching_unicode(unicode@, query@, u as int),
            decreases unicode.len() - u,
        {
            let name = lowercase_chars(&unicode[u].name);
            if occurs(&name, &query) {
                items.push(PickerItem::Unicode(u));
                assert(items@ =~= custom + matching_unicode(unicode@, query@, u + 1));
            }
            u = u + 1;
        }
        pad_to_row(&mut items);
        return items;
    }
    let mut k: usize = 0;
    while k < servers.len()
        invariant
            0 <= k <= servers.len(),
            items@ == server_rows(servers@, emojis@, k as int),
        decreases servers.len() - k,
    {
        let id = chars_of(servers[k].as_str());
        let mut mine: Vec<PickerItem> = Vec::new();
        let mut j: usize = 0;
        while j < emojis.len()
            invariant
                0 <= j <= emojis.len(),
                id@ == servers@[k as int]@,
                mine@ == server_emojis(emojis@, id@, j as int),
            decreases emojis.len() - j,
        {
            if belongs(&emojis[j], &id) {
                mine.push(PickerItem::Emoji(j));
            }
            j = j + 1;
        }
        if mine.len() > 0 {
            items.push(PickerItem::Server(k));
            pad_to_row(&mut items);
            let ghost head = items@;
            let mut m: usize = 0;
            while m < mine.len()
                invariant
                    0 <= m <= mine.len(),
                    items@ == head + mine@.take(m as int),
                decreases mine.len() - m,
            {
                items.push(mine[m]);
                assert(items@ =~= head + mine@.take(m + 1));
                m = m + 1;
            }
            assert(mine@.take(mine.len() as int) =~= mine@);
            pad_to_row(&mut items);
        }
        k = k + 1;
    }
    items.push(PickerItem::Title);
    pad_to_row(&mut items);
    let ghost head = items@;
    let mut u: usize = 0;
    while u < unicode.len()
        invariant
            0 <= u <= unicode.len(),
            items@ == head + Seq::new(u as nat, |i: int| PickerItem::Unicode(i as usize)),
        decreases unicode.len() - u,
    {
        items.push(PickerItem::Unicode(u));
        assert(items@ =~= head + Seq::new((u + 1) as nat, |i: int| PickerItem::Unicode(i as usize)));
        u = u + 1;
    }
    pad_to_row(&mut items);
    items
}

// ------------------------------------------------------ unicode images

pub open spec fn hex_char(d: nat) -> char {
    if d < 10 {
        ((d + '0' as nat) as u32) as char
    } else {
        ((d - 10 + 'a' as nat) as u32) as char
    }
}

/// `n` in lowercase hexadecimal without leading zeros.
pub open spec fn lower_hex(n: nat) -> Seq<char>
    decreases n,
{
    if n < 16 {
        seq![hex_char(n)]
    } else {
        lower_hex(n / 16).push(hex_char(n % 16))
    }
}

/// The code point of `c`.
pub open spec fn code(c: char) -> nat {
    (c as u32) as nat
}

/// The code points of `s` in lowercase hexadecimal, joined by `-`.
pub open spec fn code_points(s: Seq<char>) -> Seq<char>
    decreases s.len(),
{
    if s.len() == 0 {
        seq![]
    } else if s.len() == 1 {
        lower_hex(code(s[0]))
    } else {
        code_points(s.drop_last()).push('-') + lower_hex(code(s.last()))
    }
}

fn hex_digit_char(d: u32) -> (c: char)
    requires
        d < 16,
    ensures
        c == hex_char(d as nat),
{
    if d < 10 {
        let v = d + ('0' as u32);
        (v as u8) as char
    } else {
        let v = d - 10 + ('a' as u32);
        (v as u8) as char
    }
}

fn push_hex(out: &mut Vec<char>, n: u32)
    ensures
        final(out)@ == old(out)@ + lower_hex(n as nat),
    decreases n,
{
    if n < 16 {
        out.push(hex_digit_char(n));
        assert(final(out)@ =~= old(out)@ + lower_hex(n as nat));
    } else {
        push_hex(out, n / 16);
        out.push(hex_digit_char(n % 16));
        assert(final(out)@ =~= old(out)@ + lower_hex(n as nat));
    }
}

/// The code points of an emoji as they name its image: lowercase hex,
/// joined by `-`.
pub fn emoji_code_points(value: &str) -> (r: String)
    ensures
        r@ == code_points(value@),
{
    let s = chars_of(value);
    let mut out: Vec<char> = Vec::new();
    let mut i: usize = 0;
    assert(s@.take(0) =~= Seq::<char>::empty());
    while i < s.len()
        invariant
            0 <= i <= s.len(),
            s@ == value@,
            out@ == code_points(s@.take(i as int)),
        decreases s.len() - i,
    {
        let ghost before = out@;
        if i > 0 {
            out.push('-');
        }
        let c = s[i];
        let n = c as u32;
        push_hex(&mut out, n);
        assert(s@.take(i + 1).drop_last() =~= s@.take(i as int));
        assert(s@.take(i + 1).last() == c);
        if i == 0 {
            assert(before =~= Seq::<char>::empty());
            assert(out@ =~= lower_hex(code(c)));
        } else {
            assert(out@ =~= before.push('-') + lower_hex(code(c)));
        }
        i = i + 1;
    }
    assert(s@.take(s.len() as int) =~= s@);
    string_from_chars(out.as_slice())
}

} // verus!
