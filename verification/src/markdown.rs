//! Splitting message text into words, custom emojis, channel mentions and
//! line breaks.
use vstd::prelude::*;
use crate::text::{chars_of, string_from_chars};

verus! {

/// A custom emoji: `:` and a 26-character id, then `:`.
pub const EMOJI_PATTERN: &'static str = "^:([0123456789ABCDEFGHJKMNPQRSTVWXYZ]{26}):$";

/// A channel mention: `<#` and a 26-character id, then `>`.
pub const CHANNEL_PATTERN: &'static str = "^<#([0123456789ABCDEFGHJKMNPQRSTVWXYZ]{26})>$";

/// A character of the id alphabet: digits and upper-case letters other than
/// `I`, `L`, `O` and `U`.
pub open spec fn is_id_char(c: char) -> bool {
    ('0' <= c && c <= '9') || ('A' <= c && c <= 'Z' && c != 'I' && c != 'L' && c != 'O' && c
        != 'U')
}

/// The id in `w` when `w` is exactly `open`, 26 id characters and `close`.
pub open spec fn delimited_id(w: Seq<char>, open: Seq<char>, close: char) -> Option<Seq<char>> {
    if w.len() == open.len() + 27 && w.take(open.len() as int) == open && w.last() == close
        && forall|i: int| open.len() <= i < open.len() + 26 ==> is_id_char(#[trigger] w[i]) {
        Some(w.subrange(open.len() as int, open.len() + 26int))
    } else {
        None
    }
}

pub open spec fn emoji_id(w: Seq<char>) -> Option<Seq<char>> {
    delimited_id(w, seq![':'], ':')
}

pub open spec fn channel_id(w: Seq<char>) -> Option<Seq<char>> {
    delimited_id(w, seq!['<', '#'], '>')
}

/// `regex::Regex::captures` of `pattern` on `text`, giving the first capture
/// group. The pattern must be one of the two patterns of this module; for
/// each, the anchored match and its group are stated exactly.
#[verifier::external_body]
fn first_capture(pattern: &str, text: &str) -> (r: Option<String>)
    requires
        pattern@ == EMOJI_PATTERN@ || pattern@ == CHANNEL_PATTERN@,
    ensures
        pattern@ == EMOJI_PATTERN@ ==> match r {
            Some(id) => emoji_id(text@) == Some(id@),
            None => emoji_id(text@) is None,
        },
        pattern@ == CHANNEL_PATTERN@ ==> match r {
            Some(id) => channel_id(text@) == Some(id@),
            None => channel_id(text@) is None,
        },
{
    let re = regex::Regex::new(pattern).ok()?;
    re.captures(text).and_then(|c| c.get(1)).map(|m| m.as_str().to_string())
}

#[derive(Clone, Debug, PartialEq)]
pub enum Part {
    Text(String),
    Emoji(String),
    ChannelMention(String),
    Newline,
}

pub ghost enum PartView {
    Text(Seq<char>),
    Emoji(Seq<char>),
    ChannelMention(Seq<char>),
    Newline,
}

impl View for Part {
    type V = PartView;

    open spec fn view(&self) -> PartView {
        match self {
            Part::Text(t) => PartView::Text(t@),
            Part::Emoji(id) => PartView::Emoji(id@),
            Part::ChannelMention(id) => PartView::ChannelMention(id@),
            Part::Newline => PartView::Newline,
        }
    }
}

/// A word is a custom emoji, else a channel mention, else text.
pub open spec fn classify(w: Seq<char>) -> PartView {
    match emoji_id(w) {
        Some(id) => PartView::Emoji(id),
        None => match channel_id(w) {
            Some(id) => PartView::ChannelMention(id),
            None => PartView::Text(w),
        },
    }
}

/// The first position in `[i, e)` that holds `c`, or `e`.
pub open spec fn find(s: Seq<char>, i: int, e: int, c: char) -> int
    decreases e - i,
{
    if i < e && s[i] != c {
        find(s, i + 1, e, c)
    } else {
        i
    }
}

/// The words of `s[i..e]`, split at every space (so empty words appear
/// around adjacent, leading or trailing spaces), each classified.
pub open spec fn words(s: Seq<char>, i: int, e: int) -> Seq<PartView>
    decreases e - i,
{
    let k = find(s, i, e, ' ');
    if i <= k < e {
        seq![classify(s.subrange(i, k))] + words(s, k + 1, e)
    } else {
        seq![classify(s.subrange(i, e))]
    }
}

/// The parts of `s[i..]`: each line's words, and a line break after every
/// line that ends in `\n`. Nothing follows a final `\n`.
pub open spec fn lines(s: Seq<char>, i: int) -> Seq<PartView>
    decreases s.len() - i,
{
    if 0 <= i < s.len() {
        let k = find(s, i, s.len() as int, '\n');
        if i <= k < s.len() {
            words(s, i, k) + seq![PartView::Newline] + lines(s, k + 1)
        } else {
            words(s, i, s.len() as int)
        }
    } else {
        seq![]
    }
}

pub proof fn lemma_find(s: Seq<char>, i: int, e: int, c: char)
    requires
        0 <= i <= e <= s.len(),
    ensures
        i <= find(s, i, e, c) <= e,
        forall|j: int| i <= j < find(s, i, e, c) ==> s[j] != c,
        find(s, i, e, c) < e ==> s[find(s, i, e, c)] == c,
    decreases e - i,
{
    if i < e && s[i] != c {
        lemma_find(s, i + 1, e, c);
    }
}

fn find_char(s: &Vec<char>, i: usize, e: usize, c: char) -> (k: usize)
    requires
        i <= e <= s.len(),
    ensures
        k as int == find(s@, i as int, e as int, c),
        i <= k <= e,
{
    proof {
        lemma_find(s@, i as int, e as int, c);
    }
    let mut k = i;
    while k < e && s[k] != c
        invariant
            i <= k <= e <= s.len(),
            find(s@, i as int, e as int, c) == find(s@, k as int, e as int, c),
        decreases e - k,
    {
        k = k + 1;
    }
    k
}

/// Classifies one word.
pub fn classify_word(word: &str) -> (p: Part)
    ensures
        p@ == classify(word@),
{
    match first_capture(EMOJI_PATTERN, word) {
        Some(id) => Part::Emoji(id),
        None => match first_capture(CHANNEL_PATTERN, word) {
            Some(id) => Part::ChannelMention(id),
            None => Part::Text(string_from_chars(chars_of(word).as_slice())),
        },
    }
}

fn push_words(s: &Vec<char>, i: usize, e: usize, out: &mut Vec<Part>)
    requires
        i <= e <= s.len(),
    ensures
        final(out)@.map_values(|p: Part| p@) == old(out)@.map_values(|p: Part| p@) + words(
            s@,
            i as int,
            e as int,
        ),
{
    let mut j = i;
    loop
        invariant
            i <= j <= e <= s.len(),
            out@.map_values(|p: Part| p@) + words(s@, j as int, e as int) == old(out)@.map_values(
                |p: Part| p@,
            ) + words(s@, i as int, e as int),
        decreases e - j,
    {
        let k = find_char(s, j, e, ' ');
        let mut w: Vec<char> = Vec::new();
        let mut m = j;
        while m < k
            invariant
                j <= m <= k <= e <= s.len(),
                w@ == s@.subrange(j as int, m as int),
            decreases k - m,
        {
            w.push(s[m]);
            m = m + 1;
            assert(w@ =~= s@.subrange(j as int, m as int));
        }
        let text = string_from_chars(w.as_slice());
        let part = classify_word(text.as_str());
        let ghost before = out@.map_values(|p: Part| p@);
        out.push(part);
        assert(out@.map_values(|p: Part| p@) =~= before + seq![part@]);
        if k < e {
            assert(before + words(s@, j as int, e as int) =~= out@.map_values(|p: Part| p@)
                + words(s@, k + 1, e as int));
            j = k + 1;
        } else {
            assert(before + words(s@, j as int, e as int) =~= out@.map_values(|p: Part| p@));
            return;
        }
    }
}

/// Splits message text into parts: the text is cut into lines after each
/// `\n`, every line into words at each space; a word that is `:ID:` is a
/// custom emoji, one that is `<#ID>` a channel mention, any other word text;
/// each line that ended in `\n` is followed by a line break.
pub fn parse_markdown(content: String) -> (r: Vec<Part>)
    ensures
        r@.map_values(|p: Part| p@) == lines(content@, 0),
{
    let s = chars_of(content.as_str());
    let mut out: Vec<Part> = Vec::new();
    let mut i: usize = 0;
    assert(out@.map_values(|p: Part| p@) =~= seq![]);
    while i < s.len()
        invariant
            i <= s.len(),
            s@ == content@,
            out@.map_values(|p: Part| p@) + lines(s@, i as int) == lines(s@, 0),
        decreases s.len() - i,
    {
        let k = find_char(&s, i, s.len(), '\n');
        let ghost before = out@.map_values(|p: Part| p@);
        push_words(&s, i, k, &mut out);
        if k < s.len() {
            let ghost mid = out@.map_values(|p: Part| p@);
            out.push(Part::Newline);
            assert(out@.map_values(|p: Part| p@) =~= mid + seq![PartView::Newline]);
            assert(before + lines(s@, i as int) =~= out@.map_values(|p: Part| p@) + lines(
                s@,
                k + 1,
            ));
            i = k + 1;
        } else {
            assert(before + lines(s@, i as int) =~= out@.map_values(|p: Part| p@));
            i = s.len();
            assert(lines(s@, i as int) =~= seq![]);
            assert(out@.map_values(|p: Part| p@) + lines(s@, i as int) =~= out@.map_values(
                |p: Part| p@,
            ));
        }
    }
    assert(lines(s@, i as int) =~= seq![]);
    assert(out@.map_values(|p: Part| p@) + lines(s@, i as int) =~= out@.map_values(|p: Part| p@));
    out
}

/// How many line breaks a list of parts holds.
pub open spec fn line_breaks(p: Seq<PartView>) -> nat
    decreases p.len(),
{
    if p.len() == 0 {
        0
    } else {
        line_breaks(p.drop_last()) + if p.last() == PartView::Newline {
            1nat
        } else {
            0nat
        }
    }
}

/// How many times `c` occurs in `s`.
pub open spec fn occurrences(s: Seq<char>, c: char) -> nat
    decreases s.len(),
{
    if s.len() == 0 {
        0
    } else {
        occurrences(s.drop_last(), c) + if s.last() == c {
            1nat
        } else {
            0nat
        }
    }
}

proof fn lemma_line_breaks_add(a: Seq<PartView>, b: Seq<PartView>)
    ensures
        line_breaks(a + b) == line_breaks(a) + line_breaks(b),
    decreases b.len(),
{
    if b.len() > 0 {
        lemma_line_breaks_add(a, b.drop_last());
        assert((a + b).drop_last() =~= a + b.drop_last());
    } else {
        assert(a + b =~= a);
    }
}

proof fn lemma_occurrences_add(a: Seq<char>, b: Seq<char>, c: char)
    ensures
        occurrences(a + b, c) == occurrences(a, c) + occurrences(b, c),
    decreases b.len(),
{
    if b.len() > 0 {
        lemma_occurrences_add(a, b.drop_last(), c);
        assert((a + b).drop_last() =~= a + b.drop_last());
    } else {
        assert(a + b =~= a);
    }
}

proof fn lemma_no_occurrences(s: Seq<char>, c: char)
    requires
        forall|j: int| 0 <= j < s.len() ==> s[j] != c,
    ensures
        occurrences(s, c) == 0,
    decreases s.len(),
{
    if s.len() > 0 {
        lemma_no_occurrences(s.drop_last(), c);
    }
}

proof fn lemma_words_no_breaks(s: Seq<char>, i: int, e: int)
    requires
        0 <= i <= e <= s.len(),
    ensures
        line_breaks(words(s, i, e)) == 0,
    decreases e - i,
{
    lemma_find(s, i, e, ' ');
    let k = find(s, i, e, ' ');
    let w = classify(s.subrange(i, k));
    assert(line_breaks(seq![w]) == 0) by {
        assert(seq![w].drop_last() =~= Seq::<PartView>::empty());
        assert(line_breaks(Seq::<PartView>::empty()) == 0);
        assert(w != PartView::Newline);
    }
    if i <= k < e {
        lemma_words_no_breaks(s, k + 1, e);
        lemma_line_breaks_add(seq![w], words(s, k + 1, e));
    } else {
        let w2 = classify(s.subrange(i, e));
        assert(seq![w2].drop_last() =~= Seq::<PartView>::empty());
        assert(line_breaks(Seq::<PartView>::empty()) == 0);
        assert(w2 != PartView::Newline);
    }
}

proof fn lemma_lines_breaks(s: Seq<char>, i: int)
    requires
        0 <= i <= s.len(),
    ensures
        line_breaks(lines(s, i)) == occurrences(s.subrange(i, s.len() as int), '\n'),
    decreases s.len() - i,
{
    if i < s.len() {
        lemma_find(s, i, s.len() as int, '\n');
        let k = find(s, i, s.len() as int, '\n');
        lemma_words_no_breaks(s, i, k);
        lemma_no_occurrences(s.subrange(i, k), '\n');
        if k < s.len() {
            lemma_lines_breaks(s, k + 1);
            lemma_line_breaks_add(words(s, i, k) + seq![PartView::Newline], lines(s, k + 1));
            lemma_line_breaks_add(words(s, i, k), seq![PartView::Newline]);
            assert(seq![PartView::Newline].drop_last() =~= Seq::<PartView>::empty());
            assert(line_breaks(Seq::<PartView>::empty()) == 0);
            assert(line_breaks(seq![PartView::Newline]) == 1);
            assert(s.subrange(i, s.len() as int) =~= s.subrange(i, k) + seq![s[k]] + s.subrange(k + 1, s.len() as int));
            lemma_occurrences_add(s.subrange(i, k) + seq![s[k]], s.subrange(k + 1, s.len() as int), '\n');
            lemma_occurrences_add(s.subrange(i, k), seq![s[k]], '\n');
            assert(seq![s[k]].drop_last() =~= Seq::<char>::empty());
            assert(occurrences(Seq::<char>::empty(), '\n') == 0);
            assert(occurrences(seq![s[k]], '\n') == 1);
        } else {
            assert(s.subrange(i, s.len() as int) =~= s.subrange(i, k));
        }
    } else {
        assert(s.subrange(i, s.len() as int) =~= Seq::<char>::empty());
    }
}

/// Each line break of a message gives exactly one line-break part.
pub proof fn law_one_part_per_line_break(content: Seq<char>)
    ensures
        line_breaks(lines(content, 0)) == occurrences(content, '\n'),
{
    lemma_lines_breaks(content, 0);
    assert(content.subrange(0, content.len() as int) =~= content);
}

} // verus!
