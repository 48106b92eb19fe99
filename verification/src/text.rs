//! Character classes and small string helpers shared by the parsers.
use vstd::prelude::*;

verus! {

/// Whether a non-ASCII character counts as whitespace for chumsky's text parsers.
pub uninterp spec fn unicode_whitespace(c: char) -> bool;

/// Whether a non-ASCII character has the Unicode property XID_Start.
pub uninterp spec fn unicode_ident_start(c: char) -> bool;

/// Whether a non-ASCII character has the Unicode property XID_Continue.
pub uninterp spec fn unicode_ident_continue(c: char) -> bool;

/// The full lowercase mapping of a string.
pub uninterp spec fn lowercase_of(s: Seq<char>) -> Seq<char>;

pub open spec fn is_ascii_char(c: char) -> bool {
    (c as u32) < 128
}

pub open spec fn is_ascii_alpha(c: char) -> bool {
    ('a' <= c && c <= 'z') || ('A' <= c && c <= 'Z')
}

pub open spec fn is_dec_digit(c: char) -> bool {
    '0' <= c && c <= '9'
}

pub open spec fn is_hex_digit(c: char) -> bool {
    is_dec_digit(c) || ('a' <= c && c <= 'f') || ('A' <= c && c <= 'F')
}

/// Whitespace as the text parsers see it: on ASCII the characters `\t`, `\n`,
/// vertical tab, form feed, `\r` and space.
pub open spec fn is_ws(c: char) -> bool {
    if is_ascii_char(c) {
        c == ' ' || ('\t' <= c && c <= '\r')
    } else {
        unicode_whitespace(c)
    }
}

/// The first character of an identifier: an ASCII letter or `_`, or a
/// non-ASCII XID_Start character.
pub open spec fn is_ident_start(c: char) -> bool {
    if is_ascii_char(c) {
        is_ascii_alpha(c) || c == '_'
    } else {
        unicode_ident_start(c)
    }
}

/// A later character of an identifier: an ASCII letter, digit or `_`, or a
/// non-ASCII XID_Continue character.
pub open spec fn is_ident_continue(c: char) -> bool {
    if is_ascii_char(c) {
        is_ascii_alpha(c) || is_dec_digit(c) || c == '_'
    } else {
        unicode_ident_continue(c)
    }
}

/// `chumsky::text::is_whitespace`: `char::is_whitespace` without the bidi
/// control characters. On ASCII this is the White_Space set; other characters
/// are given by the name `unicode_whitespace`.
#[verifier::external_body]
pub(crate) fn char_is_whitespace(c: char) -> (r: bool)
    ensures
        r == is_ws(c),
        !is_ascii_char(c) ==> r == unicode_whitespace(c),
{
    chumsky::text::is_whitespace(c)
}

/// chumsky's `Char::is_ident_start` for `char`: `unicode_ident::is_xid_start(c) || c == '_'`.
/// On ASCII, XID_Start is exactly the letters; other characters are given by
/// the name `unicode_ident_start`.
#[verifier::external_body]
pub(crate) fn char_is_ident_start(c: char) -> (r: bool)
    ensures
        r == is_ident_start(c),
        !is_ascii_char(c) ==> r == unicode_ident_start(c),
{
    chumsky::text::Char::is_ident_start(&c)
}

/// chumsky's `Char::is_ident_continue` for `char`: `unicode_ident::is_xid_continue(c)`.
/// On ASCII, XID_Continue is exactly the letters, digits and `_`; other
/// characters are given by the name `unicode_ident_continue`.
#[verifier::external_body]
pub(crate) fn char_is_ident_continue(c: char) -> (r: bool)
    ensures
        r == is_ident_continue(c),
        !is_ascii_char(c) ==> r == unicode_ident_continue(c),
{
    chumsky::text::Char::is_ident_continue(&c)
}

pub open spec fn ascii_lower_char(c: char) -> char {
    if 'A' <= c && c <= 'Z' {
        ((c as u32) + 32) as char
    } else {
        c
    }
}

/// `str::to_ascii_lowercase`: ASCII capitals become small letters, every
/// other character stays.
pub open spec fn ascii_lower(s: Seq<char>) -> Seq<char> {
    s.map_values(|c: char| ascii_lower_char(c))
}

/// Only ASCII characters.
pub open spec fn is_ascii_text(s: Seq<char>) -> bool {
    forall|i: int| 0 <= i < s.len() ==> is_ascii_char(#[trigger] s[i])
}

/// The lowercase form of a text: on ASCII text its capitals made small;
/// beyond ASCII what the name `lowercase_of` gives.
pub open spec fn lowercase(s: Seq<char>) -> Seq<char> {
    if is_ascii_text(s) {
        ascii_lower(s)
    } else {
        lowercase_of(s)
    }
}

/// `str::to_lowercase`: the Unicode lowercase mapping, which on ASCII text
/// makes the capitals small and leaves the rest; for other text the result
/// is given by the name `lowercase_of`.
#[verifier::external_body]
pub(crate) fn to_lowercase(s: &str) -> (r: String)
    ensures
        r@ == lowercase(s@),
        !is_ascii_text(s@) ==> r@ == lowercase_of(s@),
{
    s.to_lowercase()
}

/// Collects characters into a `String` (`FromIterator<char>` for `String`).
#[verifier::external_body]
pub(crate) fn string_from_chars(v: &[char]) -> (r: String)
    ensures
        r@ == v@,
{
    v.iter().collect::<String>()
}

/// Collects the characters of `s` into a vector.
pub fn chars_of(s: &str) -> (v: Vec<char>)
    ensures
        v@ == s@,
{
    let mut v: Vec<char> = Vec::new();
    for c in it: s.chars()
        invariant
            v@ == it.seq().take(it.index()),
    {
        v.push(c);
    }
    v
}

pub fn is_dec_digit_exec(c: char) -> (r: bool)
    ensures
        r == is_dec_digit(c),
{
    '0' <= c && c <= '9'
}

pub fn is_hex_digit_exec(c: char) -> (r: bool)
    ensures
        r == is_hex_digit(c),
{
    ('0' <= c && c <= '9') || ('a' <= c && c <= 'f') || ('A' <= c && c <= 'F')
}

/// Whether two strings hold the same characters.
pub fn text_eq(a: &str, b: &str) -> (r: bool)
    ensures
        r == (a@ == b@),
{
    let x = chars_of(a);
    let y = chars_of(b);
    if x.len() != y.len() {
        return false;
    }
    let mut i: usize = 0;
    while i < x.len()
        invariant
            x@ == a@,
            y@ == b@,
            x.len() == y.len(),
            0 <= i <= x.len(),
            forall|j: int| 0 <= j < i ==> x@[j] == y@[j],
        decreases x.len() - i,
    {
        if x[i] != y[i] {
            return false;
        }
        i = i + 1;
    }
    assert(x@ =~= y@);
    true
}

/// The decimal digit `d`.
pub open spec fn digit(d: nat) -> char {
    ((d + 48) as u8) as char
}

/// `n` written in decimal, without leading zeros.
pub open spec fn decimal(n: nat) -> Seq<char>
    decreases n,
{
    if n < 10 {
        seq![digit(n)]
    } else {
        decimal(n / 10).push(digit(n % 10))
    }
}

/// `n` in decimal, padded with zeros on the left to at least two digits.
pub open spec fn two_digits(n: nat) -> Seq<char> {
    if n < 10 {
        seq!['0'] + decimal(n)
    } else {
        decimal(n)
    }
}

fn digit_char(d: u64) -> (c: char)
    requires
        d < 10,
    ensures
        c == digit(d as nat),
{
    let b: u8 = (d as u8) + 48;
    b as char
}

/// Appends `n` in decimal to `out`.
pub fn push_decimal(out: &mut Vec<char>, n: u64)
    ensures
        final(out)@ == old(out)@ + decimal(n as nat),
    decreases n,
{
    if n >= 10 {
        push_decimal(out, n / 10);
    }
    let c = digit_char(n % 10);
    out.push(c);
    assert(out@ =~= old(out)@ + decimal(n as nat));
}

/// Appends `n` in decimal, padded to two digits, to `out`.
pub fn push_two_digits(out: &mut Vec<char>, n: u64)
    ensures
        final(out)@ == old(out)@ + two_digits(n as nat),
{
    if n < 10 {
        out.push('0');
    }
    push_decimal(out, n);
    assert(out@ =~= old(out)@ + two_digits(n as nat));
}

/// Appends the characters of `s` to `out`.
pub fn push_str_chars(out: &mut Vec<char>, s: &str)
    ensures
        final(out)@ == old(out)@ + s@,
{
    let mut i: usize = 0;
    let v = chars_of(s);
    while i < v.len()
        invariant
            0 <= i <= v.len(),
            v@ == s@,
            out@ == old(out)@ + s@.take(i as int),
        decreases v.len() - i,
    {
        out.push(v[i]);
        assert(s@.take(i + 1) =~= s@.take(i as int).push(s@[i as int]));
        i = i + 1;
    }
    assert(s@.take(i as int) =~= s@);
}

/// The text held by the characters `v`.
pub fn string_of(v: &Vec<char>) -> (r: String)
    ensures
        r@ == v@,
{
    string_from_chars(v.as_slice())
}

} // verus!
