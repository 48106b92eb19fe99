//! The fill syntax of embed colours: named colours, `#` hex colours,
//! `rgb(..)`/`rgba(..)` and `linear-gradient(..)`.
//!
//! Each parser reads a character sequence from a position and, on success,
//! gives its value and the position after what it consumed. The spec
//! functions below define the grammar (ordered choice, greedy repetition,
//! no backtracking into a finished alternative); every exec parser is proved
//! to compute its spec function.
use vstd::prelude::*;
use crate::text::{
    chars_of, char_is_ident_start, char_is_ident_continue, char_is_whitespace, is_dec_digit, is_dec_digit_exec,
    is_hex_digit, is_hex_digit_exec, is_ident_continue, is_ident_start, is_ws, lowercase,
    string_from_chars, to_lowercase,
};

verus! {

// ---------------------------------------------------------------- values

pub const RED: u32 = 0xFFFF0000;
pub const GREEN: u32 = 0xFF00FF00;
pub const BLUE: u32 = 0xFF0000FF;

/// A colour packed as `0xAARRGGBB`.
pub open spec fn argb(a: u8, r: u8, g: u8, b: u8) -> u32 {
    (a as int * 0x1000000 + r as int * 0x10000 + g as int * 0x100 + b as int) as u32
}

/// Packs four channels into `0xAARRGGBB`.
pub fn from_argb(a: u8, r: u8, g: u8, b: u8) -> (c: u32)
    ensures
        c == argb(a, r, g, b),
        c as int == a as int * 0x1000000 + r as int * 0x10000 + g as int * 0x100 + b as int,
{
    (a as u32) * 0x1000000 + (r as u32) * 0x10000 + (g as u32) * 0x100 + (b as u32)
}

#[derive(Clone, Copy, Debug, PartialEq, Eq)]
pub enum AngleUnit {
    Deg,
    Grad,
    Rad,
    Turn,
}

/// The angle of a gradient as written.
#[derive(Clone, Debug)]
pub enum Angle {
    /// A `to ..` direction, in degrees.
    Direction(u16),
    /// A signed decimal number (its text) followed by a unit.
    Measure { number: String, unit: AngleUnit },
}

pub ghost enum AngleView {
    Direction(u16),
    Measure(Seq<char>, AngleUnit),
}

impl View for Angle {
    type V = AngleView;

    open spec fn view(&self) -> AngleView {
        match self {
            Angle::Direction(d) => AngleView::Direction(*d),
            Angle::Measure { number, unit } => AngleView::Measure(number@, *unit),
        }
    }
}

/// A colour stop: its colour and the percentage written after it, if any.
#[derive(Clone, Copy, Debug, PartialEq, Eq)]
pub struct GradientStop {
    pub color: u32,
    pub percent: Option<u8>,
}

#[derive(Clone, Debug)]
pub struct LinearGradient {
    pub angle: Option<Angle>,
    pub stops: Vec<GradientStop>,
}

pub ghost struct GradientView {
    pub angle: Option<AngleView>,
    pub stops: Seq<GradientStop>,
}

impl View for LinearGradient {
    type V = GradientView;

    open spec fn view(&self) -> GradientView {
        GradientView {
            angle: match self.angle {
                Some(a) => Some(a@),
                None => None,
            },
            stops: self.stops@,
        }
    }
}

#[derive(Clone, Debug)]
pub enum Fill {
    Color(u32),
    LinearGradient(LinearGradient),
}

pub ghost enum FillView {
    Color(u32),
    LinearGradient(GradientView),
}

impl View for Fill {
    type V = FillView;

    open spec fn view(&self) -> FillView {
        match self {
            Fill::Color(c) => FillView::Color(*c),
            Fill::LinearGradient(g) => FillView::LinearGradient(g@),
        }
    }
}

// ------------------------------------------------------ character runs

#[derive(Clone, Copy, Debug, PartialEq, Eq)]
pub enum CharClass {
    Whitespace,
    Hex,
    Dec,
    IdentContinue,
}

pub open spec fn in_class(k: CharClass, c: char) -> bool {
    match k {
        CharClass::Whitespace => is_ws(c),
        CharClass::Hex => is_hex_digit(c),
        CharClass::Dec => is_dec_digit(c),
        CharClass::IdentContinue => is_ident_continue(c),
    }
}

/// The end of the longest run of class `k` that starts at `p`.
pub open spec fn scan(s: Seq<char>, p: int, k: CharClass) -> int
    decreases s.len() - p,
{
    if 0 <= p < s.len() && in_class(k, s[p]) {
        scan(s, p + 1, k)
    } else {
        p
    }
}

pub open spec fn skip_ws(s: Seq<char>, p: int) -> int {
    scan(s, p, CharClass::Whitespace)
}

pub proof fn lemma_scan(s: Seq<char>, p: int, k: CharClass)
    requires
        0 <= p <= s.len(),
    ensures
        p <= scan(s, p, k) <= s.len(),
        forall|j: int| p <= j < scan(s, p, k) ==> in_class(k, #[trigger] s[j]),
        scan(s, p, k) < s.len() ==> !in_class(k, s[scan(s, p, k)]),
    decreases s.len() - p,
{
    if p < s.len() && in_class(k, s[p]) {
        lemma_scan(s, p + 1, k);
    }
}

fn class_contains(k: CharClass, c: char) -> (r: bool)
    ensures
        r == in_class(k, c),
{
    match k {
        CharClass::Whitespace => char_is_whitespace(c),
        CharClass::Hex => is_hex_digit_exec(c),
        CharClass::Dec => is_dec_digit_exec(c),
        CharClass::IdentContinue => char_is_ident_continue(c),
    }
}

pub fn scan_class(s: &Vec<char>, p: usize, k: CharClass) -> (q: usize)
    requires
        p <= s.len(),
    ensures
        q as int == scan(s@, p as int, k),
        p <= q <= s.len(),
{
    proof {
        lemma_scan(s@, p as int, k);
    }
    let mut i = p;
    while i < s.len() && class_contains(k, s[i])
        invariant
            p <= i <= s.len(),
            scan(s@, p as int, k) == scan(s@, i as int, k),
        decreases s.len() - i,
    {
        i = i + 1;
    }
    i
}

pub fn skip_whitespace(s: &Vec<char>, p: usize) -> (q: usize)
    requires
        p <= s.len(),
    ensures
        q as int == skip_ws(s@, p as int),
        p <= q <= s.len(),
{
    scan_class(s, p, CharClass::Whitespace)
}

/// Whether `w` stands in `s` at `p`.
pub open spec fn lit(s: Seq<char>, p: int, w: Seq<char>) -> bool {
    0 <= p && p + w.len() <= s.len() && s.subrange(p, p + w.len()) == w
}

/// Whether `s[p]` exists and is `c`.
pub open spec fn at(s: Seq<char>, p: int, c: char) -> bool {
    0 <= p < s.len() && s[p] == c
}

fn char_at(s: &Vec<char>, p: usize, c: char) -> (r: bool)
    ensures
        r == at(s@, p as int, c),
{
    p < s.len() && s[p] == c
}

fn lit_at(s: &Vec<char>, p: usize, w: &[char]) -> (r: bool)
    ensures
        r == lit(s@, p as int, w@),
{
    if p > s.len() || w.len() > s.len() - p {
        return false;
    }
    let mut i: usize = 0;
    while i < w.len()
        invariant
            p + w.len() <= s.len(),
            0 <= i <= w.len(),
            forall|j: int| 0 <= j < i ==> s@[p + j] == w@[j],
        decreases w.len() - i,
    {
        if s[p + i] != w[i] {
            assert(s@.subrange(p as int, p + w@.len())[i as int] != w@[i as int]);
            return false;
        }
        i = i + 1;
    }
    assert(s@.subrange(p as int, p + w@.len()) =~= w@);
    true
}

/// The characters `s[p..q]` as a vector.
fn chars_between(s: &Vec<char>, p: usize, q: usize) -> (v: Vec<char>)
    requires
        p <= q <= s.len(),
    ensures
        v@ == s@.subrange(p as int, q as int),
{
    let mut v: Vec<char> = Vec::new();
    let mut i = p;
    while i < q
        invariant
            p <= i <= q <= s.len(),
            v@ == s@.subrange(p as int, i as int),
        decreases q - i,
    {
        v.push(s[i]);
        i = i + 1;
        assert(v@ =~= s@.subrange(p as int, i as int));
    }
    v
}

fn chars_equal(a: &Vec<char>, w: &[char]) -> (r: bool)
    ensures
        r == (a@ == w@),
{
    if a.len() != w.len() {
        return false;
    }
    let mut i: usize = 0;
    while i < w.len()
        invariant
            a.len() == w.len(),
            0 <= i <= w.len(),
            forall|j: int| 0 <= j < i ==> a@[j] == w@[j],
        decreases w.len() - i,
    {
        if a[i] != w[i] {
            return false;
        }
        i = i + 1;
    }
    assert(a@ =~= w@);
    true
}

// ---------------------------------------------------------- identifiers

/// An identifier at `p`: an identifier-start character followed by the
/// longest run of identifier characters. Gives the end position.
pub open spec fn ident(s: Seq<char>, p: int) -> Option<int> {
    if 0 <= p < s.len() && is_ident_start(s[p]) {
        Some(scan(s, p + 1, CharClass::IdentContinue))
    } else {
        None
    }
}

fn parse_ident(s: &Vec<char>, p: usize) -> (r: Option<usize>)
    requires
        p <= s.len(),
    ensures
        match r {
            Some(q) => ident(s@, p as int) == Some(q as int) && p < q <= s.len(),
            None => ident(s@, p as int) is None,
        },
{
    if p < s.len() && char_is_ident_start(s[p]) {
        Some(scan_class(s, p + 1, CharClass::IdentContinue))
    } else {
        None
    }
}

/// The identifier at `p`, when it is exactly `w`.
pub open spec fn keyword(s: Seq<char>, p: int, w: Seq<char>) -> Option<int> {
    match ident(s, p) {
        Some(q) => if s.subrange(p, q) == w { Some(q) } else { None },
        None => None,
    }
}

// -------------------------------------------------------------- numbers

pub open spec fn digit_value(c: char) -> nat {
    (c as int - '0' as int) as nat
}

/// The value of a string of decimal digits.
pub open spec fn dec_value(d: Seq<char>) -> nat
    decreases d.len(),
{
    if d.len() == 0 {
        0
    } else {
        dec_value(d.drop_last()) * 10 + digit_value(d.last())
    }
}

/// A non-negative integer: `0`, or a non-zero digit and all digits after it.
pub open spec fn int10(s: Seq<char>, p: int) -> Option<int> {
    if 0 <= p < s.len() && is_dec_digit(s[p]) && s[p] != '0' {
        Some(scan(s, p + 1, CharClass::Dec))
    } else if at(s, p, '0') {
        Some(p + 1)
    } else {
        None
    }
}

fn parse_int10(s: &Vec<char>, p: usize) -> (r: Option<usize>)
    requires
        p <= s.len(),
    ensures
        match r {
            Some(q) => int10(s@, p as int) == Some(q as int) && p < q <= s.len() && forall|j: int|
                p <= j < q ==> is_dec_digit(#[trigger] s@[j]),
            None => int10(s@, p as int) is None,
        },
{
    if p < s.len() && is_dec_digit_exec(s[p]) && s[p] != '0' {
        let q = scan_class(s, p + 1, CharClass::Dec);
        proof {
            lemma_scan(s@, p + 1, CharClass::Dec);
        }
        Some(q)
    } else if char_at(s, p, '0') {
        Some(p + 1)
    } else {
        None
    }
}

/// The value of the digits `s[p..q]`, when it fits in a byte.
fn byte_value(s: &Vec<char>, p: usize, q: usize) -> (r: Option<u8>)
    requires
        p <= q <= s.len(),
        forall|j: int| p <= j < q ==> is_dec_digit(#[trigger] s@[j]),
    ensures
        match r {
            Some(v) => dec_value(s@.subrange(p as int, q as int)) <= 255 && v == dec_value(
                s@.subrange(p as int, q as int),
            ),
            None => dec_value(s@.subrange(p as int, q as int)) > 255,
        },
{
    let mut acc: u32 = 0;
    let mut over = false;
    let mut i = p;
    while i < q
        invariant
            p <= i <= q <= s.len(),
            forall|j: int| p <= j < q ==> is_dec_digit(#[trigger] s@[j]),
            !over ==> acc == dec_value(s@.subrange(p as int, i as int)) && acc <= 255,
            over ==> dec_value(s@.subrange(p as int, i as int)) > 255,
        decreases q - i,
    {
        let c = s[i];
        assert(is_dec_digit(s@[i as int]));
        let d = (c as u32) - ('0' as u32);
        assert(s@.subrange(p as int, i + 1).drop_last() =~= s@.subrange(p as int, i as int));
        assert(s@.subrange(p as int, i + 1).last() == c);
        if !over {
            let n = acc * 10 + d;
            if n > 255 {
                over = true;
            } else {
                acc = n;
            }
        }
        i = i + 1;
    }
    if over {
        None
    } else {
        Some(acc as u8)
    }
}

/// A decimal integer that fits in a byte.
pub open spec fn byte_number(s: Seq<char>, p: int) -> Option<(u8, int)> {
    match int10(s, p) {
        Some(q) => if dec_value(s.subrange(p, q)) <= 255 {
            Some((dec_value(s.subrange(p, q)) as u8, q))
        } else {
            None
        },
        None => None,
    }
}

/// A byte-sized integer followed by `%`.
pub open spec fn percentage(s: Seq<char>, p: int) -> Option<(u8, int)> {
    match int10(s, p) {
        Some(q) => if at(s, q, '%') && dec_value(s.subrange(p, q)) <= 255 {
            Some((dec_value(s.subrange(p, q)) as u8, q + 1))
        } else {
            None
        },
        None => None,
    }
}

fn parse_byte_number(s: &Vec<char>, p: usize) -> (r: Option<(u8, usize)>)
    requires
        p <= s.len(),
    ensures
        match r {
            Some((v, q)) => byte_number(s@, p as int) == Some((v, q as int)) && p < q <= s.len(),
            None => byte_number(s@, p as int) is None,
        },
{
    match parse_int10(s, p) {
        Some(q) => match byte_value(s, p, q) {
            Some(v) => Some((v, q)),
            None => None,
        },
        None => None,
    }
}

pub fn parse_percentage(s: &Vec<char>, p: usize) -> (r: Option<(u8, usize)>)
    requires
        p <= s.len(),
    ensures
        match r {
            Some((v, q)) => percentage(s@, p as int) == Some((v, q as int)) && p < q <= s.len(),
            None => percentage(s@, p as int) is None,
        },
{
    match parse_int10(s, p) {
        Some(q) => {
            if char_at(s, q, '%') {
                match byte_value(s, p, q) {
                    Some(v) => Some((v, q + 1)),
                    None => None,
                }
            } else {
                None
            }
        },
        None => None,
    }
}

/// A percentage as a colour channel: `255 * f / 100` rounded down, at most 255.
pub open spec fn percent_channel(f: u8) -> u8 {
    if 255 * f as int / 100 > 255 {
        255
    } else {
        (255 * f as int / 100) as u8
    }
}

/// Converts a percentage into a colour channel.
pub fn percent_to_channel(f: u8) -> (v: u8)
    ensures
        v == percent_channel(f),
{
    let x = (f as u32) * 255 / 100;
    if x > 255 {
        255
    } else {
        x as u8
    }
}

/// A colour channel: a percentage, or else a byte-sized integer.
pub open spec fn channel(s: Seq<char>, p: int) -> Option<(u8, int)> {
    match percentage(s, p) {
        Some((f, q)) => Some((percent_channel(f), q)),
        None => byte_number(s, p),
    }
}

fn parse_channel(s: &Vec<char>, p: usize) -> (r: Option<(u8, usize)>)
    requires
        p <= s.len(),
    ensures
        match r {
            Some((v, q)) => channel(s@, p as int) == Some((v, q as int)) && p < q <= s.len(),
            None => channel(s@, p as int) is None,
        },
{
    match parse_percentage(s, p) {
        Some((f, q)) => Some((percent_to_channel(f), q)),
        None => parse_byte_number(s, p),
    }
}

// ------------------------------------------------------------ hex colours

pub open spec fn hex_value(c: char) -> nat {
    if is_dec_digit(c) {
        (c as int - '0' as int) as nat
    } else if 'a' <= c && c <= 'f' {
        (c as int - 'a' as int + 10) as nat
    } else {
        (c as int - 'A' as int + 10) as nat
    }
}

/// The byte written by two hex digits.
pub open spec fn hex_byte(h: char, l: char) -> u8 {
    (hex_value(h) * 16 + hex_value(l)) as u8
}

/// `#` and a run of hex digits. Three or four digits give one (unscaled)
/// digit per channel; six or eight give two. Three and six digits leave the
/// alpha at 255; with four or eight the last digit(s) are the alpha.
pub open spec fn hex_color(s: Seq<char>, p: int) -> Option<(u32, int)> {
    if at(s, p, '#') {
        let q = scan(s, p + 1, CharClass::Hex);
        let n = q - (p + 1);
        if n == 3 {
            Some(
                (
                    argb(
                        255,
                        hex_value(s[p + 1]) as u8,
                        hex_value(s[p + 2]) as u8,
                        hex_value(s[p + 3]) as u8,
                    ),
                    q,
                ),
            )
        } else if n == 4 {
            Some(
                (
                    argb(
                        hex_value(s[p + 4]) as u8,
                        hex_value(s[p + 1]) as u8,
                        hex_value(s[p + 2]) as u8,
                        hex_value(s[p + 3]) as u8,
                    ),
                    q,
                ),
            )
        } else if n == 6 {
            Some(
                (
                    argb(
                        255,
                        hex_byte(s[p + 1], s[p + 2]),
                        hex_byte(s[p + 3], s[p + 4]),
                        hex_byte(s[p + 5], s[p + 6]),
                    ),
                    q,
                ),
            )
        } else if n == 8 {
            Some(
                (
                    argb(
                        hex_byte(s[p + 7], s[p + 8]),
                        hex_byte(s[p + 1], s[p + 2]),
                        hex_byte(s[p + 3], s[p + 4]),
                        hex_byte(s[p + 5], s[p + 6]),
                    ),
                    q,
                ),
            )
        } else {
            None
        }
    } else {
        None
    }
}

fn hex_digit_value(c: char) -> (v: u8)
    requires
        is_hex_digit(c),
    ensures
        v == hex_value(c),
        v < 16,
{
    if '0' <= c && c <= '9' {
        ((c as u32) - ('0' as u32)) as u8
    } else if 'a' <= c && c <= 'f' {
        ((c as u32) - ('a' as u32) + 10) as u8
    } else {
        ((c as u32) - ('A' as u32) + 10) as u8
    }
}

fn hex_pair(h: char, l: char) -> (v: u8)
    requires
        is_hex_digit(h),
        is_hex_digit(l),
    ensures
        v == hex_byte(h, l),
{
    hex_digit_value(h) * 16 + hex_digit_value(l)
}

fn parse_hex_color(s: &Vec<char>, p: usize) -> (r: Option<(u32, usize)>)
    requires
        p <= s.len(),
    ensures
        match r {
            Some((c, q)) => hex_color(s@, p as int) == Some((c, q as int)) && p < q <= s.len(),
            None => hex_color(s@, p as int) is None,
        },
{
    if !char_at(s, p, '#') {
        return None;
    }
    let q = scan_class(s, p + 1, CharClass::Hex);
    proof {
        lemma_scan(s@, p + 1, CharClass::Hex);
    }
    let n = q - (p + 1);
    if n == 3 {
        assert(is_hex_digit(s@[p + 1]) && is_hex_digit(s@[p + 2]) && is_hex_digit(s@[p + 3]));
        Some(
            (
                from_argb(
                    255,
                    hex_digit_value(s[p + 1]),
                    hex_digit_value(s[p + 2]),
                    hex_digit_value(s[p + 3]),
                ),
                q,
            ),
        )
    } else if n == 4 {
        assert(is_hex_digit(s@[p + 1]) && is_hex_digit(s@[p + 2]) && is_hex_digit(s@[p + 3])
            && is_hex_digit(s@[p + 4]));
        Some(
            (
                from_argb(
                    hex_digit_value(s[p + 4]),
                    hex_digit_value(s[p + 1]),
                    hex_digit_value(s[p + 2]),
                    hex_digit_value(s[p + 3]),
                ),
                q,
            ),
        )
    } else if n == 6 {
        assert(is_hex_digit(s@[p + 1]) && is_hex_digit(s@[p + 2]) && is_hex_digit(s@[p + 3])
            && is_hex_digit(s@[p + 4]) && is_hex_digit(s@[p + 5]) && is_hex_digit(s@[p + 6]));
        Some(
            (
                from_argb(
                    255,
                    hex_pair(s[p + 1], s[p + 2]),
                    hex_pair(s[p + 3], s[p + 4]),
                    hex_pair(s[p + 5], s[p + 6]),
                ),
                q,
            ),
        )
    } else if n == 8 {
        assert(is_hex_digit(s@[p + 1]) && is_hex_digit(s@[p + 2]) && is_hex_digit(s@[p + 3])
            && is_hex_digit(s@[p + 4]) && is_hex_digit(s@[p + 5]) && is_hex_digit(s@[p + 6])
            && is_hex_digit(s@[p + 7]) && is_hex_digit(s@[p + 8]));
        Some(
            (
                from_argb(
                    hex_pair(s[p + 7], s[p + 8]),
                    hex_pair(s[p + 1], s[p + 2]),
                    hex_pair(s[p + 3], s[p + 4]),
                    hex_pair(s[p + 5], s[p + 6]),
                ),
                q,
            ),
        )
    } else {
        None
    }
}

// ---------------------------------------------------------- named colours

/// An identifier whose lowercase form is `red`, `green` or `blue`.
pub open spec fn named_color(s: Seq<char>, p: int) -> Option<(u32, int)> {
    match ident(s, p) {
        Some(q) => {
            let l = lowercase(s.subrange(p, q));
            if l == seq!['r', 'e', 'd'] {
                Some((RED, q))
            } else if l == seq!['g', 'r', 'e', 'e', 'n'] {
                Some((GREEN, q))
            } else if l == seq!['b', 'l', 'u', 'e'] {
                Some((BLUE, q))
            } else {
                None
            }
        },
        None => None,
    }
}

fn parse_named_color(s: &Vec<char>, p: usize) -> (r: Option<(u32, usize)>)
    requires
        p <= s.len(),
    ensures
        match r {
            Some((c, q)) => named_color(s@, p as int) == Some((c, q as int)) && p < q <= s.len(),
            None => named_color(s@, p as int) is None,
        },
{
    match parse_ident(s, p) {
        Some(q) => {
            let word = chars_between(s, p, q);
            let text = string_from_chars(word.as_slice());
            let lower = to_lowercase(text.as_str());
            let l = chars_of(lower.as_str());
            if chars_equal(&l, &['r', 'e', 'd']) {
                Some((RED, q))
            } else if chars_equal(&l, &['g', 'r', 'e', 'e', 'n']) {
                Some((GREEN, q))
            } else if chars_equal(&l, &['b', 'l', 'u', 'e']) {
                Some((BLUE, q))
            } else {
                None
            }
        },
        None => None,
    }
}

// ------------------------------------------------------------ rgb colours

/// A channel with whitespace skipped before and after it.
pub open spec fn padded_channel(s: Seq<char>, p: int) -> Option<(u8, int)> {
    match channel(s, skip_ws(s, p)) {
        Some((v, q)) => Some((v, skip_ws(s, q))),
        None => None,
    }
}

/// The optional alpha after `sep` (whitespace around `sep` allowed); when it
/// is absent nothing is consumed.
pub open spec fn alpha_after(s: Seq<char>, p: int, sep: char) -> (Option<u8>, int) {
    let q0 = skip_ws(s, p);
    if at(s, q0, sep) {
        match channel(s, skip_ws(s, q0 + 1)) {
            Some((a, q)) => (Some(a), q),
            None => (None, p),
        }
    } else {
        (None, p)
    }
}

/// Three channels separated by (possibly empty) whitespace, then `/ alpha`.
pub open spec fn rgb_spaced(s: Seq<char>, p: int) -> Option<(u32, int)> {
    match channel(s, p) {
        Some((r, q1)) => match channel(s, skip_ws(s, q1)) {
            Some((g, q2)) => match channel(s, skip_ws(s, q2)) {
                Some((b, q3)) => {
                    let (a, q4) = alpha_after(s, q3, '/');
                    Some(
                        (
                            argb(
                                match a {
                                    Some(x) => x,
                                    None => 255,
                                },
                                r,
                                g,
                                b,
                            ),
                            q4,
                        ),
                    )
                },
                None => None,
            },
            None => None,
        },
        None => None,
    }
}

/// Three channels separated by commas, then `, alpha`.
pub open spec fn rgb_commas(s: Seq<char>, p: int) -> Option<(u32, int)> {
    match padded_channel(s, p) {
        Some((r, q1)) => if at(s, q1, ',') {
            match padded_channel(s, q1 + 1) {
                Some((g, q2)) => if at(s, q2, ',') {
                    match padded_channel(s, q2 + 1) {
                        Some((b, q3)) => {
                            let (a, q4) = alpha_after(s, q3, ',');
                            Some(
                                (
                                    argb(
                                        match a {
                                            Some(x) => x,
                                            None => 255,
                                        },
                                        r,
                                        g,
                                        b,
                                    ),
                                    q4,
                                ),
                            )
                        },
                        None => None,
                    }
                } else {
                    None
                },
                None => None,
            }
        } else {
            None
        },
        None => None,
    }
}

pub open spec fn rgb_body(s: Seq<char>, p: int) -> Option<(u32, int)> {
    match rgb_spaced(s, p) {
        Some(x) => Some(x),
        None => rgb_commas(s, p),
    }
}

/// `rgb(..)` or `rgba(..)`: the keyword, `(`, the body with whitespace around
/// it, `)`.
pub open spec fn rgb_color(s: Seq<char>, p: int) -> Option<(u32, int)> {
    match ident(s, p) {
        Some(q) => if (s.subrange(p, q) == seq!['r', 'g', 'b', 'a'] || s.subrange(p, q) == seq![
            'r',
            'g',
            'b',
        ]) && at(s, q, '(') {
            match rgb_body(s, skip_ws(s, q + 1)) {
                Some((c, q2)) => {
                    let q3 = skip_ws(s, q2);
                    if at(s, q3, ')') {
                        Some((c, q3 + 1))
                    } else {
                        None
                    }
                },
                None => None,
            }
        } else {
            None
        },
        None => None,
    }
}

fn parse_padded_channel(s: &Vec<char>, p: usize) -> (r: Option<(u8, usize)>)
    requires
        p <= s.len(),
    ensures
        match r {
            Some((v, q)) => padded_channel(s@, p as int) == Some((v, q as int)) && p < q
                <= s.len(),
            None => padded_channel(s@, p as int) is None,
        },
{
    let q0 = skip_whitespace(s, p);
    match parse_channel(s, q0) {
        Some((v, q)) => Some((v, skip_whitespace(s, q))),
        None => None,
    }
}

fn parse_alpha_after(s: &Vec<char>, p: usize, sep: char) -> (r: (Option<u8>, usize))
    requires
        p <= s.len(),
    ensures
        alpha_after(s@, p as int, sep) == (r.0, r.1 as int),
        p <= r.1 <= s.len(),
{
    let q0 = skip_whitespace(s, p);
    if char_at(s, q0, sep) {
        let q1 = skip_whitespace(s, q0 + 1);
        match parse_channel(s, q1) {
            Some((a, q)) => (Some(a), q),
            None => (None, p),
        }
    } else {
        (None, p)
    }
}

fn alpha_or_opaque(a: Option<u8>) -> (v: u8)
    ensures
        v == match a {
            Some(x) => x,
            None => 255u8,
        },
{
    match a {
        Some(x) => x,
        None => 255,
    }
}

fn parse_rgb_spaced(s: &Vec<char>, p: usize) -> (r: Option<(u32, usize)>)
    requires
        p <= s.len(),
    ensures
        match r {
            Some((c, q)) => rgb_spaced(s@, p as int) == Some((c, q as int)) && p < q <= s.len(),
            None => rgb_spaced(s@, p as int) is None,
        },
{
    let (r, q1) = match parse_channel(s, p) {
        Some(x) => x,
        None => return None,
    };
    let (g, q2) = match parse_channel(s, skip_whitespace(s, q1)) {
        Some(x) => x,
        None => return None,
    };
    let (b, q3) = match parse_channel(s, skip_whitespace(s, q2)) {
        Some(x) => x,
        None => return None,
    };
    let (a, q4) = parse_alpha_after(s, q3, '/');
    Some((from_argb(alpha_or_opaque(a), r, g, b), q4))
}

fn parse_rgb_commas(s: &Vec<char>, p: usize) -> (r: Option<(u32, usize)>)
    requires
        p <= s.len(),
    ensures
        match r {
            Some((c, q)) => rgb_commas(s@, p as int) == Some((c, q as int)) && p < q <= s.len(),
            None => rgb_commas(s@, p as int) is None,
        },
{
    let (r, q1) = match parse_padded_channel(s, p) {
        Some(x) => x,
        None => return None,
    };
    if !char_at(s, q1, ',') {
        return None;
    }
    let (g, q2) = match parse_padded_channel(s, q1 + 1) {
        Some(x) => x,
        None => return None,
    };
    if !char_at(s, q2, ',') {
        return None;
    }
    let (b, q3) = match parse_padded_channel(s, q2 + 1) {
        Some(x) => x,
        None => return None,
    };
    let (a, q4) = parse_alpha_after(s, q3, ',');
    Some((from_argb(alpha_or_opaque(a), r, g, b), q4))
}

fn parse_rgb_color(s: &Vec<char>, p: usize) -> (r: Option<(u32, usize)>)
    requires
        p <= s.len(),
    ensures
        match r {
            Some((c, q)) => rgb_color(s@, p as int) == Some((c, q as int)) && p < q <= s.len(),
            None => rgb_color(s@, p as int) is None,
        },
{
    let q = match parse_ident(s, p) {
        Some(q) => q,
        None => return None,
    };
    let word = chars_between(s, p, q);
    if !((chars_equal(&word, &['r', 'g', 'b', 'a']) || chars_equal(&word, &['r', 'g', 'b']))
        && char_at(s, q, '(')) {
        return None;
    }
    let q1 = skip_whitespace(s, q + 1);
    let body = match parse_rgb_spaced(s, q1) {
        Some(x) => Some(x),
        None => parse_rgb_commas(s, q1),
    };
    match body {
        Some((c, q2)) => {
            let q3 = skip_whitespace(s, q2);
            if char_at(s, q3, ')') {
                Some((c, q3 + 1))
            } else {
                None
            }
        },
        None => None,
    }
}

// ---------------------------------------------------------- any colour

/// A named colour, else a hex colour, else an `rgb(..)` colour.
pub open spec fn inner_color(s: Seq<char>, p: int) -> Option<(u32, int)> {
    match named_color(s, p) {
        Some(x) => Some(x),
        None => match hex_color(s, p) {
            Some(x) => Some(x),
            None => rgb_color(s, p),
        },
    }
}

pub fn parse_inner_color(s: &Vec<char>, p: usize) -> (r: Option<(u32, usize)>)
    requires
        p <= s.len(),
    ensures
        match r {
            Some((c, q)) => inner_color(s@, p as int) == Some((c, q as int)) && p < q <= s.len(),
            None => inner_color(s@, p as int) is None,
        },
{
    match parse_named_color(s, p) {
        Some(x) => Some(x),
        None => match parse_hex_color(s, p) {
            Some(x) => Some(x),
            None => parse_rgb_color(s, p),
        },
    }
}

// ------------------------------------------------------------ gradients

/// A colour with whitespace around it, then optionally a percentage; a
/// second percentage directly after the first is consumed and ignored.
pub open spec fn stop(s: Seq<char>, p: int) -> Option<(GradientStop, int)> {
    match inner_color(s, skip_ws(s, p)) {
        Some((c, q1)) => {
            let q2 = skip_ws(s, q1);
            match percentage(s, q2) {
                Some((v, q3)) => {
                    let q4 = match percentage(s, q3) {
                        Some((_, q)) => q,
                        None => q3,
                    };
                    Some((GradientStop { color: c, percent: Some(v) }, q4))
                },
                None => Some((GradientStop { color: c, percent: None }, q2)),
            }
        },
        None => None,
    }
}

/// A stop with whitespace around it.
pub open spec fn stop_item(s: Seq<char>, p: int) -> Option<(GradientStop, int)> {
    match stop(s, skip_ws(s, p)) {
        Some((st, q)) => Some((st, skip_ws(s, q))),
        None => None,
    }
}

/// The stops after the first one: each is `,` and a stop. A `,` that is not
/// followed by a stop is consumed and ends the list.
pub open spec fn stops_rest(s: Seq<char>, p: int) -> (Seq<GradientStop>, int)
    decreases s.len() - p,
{
    if at(s, p, ',') {
        match stop_item(s, p + 1) {
            Some((st, q)) => if p < q <= s.len() {
                let (rest, e) = stops_rest(s, q);
                (seq![st] + rest, e)
            } else {
                (seq![st], q)
            },
            None => (seq![], p + 1),
        }
    } else {
        (seq![], p)
    }
}

/// A comma-separated list of stops, possibly empty.
pub open spec fn stops_list(s: Seq<char>, p: int) -> (Seq<GradientStop>, int) {
    match stop_item(s, p) {
        Some((st, q)) => {
            let (rest, e) = stops_rest(s, q);
            (seq![st] + rest, e)
        },
        None => (seq![], p),
    }
}

fn parse_stop(s: &Vec<char>, p: usize) -> (r: Option<(GradientStop, usize)>)
    requires
        p <= s.len(),
    ensures
        match r {
            Some((st, q)) => stop(s@, p as int) == Some((st, q as int)) && p < q <= s.len(),
            None => stop(s@, p as int) is None,
        },
{
    let q0 = skip_whitespace(s, p);
    match parse_inner_color(s, q0) {
        Some((c, q1)) => {
            let q2 = skip_whitespace(s, q1);
            match parse_percentage(s, q2) {
                Some((v, q3)) => {
                    let q4 = match parse_percentage(s, q3) {
                        Some((_, q)) => q,
                        None => q3,
                    };
                    Some((GradientStop { color: c, percent: Some(v) }, q4))
                },
                None => Some((GradientStop { color: c, percent: None }, q2)),
            }
        },
        None => None,
    }
}

fn parse_stop_item(s: &Vec<char>, p: usize) -> (r: Option<(GradientStop, usize)>)
    requires
        p <= s.len(),
    ensures
        match r {
            Some((st, q)) => stop_item(s@, p as int) == Some((st, q as int)) && p < q <= s.len(),
            None => stop_item(s@, p as int) is None,
        },
{
    let q0 = skip_whitespace(s, p);
    match parse_stop(s, q0) {
        Some((st, q)) => Some((st, skip_whitespace(s, q))),
        None => None,
    }
}

fn parse_stops_list(s: &Vec<char>, p: usize) -> (r: (Vec<GradientStop>, usize))
    requires
        p <= s.len(),
    ensures
        stops_list(s@, p as int) == (r.0@, r.1 as int),
        p <= r.1 <= s.len(),
{
    let mut out: Vec<GradientStop> = Vec::new();
    let mut i = match parse_stop_item(s, p) {
        Some((st, q)) => {
            out.push(st);
            q
        },
        None => {
            assert(out@ =~= seq![]);
            return (out, p);
        },
    };
    assert(out@ =~= seq![stop_item(s@, p as int).unwrap().0]);
    loop
        invariant
            p < i <= s.len(),
            stops_list(s@, p as int) == (out@ + stops_rest(s@, i as int).0, stops_rest(
                s@,
                i as int,
            ).1),
        decreases s.len() - i,
    {
        if !char_at(s, i, ',') {
            assert(out@ + seq![] =~= out@);
            return (out, i);
        }
        match parse_stop_item(s, i + 1) {
            Some((st, q)) => {
                let ghost old_out = out@;
                out.push(st);
                assert(old_out + (seq![st] + stops_rest(s@, q as int).0) =~= out@ + stops_rest(
                    s@,
                    q as int,
                ).0);
                i = q;
            },
            None => {
                assert(out@ + seq![] =~= out@);
                return (out, i + 1);
            },
        }
    }
}

pub enum Horizontal {
    Left,
    Right,
}

pub enum Vertical {
    Top,
    Bottom,
}

/// `left` or `right` as an identifier, with whitespace around it.
pub open spec fn horizontal_side(s: Seq<char>, p: int) -> Option<(Horizontal, int)> {
    let q0 = skip_ws(s, p);
    match ident(s, q0) {
        Some(q1) => if s.subrange(q0, q1) == seq!['l', 'e', 'f', 't'] {
            Some((Horizontal::Left, skip_ws(s, q1)))
        } else if s.subrange(q0, q1) == seq!['r', 'i', 'g', 'h', 't'] {
            Some((Horizontal::Right, skip_ws(s, q1)))
        } else {
            None
        },
        None => None,
    }
}

/// `top` or `bottom` as an identifier, with whitespace around it.
pub open spec fn vertical_side(s: Seq<char>, p: int) -> Option<(Vertical, int)> {
    let q0 = skip_ws(s, p);
    match ident(s, q0) {
        Some(q1) => if s.subrange(q0, q1) == seq!['t', 'o', 'p'] {
            Some((Vertical::Top, skip_ws(s, q1)))
        } else if s.subrange(q0, q1) == seq!['b', 'o', 't', 't', 'o', 'm'] {
            Some((Vertical::Bottom, skip_ws(s, q1)))
        } else {
            None
        },
        None => None,
    }
}

/// The degrees of a direction: `to left` 90, `to right` 270, `to top left`
/// 135, `to top right` 225, `to bottom left` 45, `to bottom right` 315.
pub open spec fn direction_degrees(v: Option<Vertical>, h: Horizontal) -> u16 {
    match (v, h) {
        (None, Horizontal::Left) => 90,
        (None, Horizontal::Right) => 270,
        (Some(Vertical::Top), Horizontal::Left) => 135,
        (Some(Vertical::Top), Horizontal::Right) => 225,
        (Some(Vertical::Bottom), Horizontal::Left) => 45,
        (Some(Vertical::Bottom), Horizontal::Right) => 315,
    }
}

/// `to` followed by a horizontal side, or by a vertical and then a
/// horizontal side. A vertical side alone is no direction.
pub open spec fn direction(s: Seq<char>, p: int) -> Option<(u16, int)> {
    if lit(s, p, seq!['t', 'o']) {
        match horizontal_side(s, p + 2) {
            Some((h, q)) => Some((direction_degrees(None, h), q)),
            None => match vertical_side(s, p + 2) {
                Some((v, q1)) => match horizontal_side(s, q1) {
                    Some((h, q2)) => Some((direction_degrees(Some(v), h), q2)),
                    None => None,
                },
                None => None,
            },
        }
    } else {
        None
    }
}

pub open spec fn angle_unit(w: Seq<char>) -> Option<AngleUnit> {
    if w == seq!['d', 'e', 'g'] {
        Some(AngleUnit::Deg)
    } else if w == seq!['g', 'r', 'a', 'd'] {
        Some(AngleUnit::Grad)
    } else if w == seq!['r', 'a', 'd'] {
        Some(AngleUnit::Rad)
    } else if w == seq!['t', 'u', 'r', 'n'] {
        Some(AngleUnit::Turn)
    } else {
        None
    }
}

/// The end of a number: an optional `-`, an integer, and optionally `.`
/// followed by one or more digits.
pub open spec fn number_end(s: Seq<char>, p: int) -> Option<int> {
    let p1 = if at(s, p, '-') {
        p + 1
    } else {
        p
    };
    match int10(s, p1) {
        Some(p2) => if at(s, p2, '.') && 0 <= p2 + 1 < s.len() && is_dec_digit(s[p2 + 1]) {
            Some(scan(s, p2 + 1, CharClass::Dec))
        } else {
            Some(p2)
        },
        None => None,
    }
}

/// A number and then a unit with whitespace around it.
pub open spec fn measured_angle(s: Seq<char>, p: int) -> Option<(AngleView, int)> {
    match number_end(s, p) {
        Some(p3) => {
            let q0 = skip_ws(s, p3);
            match ident(s, q0) {
                Some(q1) => match angle_unit(s.subrange(q0, q1)) {
                    Some(u) => Some((AngleView::Measure(s.subrange(p, p3), u), skip_ws(s, q1))),
                    None => None,
                },
                None => None,
            }
        },
        None => None,
    }
}

/// A direction, else a measured angle.
pub open spec fn angle(s: Seq<char>, p: int) -> Option<(AngleView, int)> {
    match direction(s, p) {
        Some((d, q)) => Some((AngleView::Direction(d), q)),
        None => measured_angle(s, p),
    }
}

/// An angle with whitespace around it, then `,`.
pub open spec fn angle_item(s: Seq<char>, p: int) -> Option<(AngleView, int)> {
    match angle(s, skip_ws(s, p)) {
        Some((a, q1)) => {
            let q2 = skip_ws(s, q1);
            if at(s, q2, ',') {
                Some((a, q2 + 1))
            } else {
                None
            }
        },
        None => None,
    }
}

pub open spec fn gradient_keyword() -> Seq<char> {
    seq!['l', 'i', 'n', 'e', 'a', 'r', '-', 'g', 'r', 'a', 'd', 'i', 'e', 'n', 't']
}

/// `linear-gradient(`, an optional angle item, the stops, `)`.
pub open spec fn linear_gradient(s: Seq<char>, p: int) -> Option<(GradientView, int)> {
    if lit(s, p, gradient_keyword()) && at(s, p + 15, '(') {
        let p1 = p + 16;
        let (a, p2) = match angle_item(s, p1) {
            Some((a, q)) => (Some(a), q),
            None => (None, p1),
        };
        let (stops, p3) = stops_list(s, p2);
        if at(s, p3, ')') {
            Some((GradientView { angle: a, stops: stops }, p3 + 1))
        } else {
            None
        }
    } else {
        None
    }
}

fn parse_horizontal_side(s: &Vec<char>, p: usize) -> (r: Option<(Horizontal, usize)>)
    requires
        p <= s.len(),
    ensures
        match r {
            Some((h, q)) => horizontal_side(s@, p as int) == Some((h, q as int)) && p < q
                <= s.len(),
            None => horizontal_side(s@, p as int) is None,
        },
{
    let q0 = skip_whitespace(s, p);
    match parse_ident(s, q0) {
        Some(q1) => {
            let word = chars_between(s, q0, q1);
            if chars_equal(&word, &['l', 'e', 'f', 't']) {
                Some((Horizontal::Left, skip_whitespace(s, q1)))
            } else if chars_equal(&word, &['r', 'i', 'g', 'h', 't']) {
                Some((Horizontal::Right, skip_whitespace(s, q1)))
            } else {
                None
            }
        },
        None => None,
    }
}

fn parse_vertical_side(s: &Vec<char>, p: usize) -> (r: Option<(Vertical, usize)>)
    requires
        p <= s.len(),
    ensures
        match r {
            Some((v, q)) => vertical_side(s@, p as int) == Some((v, q as int)) && p < q
                <= s.len(),
            None => vertical_side(s@, p as int) is None,
        },
{
    let q0 = skip_whitespace(s, p);
    match parse_ident(s, q0) {
        Some(q1) => {
            let word = chars_between(s, q0, q1);
            if chars_equal(&word, &['t', 'o', 'p']) {
                Some((Vertical::Top, skip_whitespace(s, q1)))
            } else if chars_equal(&word, &['b', 'o', 't', 't', 'o', 'm']) {
                Some((Vertical::Bottom, skip_whitespace(s, q1)))
            } else {
                None
            }
        },
        None => None,
    }
}

fn degrees_of(v: Option<Vertical>, h: Horizontal) -> (d: u16)
    ensures
        d == direction_degrees(v, h),
{
    match (v, h) {
        (None, Horizontal::Left) => 90,
        (None, Horizontal::Right) => 270,
        (Some(Vertical::Top), Horizontal::Left) => 135,
        (Some(Vertical::Top), Horizontal::Right) => 225,
        (Some(Vertical::Bottom), Horizontal::Left) => 45,
        (Some(Vertical::Bottom), Horizontal::Right) => 315,
    }
}

fn parse_direction(s: &Vec<char>, p: usize) -> (r: Option<(u16, usize)>)
    requires
        p <= s.len(),
    ensures
        match r {
            Some((d, q)) => direction(s@, p as int) == Some((d, q as int)) && p < q <= s.len(),
            None => direction(s@, p as int) is None,
        },
{
    if !lit_at(s, p, &['t', 'o']) {
        return None;
    }
    match parse_horizontal_side(s, p + 2) {
        Some((h, q)) => Some((degrees_of(None, h), q)),
        None => match parse_vertical_side(s, p + 2) {
            Some((v, q1)) => match parse_horizontal_side(s, q1) {
                Some((h, q2)) => Some((degrees_of(Some(v), h), q2)),
                None => None,
            },
            None => None,
        },
    }
}

fn unit_of(w: &Vec<char>) -> (r: Option<AngleUnit>)
    ensures
        r == angle_unit(w@),
{
    if chars_equal(w, &['d', 'e', 'g']) {
        Some(AngleUnit::Deg)
    } else if chars_equal(w, &['g', 'r', 'a', 'd']) {
        Some(AngleUnit::Grad)
    } else if chars_equal(w, &['r', 'a', 'd']) {
        Some(AngleUnit::Rad)
    } else if chars_equal(w, &['t', 'u', 'r', 'n']) {
        Some(AngleUnit::Turn)
    } else {
        None
    }
}

fn parse_number_end(s: &Vec<char>, p: usize) -> (r: Option<usize>)
    requires
        p <= s.len(),
    ensures
        match r {
            Some(q) => number_end(s@, p as int) == Some(q as int) && p < q <= s.len(),
            None => number_end(s@, p as int) is None,
        },
{
    let p1 = if char_at(s, p, '-') {
        p + 1
    } else {
        p
    };
    match parse_int10(s, p1) {
        Some(p2) => {
            if char_at(s, p2, '.') && p2 + 1 < s.len() && is_dec_digit_exec(s[p2 + 1]) {
                let q = scan_class(s, p2 + 1, CharClass::Dec);
                Some(q)
            } else {
                Some(p2)
            }
        },
        None => None,
    }
}

fn parse_measured_angle(s: &Vec<char>, p: usize) -> (r: Option<(Angle, usize)>)
    requires
        p <= s.len(),
    ensures
        match r {
            Some((a, q)) => measured_angle(s@, p as int) == Some((a@, q as int)) && p < q
                <= s.len(),
            None => measured_angle(s@, p as int) is None,
        },
{
    let p3 = match parse_number_end(s, p) {
        Some(q) => q,
        None => return None,
    };
    let q0 = skip_whitespace(s, p3);
    let q1 = match parse_ident(s, q0) {
        Some(q) => q,
        None => return None,
    };
    let word = chars_between(s, q0, q1);
    match unit_of(&word) {
        Some(u) => {
            let digits = chars_between(s, p, p3);
            let number = string_from_chars(digits.as_slice());
            Some((Angle::Measure { number, unit: u }, skip_whitespace(s, q1)))
        },
        None => None,
    }
}

fn parse_angle(s: &Vec<char>, p: usize) -> (r: Option<(Angle, usize)>)
    requires
        p <= s.len(),
    ensures
        match r {
            Some((a, q)) => angle(s@, p as int) == Some((a@, q as int)) && p < q <= s.len(),
            None => angle(s@, p as int) is None,
        },
{
    match parse_direction(s, p) {
        Some((d, q)) => Some((Angle::Direction(d), q)),
        None => parse_measured_angle(s, p),
    }
}

fn parse_angle_item(s: &Vec<char>, p: usize) -> (r: Option<(Angle, usize)>)
    requires
        p <= s.len(),
    ensures
        match r {
            Some((a, q)) => angle_item(s@, p as int) == Some((a@, q as int)) && p < q <= s.len(),
            None => angle_item(s@, p as int) is None,
        },
{
    let q0 = skip_whitespace(s, p);
    match parse_angle(s, q0) {
        Some((a, q1)) => {
            let q2 = skip_whitespace(s, q1);
            if char_at(s, q2, ',') {
                Some((a, q2 + 1))
            } else {
                None
            }
        },
        None => None,
    }
}

/// Reads a `linear-gradient(..)` at position `pos` of `chars`; on success
/// gives the gradient and the position after it.
pub fn linear_gradient_parser(chars: &Vec<char>, pos: usize) -> (r: Option<(LinearGradient, usize)>)
    requires
        pos <= chars.len(),
    ensures
        match r {
            Some((g, q)) => linear_gradient(chars@, pos as int) == Some((g@, q as int)) && pos < q
                <= chars.len(),
            None => linear_gradient(chars@, pos as int) is None,
        },
{
    let s = chars;
    let p = pos;
    if !(lit_at(s, p, &['l', 'i', 'n', 'e', 'a', 'r', '-', 'g', 'r', 'a', 'd', 'i', 'e', 'n', 't'])
        && char_at(s, p + 15, '(')) {
        return None;
    }
    let p1 = p + 16;
    let (a, p2) = match parse_angle_item(s, p1) {
        Some((a, q)) => (Some(a), q),
        None => (None, p1),
    };
    let (stops, p3) = parse_stops_list(s, p2);
    if char_at(s, p3, ')') {
        let g = LinearGradient { angle: a, stops };
        Some((g, p3 + 1))
    } else {
        None
    }
}

// ------------------------------------------------------------------ fills

/// The whole input as a colour, else as a linear gradient. A colour that
/// does not span the whole input makes the input no fill.
pub open spec fn fill_of(s: Seq<char>) -> Option<FillView> {
    match inner_color(s, 0) {
        Some((c, q)) => if q == s.len() {
            Some(FillView::Color(c))
        } else {
            None
        },
        None => match linear_gradient(s, 0) {
            Some((g, q)) => if q == s.len() {
                Some(FillView::LinearGradient(g))
            } else {
                None
            },
            None => None,
        },
    }
}

/// `#` and three, four, six or eight hex digits, and nothing else, is a
/// colour: with three or four digits each digit is a channel as it stands
/// (the fourth the alpha); with six or eight each pair of digits is a
/// channel (the fourth pair the alpha); alpha is 255 when not written.
pub proof fn law_hex_fill(s: Seq<char>)
    requires
        s.len() == 4 || s.len() == 5 || s.len() == 7 || s.len() == 9,
        s[0] == '#',
        forall|i: int| 1 <= i < s.len() ==> is_hex_digit(#[trigger] s[i]),
    ensures
        s.len() == 4 ==> fill_of(s) == Some(
            FillView::Color(
                argb(255, hex_value(s[1]) as u8, hex_value(s[2]) as u8, hex_value(s[3]) as u8),
            ),
        ),
        s.len() == 5 ==> fill_of(s) == Some(
            FillView::Color(
                argb(
                    hex_value(s[4]) as u8,
                    hex_value(s[1]) as u8,
                    hex_value(s[2]) as u8,
                    hex_value(s[3]) as u8,
                ),
            ),
        ),
        s.len() == 7 ==> fill_of(s) == Some(
            FillView::Color(
                argb(
                    255,
                    (hex_value(s[1]) * 16 + hex_value(s[2])) as u8,
                    (hex_value(s[3]) * 16 + hex_value(s[4])) as u8,
                    (hex_value(s[5]) * 16 + hex_value(s[6])) as u8,
                ),
            ),
        ),
        s.len() == 9 ==> fill_of(s) == Some(
            FillView::Color(
                argb(
                    (hex_value(s[7]) * 16 + hex_value(s[8])) as u8,
                    (hex_value(s[1]) * 16 + hex_value(s[2])) as u8,
                    (hex_value(s[3]) * 16 + hex_value(s[4])) as u8,
                    (hex_value(s[5]) * 16 + hex_value(s[6])) as u8,
                ),
            ),
        ),
{
    lemma_scan(s, 1, CharClass::Hex);
    let q = scan(s, 1, CharClass::Hex);
    if q < s.len() {
        assert(is_hex_digit(s[q]));
    }
    assert(q == s.len());
    assert(!is_ident_start(s[0]));
    assert(named_color(s, 0) is None);
    assert(at(s, 0, '#'));
}

/// Parses a colour or a linear gradient that spans all of `input`.
pub fn parse_fill(input: &str) -> (r: Option<Fill>)
    ensures
        match r {
            Some(f) => fill_of(input@) == Some(f@),
            None => fill_of(input@) is None,
        },
{
    let s = chars_of(input);
    match parse_inner_color(&s, 0) {
        Some((c, q)) => if q == s.len() {
            Some(Fill::Color(c))
        } else {
            None
        },
        None => match linear_gradient_parser(&s, 0) {
            Some((g, q)) => if q == s.len() {
                Some(Fill::LinearGradient(g))
            } else {
                None
            },
            None => None,
        },
    }
}

// ------------------------------------------------------ stop placement

/// Where a stop sits along a gradient.
#[derive(Clone, Copy, Debug, PartialEq, Eq)]
pub enum StopOffset {
    /// At the percentage written with it.
    Percent(u8),
    /// At `100 / last * index` percent: stops spread evenly over the line.
    Even { index: usize, last: usize },
}

#[derive(Clone, Copy, Debug, PartialEq, Eq)]
pub struct PlacedStop {
    pub color: u32,
    pub offset: StopOffset,
}

pub open spec fn all_stops_explicit(stops: Seq<GradientStop>) -> bool {
    forall|i: int| 0 <= i < stops.len() ==> (#[trigger] stops[i]).percent is Some
}

/// When every stop carries a percentage the stops sit there; otherwise all
/// of them are spread evenly, the i-th at `100 / (n - 1) * i` percent.
pub open spec fn placed(stops: Seq<GradientStop>, i: int) -> PlacedStop {
    PlacedStop {
        color: stops[i].color,
        offset: if all_stops_explicit(stops) {
            StopOffset::Percent(stops[i].percent.unwrap())
        } else {
            StopOffset::Even { index: i as usize, last: (stops.len() - 1) as usize }
        },
    }
}

/// Places the stops of a gradient.
pub fn place_stops(stops: &Vec<GradientStop>) -> (r: Vec<PlacedStop>)
    ensures
        r.len() == stops.len(),
        forall|i: int| 0 <= i < stops.len() ==> #[trigger] r@[i] == placed(stops@, i),
{
    let mut explicit = true;
    let mut i: usize = 0;
    while i < stops.len()
        invariant
            0 <= i <= stops.len(),
            explicit == forall|j: int| 0 <= j < i ==> (#[trigger] stops@[j]).percent is Some,
        decreases stops.len() - i,
    {
        if stops[i].percent.is_none() {
            explicit = false;
        }
        i = i + 1;
    }
    let mut out: Vec<PlacedStop> = Vec::new();
    let mut k: usize = 0;
    while k < stops.len()
        invariant
            0 <= k <= stops.len(),
            explicit == all_stops_explicit(stops@),
            out.len() == k,
            forall|j: int| 0 <= j < k ==> #[trigger] out@[j] == placed(stops@, j),
        decreases stops.len() - k,
    {
        let st = stops[k];
        let offset = if explicit {
            match st.percent {
                Some(v) => StopOffset::Percent(v),
                None => StopOffset::Percent(0),
            }
        } else {
            StopOffset::Even { index: k, last: stops.len() - 1 }
        };
        out.push(PlacedStop { color: st.color, offset });
        k = k + 1;
    }
    out
}

/// The colour of an embed's edge: its colour when that parses as a plain
/// colour, else `fallback`.
pub open spec fn border_colour_of(colour: Option<String>, fallback: u32) -> u32 {
    match colour {
        Some(c) => match fill_of(c@) {
            Some(FillView::Color(v)) => v,
            _ => fallback,
        },
        None => fallback,
    }
}

pub fn embed_border_colour(colour: &Option<String>, fallback: u32) -> (r: u32)
    ensures
        r == border_colour_of(*colour, fallback),
{
    match colour {
        Some(c) => match parse_fill(c.as_str()) {
            Some(Fill::Color(v)) => v,
            _ => fallback,
        },
        None => fallback,
    }
}

} // verus!
