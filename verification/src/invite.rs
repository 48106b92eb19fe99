//! The code of an invite, typed as it is or as a link.
use vstd::prelude::*;
use crate::text::{chars_of, string_of};

verus! {

/// The text after the last '/' of `s`, or all of `s` without one.
pub open spec fn after_last_slash(s: Seq<char>) -> Seq<char>
    decreases s.len(),
{
    if s.len() == 0 {
        s
    } else if s.last() == '/' {
        seq![]
    } else {
        after_last_slash(s.drop_last()).push(s.last())
    }
}

/// What follows the last '/' of a text: the longest end of it without a
/// '/', which is either all of it or starts right after a '/'.
pub proof fn law_after_last_slash(s: Seq<char>)
    ensures
        after_last_slash(s).len() <= s.len(),
        after_last_slash(s) == s.skip(s.len() - after_last_slash(s).len()),
        !after_last_slash(s).contains('/'),
        after_last_slash(s).len() < s.len() ==> s[s.len() - after_last_slash(s).len() - 1] == '/',
    decreases s.len(),
{
    if s.len() > 0 {
        let t = s.drop_last();
        law_after_last_slash(t);
        let r = after_last_slash(s);
        if s.last() == '/' {
            assert(s.skip(s.len() as int) =~= r);
        } else {
            let rt = after_last_slash(t);
            assert(r == rt.push(s.last()));
            assert(r =~= s.skip(s.len() - r.len()));
            assert forall|i: int| 0 <= i < r.len() implies r[i] != '/' by {
                if i < rt.len() {
                    assert(r[i] == rt[i]);
                    assert(!rt.contains('/'));
                    if rt[i] == '/' {
                        assert(rt.contains('/'));
                    }
                }
            }
            if r.len() < s.len() {
                assert(s[s.len() - r.len() - 1] == t[t.len() - rt.len() - 1]);
            }
        }
    }
}

/// The code to join with: when the text holds a '/' and parses as a URI,
/// the last segment of the URI's path (`path`); else the text itself.
pub open spec fn invite_code_of(text: Seq<char>, path: Option<Seq<char>>) -> Seq<char> {
    match path {
        Some(p) => if text.contains('/') {
            after_last_slash(p)
        } else {
            text
        },
        None => text,
    }
}

fn last_segment(p: &str) -> (r: String)
    ensures
        r@ == after_last_slash(p@),
{
    let v = chars_of(p);
    let mut start: usize = 0;
    let mut i: usize = 0;
    while i < v.len()
        invariant
            0 <= start <= i <= v.len(),
            v@ == p@,
            after_last_slash(v@.take(i as int)) == v@.subrange(start as int, i as int),
        decreases v.len() - i,
    {
        assert(v@.take(i + 1).drop_last() =~= v@.take(i as int));
        if v[i] == '/' {
            start = i + 1;
        }
        assert(v@.subrange(start as int, i + 1) =~= if v@[i as int] == '/' {
            Seq::<char>::empty()
        } else {
            v@.subrange(start as int, i as int).push(v@[i as int])
        });
        i = i + 1;
    }
    assert(v@.take(v.len() as int) =~= v@);
    let mut out: Vec<char> = Vec::new();
    let mut k: usize = start;
    while k < v.len()
        invariant
            start <= k <= v.len(),
            out@ == v@.subrange(start as int, k as int),
        decreases v.len() - k,
    {
        out.push(v[k]);
        assert(v@.subrange(start as int, k + 1) =~= v@.subrange(start as int, k as int).push(v@[k as int]));
        k = k + 1;
    }
    string_of(&out)
}

fn has_slash(s: &str) -> (r: bool)
    ensures
        r == s@.contains('/'),
{
    let v = chars_of(s);
    let mut i: usize = 0;
    while i < v.len()
        invariant
            0 <= i <= v.len(),
            v@ == s@,
            forall|j: int| 0 <= j < i ==> v@[j] != '/',
        decreases v.len() - i,
    {
        if v[i] == '/' {
            assert(s@[i as int] == '/');
            return true;
        }
        i = i + 1;
    }
    false
}

/// The code to join with (see `invite_code_of`); `path` is the path of the
/// text parsed as a URI, when it parses.
pub fn invite_code(text: &str, path: Option<&str>) -> (r: String)
    ensures
        r@ == invite_code_of(text@, match path {
            Some(p) => Some(p@),
            None => None,
        }),
        path is None || !text@.contains('/') ==> r@ == text@,
        (path matches Some(p) && text@.contains('/')) ==> {
            let p = path.unwrap()@;
            &&& !r@.contains('/')
            &&& r@.len() <= p.len()
            &&& r@ == p.skip(p.len() - r@.len())
            &&& r@.len() < p.len() ==> p[p.len() - r@.len() - 1] == '/'
        },
{
    proof {
        if path is Some {
            law_after_last_slash(path.unwrap()@);
        }
    }
    match path {
        Some(p) => if has_slash(text) {
            last_segment(p)
        } else {
            String::from_str(text)
        },
        None => String::from_str(text),
    }
}

} // verus!
