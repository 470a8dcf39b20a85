//! Text handling for console commands: whitespace trimming, prefixes, and the
//! final component of a path.

use vstd::prelude::*;

verus! {

/// Characters with the Unicode `White_Space` property.
pub open spec fn is_whitespace(c: char) -> bool {
    ('\t' <= c && c <= '\r') || c == ' ' || c == '\u{85}' || c == '\u{a0}' || c == '\u{1680}'
        || ('\u{2000}' <= c && c <= '\u{200a}') || c == '\u{2028}' || c == '\u{2029}'
        || c == '\u{202f}' || c == '\u{205f}' || c == '\u{3000}'
}

/// `s` without its leading whitespace.
pub open spec fn trim_start(s: Seq<char>) -> Seq<char>
    decreases s.len(),
{
    if s.len() > 0 && is_whitespace(s[0]) {
        trim_start(s.drop_first())
    } else {
        s
    }
}

/// `s` without its trailing whitespace.
pub open spec fn trim_end(s: Seq<char>) -> Seq<char>
    decreases s.len(),
{
    if s.len() > 0 && is_whitespace(s.last()) {
        trim_end(s.drop_last())
    } else {
        s
    }
}

/// `s` without leading or trailing whitespace.
pub open spec fn trim(s: Seq<char>) -> Seq<char> {
    trim_end(trim_start(s))
}

/// Whether `s` begins with `p`.
pub open spec fn has_prefix(s: Seq<char>, p: Seq<char>) -> bool {
    p.len() <= s.len() && s.take(p.len() as int) == p
}

/// The characters after the last `/` of `s` (all of `s` if it has none).
pub open spec fn trailing_segment(s: Seq<char>) -> Seq<char>
    decreases s.len(),
{
    if s.len() == 0 || s.last() == '/' {
        Seq::empty()
    } else {
        trailing_segment(s.drop_last()).push(s.last())
    }
}

/// The path component `.`.
pub open spec fn is_dot(seg: Seq<char>) -> bool {
    seg == seq!['.']
}

/// The path component `..`.
pub open spec fn is_dot_dot(seg: Seq<char>) -> bool {
    seg == seq!['.', '.']
}

/// The final component of a path: empty components and `.` are skipped from
/// the end; a final `..`, or no component at all, gives `None`.
pub open spec fn file_name(s: Seq<char>) -> Option<Seq<char>>
    decreases s.len(),
{
    let seg = trailing_segment(s);
    if seg.len() == 0 || is_dot(seg) {
        if seg.len() >= s.len() {
            None
        } else {
            file_name(s.take(s.len() - seg.len() - 1))
        }
    } else if is_dot_dot(seg) {
        None
    } else {
        Some(seg)
    }
}

/// Whether `c` is whitespace in the sense of `is_whitespace`.
pub fn is_whitespace_char(c: char) -> (r: bool)
    ensures
        r == is_whitespace(c),
{
    ('\t' <= c && c <= '\r') || c == ' ' || c == '\u{85}' || c == '\u{a0}' || c == '\u{1680}'
        || ('\u{2000}' <= c && c <= '\u{200a}') || c == '\u{2028}' || c == '\u{2029}'
        || c == '\u{202f}' || c == '\u{205f}' || c == '\u{3000}'
}

/// `s` without leading or trailing whitespace.
pub fn trim_text(s: &str) -> (r: &str)
    ensures
        r@ == trim(s@),
{
    let n: usize = s.unicode_len();
    let mut i: usize = 0;
    assert(s@.skip(0) =~= s@);
    while i < n && is_whitespace_char(s.get_char(i))
        invariant
            i <= n,
            n == s@.len(),
            trim_start(s@) == trim_start(s@.skip(i as int)),
        decreases n - i,
    {
        assert(s@.skip(i as int).drop_first() =~= s@.skip(i + 1));
        i = i + 1;
    }
    let ghost rest: Seq<char> = s@.skip(i as int);
    assert(trim_start(s@) == rest) by {
        if i == n {
            assert(rest.len() == 0);
        }
    }
    assert(rest =~= s@.subrange(i as int, n as int));
    let mut j: usize = n;
    while j > i && is_whitespace_char(s.get_char(j - 1))
        invariant
            i <= j <= n,
            n == s@.len(),
            trim(s@) == trim_end(s@.subrange(i as int, j as int)),
        decreases j,
    {
        assert(s@.subrange(i as int, j as int).drop_last() =~= s@.subrange(i as int, j - 1));
        j = j - 1;
    }
    s.substring_char(i, j)
}

/// Whether `s` begins with `p`.
pub fn starts_with_text(s: &str, p: &str) -> (r: bool)
    ensures
        r == has_prefix(s@, p@),
{
    let n: usize = s.unicode_len();
    let m: usize = p.unicode_len();
    if m > n {
        return false;
    }
    let mut i: usize = 0;
    while i < m
        invariant
            i <= m <= n,
            n == s@.len(),
            m == p@.len(),
            s@.take(i as int) == p@.take(i as int),
        decreases m - i,
    {
        if s.get_char(i) != p.get_char(i) {
            assert(s@.take(m as int)[i as int] != p@[i as int]);
            return false;
        }
        assert(s@.take(i + 1) =~= s@.take(i as int).push(s@[i as int]));
        assert(p@.take(i + 1) =~= p@.take(i as int).push(p@[i as int]));
        i = i + 1;
    }
    assert(p@.take(m as int) =~= p@);
    true
}

/// Whether `s` and `t` hold the same characters.
pub fn equals_text(s: &str, t: &str) -> (r: bool)
    ensures
        r == (s@ == t@),
{
    if s.unicode_len() != t.unicode_len() {
        return false;
    }
    let r: bool = starts_with_text(s, t);
    assert(s@.take(t@.len() as int) =~= s@);
    r
}

/// The final component of the path `s`, as character positions `(start, end)`
/// in `s`.
pub fn file_name_range(s: &str) -> (r: Option<(usize, usize)>)
    ensures
        match r {
            Some((a, b)) => a <= b <= s@.len() && file_name(s@) == Some(s@.subrange(a as int, b as int)),
            None => file_name(s@) is None,
        },
{
    let n: usize = s.unicode_len();
    let mut end: usize = n;
    assert(s@.take(n as int) =~= s@);
    loop
        invariant
            end <= n,
            n == s@.len(),
            file_name(s@) == file_name(s@.take(end as int)),
        decreases end,
    {
        let ghost t: Seq<char> = s@.take(end as int);
        let mut j: usize = end;
        while j > 0 && s.get_char(j - 1) != '/'
            invariant
                j <= end <= n,
                n == s@.len(),
                t == s@.take(end as int),
                trailing_segment(t) == trailing_segment(s@.take(j as int)) + s@.subrange(j as int, end as int),
            decreases j,
        {
            assert(s@.take(j as int).drop_last() =~= s@.take(j - 1));
            assert(s@.subrange(j - 1, end as int) =~= seq![s@[j - 1]] + s@.subrange(j as int, end as int));
            assert(trailing_segment(s@.take(j - 1)).push(s@[j - 1]) + s@.subrange(j as int, end as int)
                =~= trailing_segment(s@.take(j - 1)) + s@.subrange(j - 1, end as int));
            j = j - 1;
        }
        let ghost seg: Seq<char> = s@.subrange(j as int, end as int);
        assert(trailing_segment(s@.take(j as int)) =~= Seq::<char>::empty());
        assert(trailing_segment(t) =~= seg);
        let len: usize = end - j;
        let dot: bool = len == 1 && s.get_char(j) == '.';
        assert(seg.len() == len);
        assert(dot == is_dot(seg)) by {
            if len == 1 {
                assert(seg[0] == s@[j as int]);
                if seg =~= seq!['.'] {
                } else {
                    assert(seg[0] != '.');
                }
            }
        }
        if len == 0 || dot {
            if j == 0 {
                return None;
            }
            assert(t.take(t.len() - seg.len() - 1) =~= s@.take(j - 1));
            end = j - 1;
        } else {
            let dot_dot: bool = len == 2 && s.get_char(j) == '.' && s.get_char(j + 1) == '.';
            assert(dot_dot == is_dot_dot(seg)) by {
                if len == 2 {
                    assert(seg[0] == s@[j as int] && seg[1] == s@[j + 1]);
                    if seg =~= seq!['.', '.'] {
                    } else {
                        assert(seg[0] != '.' || seg[1] != '.');
                    }
                }
            }
            if dot_dot {
                return None;
            }
            return Some((j, end));
        }
    }
}

} // verus!
