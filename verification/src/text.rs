//! A small verified toolkit of text operations.
//!
//! Every executable function here is pinned to a spec-level definition over
//! `Seq<char>`; the parsers build their own specifications out of these.

use vstd::prelude::*;
use vstd::string::*;

verus! {

/// Index of the first occurrence of `c` in `s` at or after `i`.
pub open spec fn find_char_from(s: Seq<char>, c: char, i: int) -> Option<int>
    decreases s.len() - i,
{
    if i < 0 || i >= s.len() {
        None
    } else if s[i] == c {
        Some(i)
    } else {
        find_char_from(s, c, i + 1)
    }
}

/// First occurrence of the character `c` in `s`.
pub fn find_char(s: &str, c: char) -> (r: Option<usize>)
    ensures
        match r {
            Some(i) => i < s@.len() && s@[i as int] == c && find_char_from(s@, c, 0) == Some(
                i as int,
            ),
            None => find_char_from(s@, c, 0) is None,
        },
{
    let n = s.unicode_len();
    let mut i: usize = 0;
    while i < n
        invariant
            n == s@.len(),
            i <= n,
            find_char_from(s@, c, 0) == find_char_from(s@, c, i as int),
        decreases n - i,
    {
        if s.get_char(i) == c {
            return Some(i);
        }
        i = i + 1;
    }
    None
}

/// Whether `s` carries the pattern `p` starting at position `i`.
pub fn match_at(s: &str, i: usize, p: &str) -> (r: bool)
    requires
        i + p@.len() <= s@.len(),
        s@.len() <= usize::MAX,
    ensures
        r == (s@.subrange(i as int, i + p@.len()) == p@),
{
    let m = p.unicode_len();
    let mut j: usize = 0;
    while j < m
        invariant
            m == p@.len(),
            j <= m,
            i + m <= s@.len(),
            s@.len() <= usize::MAX,
            forall|k: int| 0 <= k < j ==> s@[i + k] == p@[k],
        decreases m - j,
    {
        if s.get_char(i + j) != p.get_char(j) {
            proof {
                let sub = s@.subrange(i as int, i + p@.len());
                assert(sub[j as int] == s@[i + j]);
            }
            return false;
        }
        j = j + 1;
    }
    proof {
        assert(s@.subrange(i as int, i + p@.len()) =~= p@);
    }
    true
}

/// Index of the first occurrence of the (non-empty) pattern `p` in `s` at or
/// after `i`.
pub open spec fn find_sub_from(s: Seq<char>, p: Seq<char>, i: int) -> Option<int>
    decreases s.len() - i,
{
    if i < 0 || p.len() == 0 || i + p.len() > s.len() {
        None
    } else if s.subrange(i, i + p.len()) == p {
        Some(i)
    } else {
        find_sub_from(s, p, i + 1)
    }
}

/// A found occurrence lies within the text.
pub proof fn lemma_find_sub_bounds(s: Seq<char>, p: Seq<char>, i: int)
    ensures
        match find_sub_from(s, p, i) {
            Some(j) => i <= j && 0 <= j && j + p.len() <= s.len() && s.subrange(j, j + p.len())
                == p,
            None => true,
        },
    decreases s.len() - i,
{
    if i < 0 || p.len() == 0 || i + p.len() > s.len() {
    } else if s.subrange(i, i + p.len()) == p {
    } else {
        lemma_find_sub_bounds(s, p, i + 1);
    }
}

/// First occurrence of the pattern `p` in `s`.
pub fn find_sub(s: &str, p: &str) -> (r: Option<usize>)
    requires
        p@.len() >= 1,
    ensures
        match r {
            Some(i) => {
                &&& i + p@.len() <= s@.len()
                &&& s@.subrange(i as int, i + p@.len()) == p@
                &&& find_sub_from(s@, p@, 0) == Some(i as int)
            },
            None => find_sub_from(s@, p@, 0) is None,
        },
{
    let n = s.unicode_len();
    let m = p.unicode_len();
    if m > n {
        return None;
    }
    let mut i: usize = 0;
    while i <= n - m
        invariant
            n == s@.len(),
            m == p@.len(),
            1 <= m <= n,
            i <= n - m + 1,
            find_sub_from(s@, p@, 0) == find_sub_from(s@, p@, i as int),
        decreases n - i,
    {
        if match_at(s, i, p) {
            return Some(i);
        }
        i = i + 1;
    }
    None
}

/// Whether `s` and `t` hold the same text.
pub fn str_eq(s: &str, t: &str) -> (r: bool)
    ensures
        r == (s@ == t@),
{
    let n = s.unicode_len();
    if n != t.unicode_len() {
        proof {
            assert(s@ != t@);
        }
        return false;
    }
    let mut i: usize = 0;
    while i < n
        invariant
            n == s@.len(),
            n == t@.len(),
            i <= n,
            forall|k: int| 0 <= k < i ==> s@[k] == t@[k],
        decreases n - i,
    {
        if s.get_char(i) != t.get_char(i) {
            return false;
        }
        i = i + 1;
    }
    proof {
        assert(s@ =~= t@);
    }
    true
}

/// Whether the text of `s` begins with the text of `p`.
pub open spec fn starts_with_spec(s: Seq<char>, p: Seq<char>) -> bool {
    p.len() <= s.len() && s.subrange(0, p.len() as int) == p
}

/// The views of a sequence of owned strings.
pub open spec fn views(v: Seq<String>) -> Seq<Seq<char>> {
    Seq::new(v.len(), |i: int| v[i]@)
}

/// The text before and after the first occurrence of `p`.
pub open spec fn split_once_spec(s: Seq<char>, p: Seq<char>) -> Option<(Seq<char>, Seq<char>)> {
    match find_sub_from(s, p, 0) {
        Some(i) => Some((s.take(i), s.skip(i + p.len()))),
        None => None,
    }
}

pub fn split_once<'a>(s: &'a str, p: &str) -> (r: Option<(&'a str, &'a str)>)
    requires
        p@.len() >= 1,
    ensures
        match r {
            Some(pair) => split_once_spec(s@, p@) == Some((pair.0@, pair.1@)),
            None => split_once_spec(s@, p@) is None,
        },
{
    match find_sub(s, p) {
        Some(i) => {
            let n = s.unicode_len();
            let head = s.substring_char(0, i);
            let tail = s.substring_char(i + p.unicode_len(), n);
            proof {
                assert(head@ =~= s@.take(i as int));
                assert(tail@ =~= s@.skip(i + p@.len()));
            }
            Some((head, tail))
        },
        None => None,
    }
}

/// The pieces of `s` between occurrences of `p`, in order.
pub open spec fn split_spec(s: Seq<char>, p: Seq<char>) -> Seq<Seq<char>>
    decreases s.len(),
    via split_spec_dec
{
    if p.len() == 0 {
        seq![s]
    } else {
        match find_sub_from(s, p, 0) {
            Some(i) => seq![s.take(i)] + split_spec(s.skip(i + p.len()), p),
            None => seq![s],
        }
    }
}

#[via_fn]
proof fn split_spec_dec(s: Seq<char>, p: Seq<char>) {
    lemma_find_sub_bounds(s, p, 0);
}

/// Splitting yields at least one piece.
pub proof fn lemma_split_spec_len(s: Seq<char>, p: Seq<char>)
    ensures
        split_spec(s, p).len() >= 1,
{
}

pub fn split_all(s: &str, p: &str) -> (r: Vec<String>)
    requires
        p@.len() >= 1,
    ensures
        views(r@) == split_spec(s@, p@),
{
    let mut out: Vec<String> = Vec::new();
    let mut rest: &str = s;
    loop
        invariant
            p@.len() >= 1,
            split_spec(s@, p@) == views(out@) + split_spec(rest@, p@),
        decreases rest@.len(),
    {
        let ghost old_out = out@;
        let ghost old_rest = rest@;
        match find_sub(rest, p) {
            Some(i) => {
                let n = rest.unicode_len();
                let piece = rest.substring_char(0, i);
                out.push(String::from_str(piece));
                rest = rest.substring_char(i + p.unicode_len(), n);
                proof {
                    assert(rest@ =~= old_rest.skip(i + p@.len()));
                    assert(views(out@) =~= views(old_out).push(old_rest.take(i as int)));
                    assert(split_spec(old_rest, p@) == seq![old_rest.take(i as int)] + split_spec(
                        rest@,
                        p@,
                    ));
                    assert(views(old_out) + split_spec(old_rest, p@) =~= views(out@) + split_spec(
                        rest@,
                        p@,
                    ));
                }
            },
            None => {
                out.push(String::from_str(rest));
                proof {
                    assert(split_spec(old_rest, p@) == seq![old_rest]);
                    assert(views(out@) =~= views(old_out).push(old_rest));
                    assert(views(out@) =~= views(old_out) + split_spec(old_rest, p@));
                }
                return out;
            },
        }
    }
}

/// Like `split_spec`, except that one trailing empty piece is dropped.
pub open spec fn split_terminator_spec(s: Seq<char>, p: Seq<char>) -> Seq<Seq<char>> {
    let r = split_spec(s, p);
    if r.len() > 0 && r.last().len() == 0 {
        r.drop_last()
    } else {
        r
    }
}

pub fn split_terminator_all(s: &str, p: &str) -> (r: Vec<String>)
    requires
        p@.len() >= 1,
    ensures
        views(r@) == split_terminator_spec(s@, p@),
{
    let mut v = split_all(s, p);
    proof {
        assert(split_spec(s@, p@).len() >= 1);
    }
    let ghost whole = v@;
    if v.len() > 0 && v[v.len() - 1].as_str().is_empty() {
        let _ = v.pop();
        proof {
            assert(views(v@) =~= views(whole).drop_last());
        }
    }
    v
}

/// The pieces of `s`, each keeping its terminating occurrence of `p`; an
/// un-terminated tail is kept as well, and an empty input has no pieces.
pub open spec fn split_inclusive_spec(s: Seq<char>, p: Seq<char>) -> Seq<Seq<char>>
    decreases s.len(),
    via split_inclusive_spec_dec
{
    if p.len() == 0 {
        seq![s]
    } else if s.len() == 0 {
        Seq::empty()
    } else {
        match find_sub_from(s, p, 0) {
            Some(i) => seq![s.take(i + p.len())] + split_inclusive_spec(s.skip(i + p.len()), p),
            None => seq![s],
        }
    }
}

#[via_fn]
proof fn split_inclusive_spec_dec(s: Seq<char>, p: Seq<char>) {
    lemma_find_sub_bounds(s, p, 0);
}

pub fn split_inclusive_all(s: &str, p: &str) -> (r: Vec<String>)
    requires
        p@.len() >= 1,
    ensures
        views(r@) == split_inclusive_spec(s@, p@),
{
    let mut out: Vec<String> = Vec::new();
    let mut rest: &str = s;
    loop
        invariant
            p@.len() >= 1,
            split_inclusive_spec(s@, p@) == views(out@) + split_inclusive_spec(rest@, p@),
        decreases rest@.len(),
    {
        let ghost old_out = out@;
        let ghost old_rest = rest@;
        if rest.is_empty() {
            proof {
                assert(views(out@) =~= views(out@) + split_inclusive_spec(old_rest, p@));
            }
            return out;
        }
        match find_sub(rest, p) {
            Some(i) => {
                let n = rest.unicode_len();
                let piece = rest.substring_char(0, i + p.unicode_len());
                out.push(String::from_str(piece));
                rest = rest.substring_char(i + p.unicode_len(), n);
                proof {
                    assert(rest@ =~= old_rest.skip(i + p@.len()));
                    assert(views(out@) =~= views(old_out).push(old_rest.take(i + p@.len())));
                    assert(split_inclusive_spec(old_rest, p@) == seq![
                        old_rest.take(i + p@.len()),
                    ] + split_inclusive_spec(rest@, p@));
                    assert(views(old_out) + split_inclusive_spec(old_rest, p@) =~= views(out@)
                        + split_inclusive_spec(rest@, p@));
                }
            },
            None => {
                out.push(String::from_str(rest));
                proof {
                    assert(split_inclusive_spec(old_rest, p@) == seq![old_rest]);
                    assert(views(out@) =~= views(old_out).push(old_rest));
                    assert(views(out@) =~= views(old_out) + split_inclusive_spec(old_rest, p@));
                }
                return out;
            },
        }
    }
}

/// The characters stripped from the ends of text by `trim_set`.
pub open spec fn trim_start_set(s: Seq<char>, set: Seq<char>) -> Seq<char>
    decreases s.len(),
{
    if s.len() > 0 && set.contains(s[0]) {
        trim_start_set(s.skip(1), set)
    } else {
        s
    }
}

pub open spec fn trim_end_set(s: Seq<char>, set: Seq<char>) -> Seq<char>
    decreases s.len(),
{
    if s.len() > 0 && set.contains(s.last()) {
        trim_end_set(s.drop_last(), set)
    } else {
        s
    }
}

pub open spec fn trim_set_spec(s: Seq<char>, set: Seq<char>) -> Seq<char> {
    trim_end_set(trim_start_set(s, set), set)
}

proof fn lemma_trim_start_set_le(s: Seq<char>, set: Seq<char>)
    ensures
        trim_start_set(s, set).len() <= s.len(),
    decreases s.len(),
{
    if s.len() > 0 && set.contains(s[0]) {
        lemma_trim_start_set_le(s.skip(1), set);
    }
}

proof fn lemma_trim_end_set_le(s: Seq<char>, set: Seq<char>)
    ensures
        trim_end_set(s, set).len() <= s.len(),
    decreases s.len(),
{
    if s.len() > 0 && set.contains(s.last()) {
        lemma_trim_end_set_le(s.drop_last(), set);
    }
}

/// Trimming never lengthens text.
pub proof fn lemma_trim_set_le(s: Seq<char>, set: Seq<char>)
    ensures
        trim_set_spec(s, set).len() <= s.len(),
{
    lemma_trim_start_set_le(s, set);
    lemma_trim_end_set_le(trim_start_set(s, set), set);
}

/// The whitespace characters that the source dialect uses.
pub open spec fn ws_chars() -> Seq<char> {
    " \n\t\r"@
}

/// Text with the leading and trailing whitespace removed.
pub open spec fn trim_spec(s: Seq<char>) -> Seq<char> {
    trim_set_spec(s, ws_chars())
}

fn set_has(set: &str, c: char) -> (r: bool)
    ensures
        r == set@.contains(c),
{
    let n = set.unicode_len();
    let mut i: usize = 0;
    while i < n
        invariant
            n == set@.len(),
            i <= n,
            forall|k: int| 0 <= k < i ==> set@[k] != c,
        decreases n - i,
    {
        if set.get_char(i) == c {
            return true;
        }
        i = i + 1;
    }
    false
}

proof fn lemma_trim_start_set(s: Seq<char>, set: Seq<char>, a: int)
    requires
        0 <= a <= s.len(),
        forall|k: int| 0 <= k < a ==> set.contains(s[k]),
        a == s.len() || !set.contains(s[a]),
    ensures
        trim_start_set(s, set) == s.skip(a),
    decreases a,
{
    if a == 0 {
        assert(s.skip(0) =~= s);
    } else {
        lemma_trim_start_set(s.skip(1), set, a - 1);
        assert(s.skip(1).skip(a - 1) =~= s.skip(a));
    }
}

proof fn lemma_trim_end_set(s: Seq<char>, set: Seq<char>, b: int)
    requires
        0 <= b <= s.len(),
        forall|k: int| b <= k < s.len() ==> set.contains(s[k]),
        b == 0 || !set.contains(s[b - 1]),
    ensures
        trim_end_set(s, set) == s.take(b),
    decreases s.len(),
{
    if b == s.len() {
        assert(s.take(b) =~= s);
    } else {
        lemma_trim_end_set(s.drop_last(), set, b);
        assert(s.drop_last().take(b) =~= s.take(b));
    }
}

/// `s` with the characters of `set` stripped from both ends.
pub fn trim_set_str<'a>(s: &'a str, set: &str) -> (r: &'a str)
    ensures
        r@ == trim_set_spec(s@, set@),
{
    let n = s.unicode_len();
    let mut a: usize = 0;
    while a < n && set_has(set, s.get_char(a))
        invariant
            n == s@.len(),
            a <= n,
            forall|k: int| 0 <= k < a ==> set@.contains(s@[k]),
        decreases n - a,
    {
        a = a + 1;
    }
    let t = s.substring_char(a, n);
    proof {
        lemma_trim_start_set(s@, set@, a as int);
        assert(t@ =~= s@.skip(a as int));
    }
    let m = t.unicode_len();
    let mut b: usize = m;
    while b > 0 && set_has(set, t.get_char(b - 1))
        invariant
            m == t@.len(),
            b <= m,
            forall|k: int| b <= k < m ==> set@.contains(t@[k]),
        decreases b,
    {
        b = b - 1;
    }
    let r = t.substring_char(0, b);
    proof {
        lemma_trim_end_set(t@, set@, b as int);
        assert(r@ =~= t@.take(b as int));
    }
    r
}

/// `s` with the leading and trailing whitespace removed.
pub fn trim<'a>(s: &'a str) -> (r: &'a str)
    ensures
        r@ == trim_spec(s@),
{
    trim_set_str(s, " \n\t\r")
}

/// Text with every occurrence of the suffix `p` removed from its end.
pub open spec fn trim_end_matches_spec(s: Seq<char>, p: Seq<char>) -> Seq<char>
    decreases s.len(),
{
    if p.len() == 0 {
        s
    } else if p.len() <= s.len() && s.subrange(s.len() - p.len(), s.len() as int) == p {
        trim_end_matches_spec(s.take(s.len() - p.len()), p)
    } else {
        s
    }
}

pub fn trim_end_matches<'a>(s: &'a str, p: &str) -> (r: &'a str)
    requires
        p@.len() >= 1,
    ensures
        r@ == trim_end_matches_spec(s@, p@),
{
    let mut cur: &str = s;
    let m = p.unicode_len();
    loop
        invariant
            m == p@.len(),
            m >= 1,
            trim_end_matches_spec(s@, p@) == trim_end_matches_spec(cur@, p@),
        decreases cur@.len(),
    {
        let n = cur.unicode_len();
        let ghost old_cur = cur@;
        if m <= n && match_at(cur, n - m, p) {
            cur = cur.substring_char(0, n - m);
            proof {
                assert(cur@ =~= old_cur.take(old_cur.len() - p@.len()));
            }
        } else {
            return cur;
        }
    }
}

/// Text with every occurrence of the prefix `p` removed from its start.
pub open spec fn trim_start_matches_spec(s: Seq<char>, p: Seq<char>) -> Seq<char>
    decreases s.len(),
{
    if p.len() == 0 {
        s
    } else if starts_with_spec(s, p) {
        trim_start_matches_spec(s.skip(p.len() as int), p)
    } else {
        s
    }
}

pub fn trim_start_matches<'a>(s: &'a str, p: &str) -> (r: &'a str)
    requires
        p@.len() >= 1,
    ensures
        r@ == trim_start_matches_spec(s@, p@),
{
    let mut cur: &str = s;
    let m = p.unicode_len();
    loop
        invariant
            m == p@.len(),
            m >= 1,
            trim_start_matches_spec(s@, p@) == trim_start_matches_spec(cur@, p@),
        decreases cur@.len(),
    {
        let n = cur.unicode_len();
        let ghost old_cur = cur@;
        if m <= n && match_at(cur, 0, p) {
            cur = cur.substring_char(m, n);
            proof {
                assert(cur@ =~= old_cur.skip(p@.len() as int));
            }
        } else {
            return cur;
        }
    }
}

/// Every (non-overlapping, leftmost-first) occurrence of `pat` replaced by
/// `rep`.
pub open spec fn replace_spec(s: Seq<char>, pat: Seq<char>, rep: Seq<char>) -> Seq<char>
    decreases s.len(),
{
    if pat.len() == 0 || s.len() < pat.len() {
        s
    } else if s.take(pat.len() as int) == pat {
        rep + replace_spec(s.skip(pat.len() as int), pat, rep)
    } else {
        seq![s[0]] + replace_spec(s.skip(1), pat, rep)
    }
}

pub fn replace_all(s: &str, pat: &str, rep: &str) -> (r: String)
    requires
        pat@.len() >= 1,
    ensures
        r@ == replace_spec(s@, pat@, rep@),
{
    let n = s.unicode_len();
    let m = pat.unicode_len();
    let mut out = String::new();
    let mut i: usize = 0;
    proof {
        assert(s@.skip(0) =~= s@);
        assert(out@ + replace_spec(s@, pat@, rep@) =~= replace_spec(s@, pat@, rep@));
    }
    while i < n
        invariant
            n == s@.len(),
            m == pat@.len(),
            m >= 1,
            i <= n,
            replace_spec(s@, pat@, rep@) == out@ + replace_spec(s@.skip(i as int), pat@, rep@),
        decreases n - i,
    {
        let ghost old_out = out@;
        let ghost tail = s@.skip(i as int);
        if m <= n - i && match_at(s, i, pat) {
            out.append(rep);
            proof {
                assert(tail.take(pat@.len() as int) =~= s@.subrange(i as int, i + pat@.len()));
                assert(tail.skip(pat@.len() as int) =~= s@.skip(i + m));
                assert(replace_spec(tail, pat@, rep@) == rep@ + replace_spec(
                    s@.skip(i + m),
                    pat@,
                    rep@,
                ));
            }
            i = i + m;
        } else {
            let c = s.substring_char(i, i + 1);
            out.append(c);
            proof {
                assert(c@ =~= seq![tail[0]]);
                assert(tail.skip(1) =~= s@.skip(i + 1));
                if m <= n - i {
                    assert(tail.take(pat@.len() as int) =~= s@.subrange(i as int, i + pat@.len()));
                    assert(replace_spec(tail, pat@, rep@) == seq![tail[0]] + replace_spec(
                        s@.skip(i + 1),
                        pat@,
                        rep@,
                    ));
                } else {
                    assert(replace_spec(tail, pat@, rep@) == tail);
                    assert(replace_spec(s@.skip(i + 1), pat@, rep@) == s@.skip(i + 1));
                    assert(tail =~= seq![tail[0]] + s@.skip(i + 1));
                }
            }
            i = i + 1;
        }
    }
    proof {
        assert(s@.skip(n as int) =~= Seq::<char>::empty());
        assert(replace_spec(s@.skip(n as int), pat@, rep@) == Seq::<char>::empty());
        assert(replace_spec(s@, pat@, rep@) =~= out@);
    }
    out
}

/// The concatenation of two pieces of text.
pub fn concat2(a: &str, b: &str) -> (r: String)
    ensures
        r@ == a@ + b@,
{
    let owned = String::from_str(a);
    owned.concat(b)
}

} // verus!
