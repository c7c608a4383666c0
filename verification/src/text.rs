//! Character-level text helpers shared by the message and utility modules.

use vstd::prelude::*;
use vstd::std_specs::iter::IteratorSpec;

verus! {

/// Relies on `String::push`: appends one character at the end.
#[verifier::external_body]
pub fn push_char(s: &mut String, c: char)
    ensures
        final(s)@ == old(s)@.push(c),
{
    s.push(c);
}

/// The characters of `s`, in order.
pub fn str_chars(s: &str) -> (r: Vec<char>)
    ensures
        r@ == s@,
{
    let mut it = s.chars();
    let mut out: Vec<char> = Vec::new();
    loop
        invariant
            it.obeys_prophetic_iter_laws(),
            it.decrease() is Some,
            out@ + it.remaining() == s@,
        ensures
            out@ == s@,
        decreases it.decrease()->0,
    {
        match it.next() {
            Some(c) => {
                out.push(c);
                proof {
                    assert(out@ + it.remaining() =~= s@);
                }
            },
            None => {
                proof {
                    assert(it.remaining().len() == 0);
                    assert(out@ + it.remaining() =~= out@);
                    assert(out@ + it.remaining() == s@);
                    assert(out@ =~= s@);
                }
                break ;
            },
        }
    }
    proof {
        assert(out@ =~= s@);
    }
    out
}

/// The string made of exactly these characters.
pub fn chars_string(v: &Vec<char>) -> (r: String)
    ensures
        r@ == v@,
{
    let mut s = String::new();
    let n = v.len();
    let mut i: usize = 0;
    proof {
        assert(s@ =~= v@.subrange(0, 0));
    }
    while i < n
        invariant
            n == v@.len(),
            i <= n,
            s@ == v@.subrange(0, i as int),
        decreases n - i,
    {
        push_char(&mut s, v[i]);
        proof {
            assert(s@ =~= v@.subrange(0, i + 1));
        }
        i = i + 1;
    }
    proof {
        assert(v@.subrange(0, n as int) =~= v@);
    }
    s
}

/// A decimal digit.
pub open spec fn is_digit(c: char) -> bool {
    '0' <= c && c <= '9'
}

/// `pat` occurs in `s` starting at `i`.
pub open spec fn is_match_at(s: Seq<char>, pat: Seq<char>, i: int) -> bool {
    0 <= i && i + pat.len() <= s.len() && s.subrange(i, i + pat.len()) == pat
}

/// `pat` occurs somewhere in `s`.
pub open spec fn contains_seq(s: Seq<char>, pat: Seq<char>) -> bool {
    exists|i: int| is_match_at(s, pat, i)
}

/// `pat` occurs in `hay` starting at `i`.
pub fn match_at(hay: &Vec<char>, pat: &Vec<char>, i: usize) -> (r: bool)
    requires
        i <= hay@.len(),
    ensures
        r == is_match_at(hay@, pat@, i as int),
{
    let m = pat.len();
    if m > hay.len() - i {
        proof {
            assert(!is_match_at(hay@, pat@, i as int));
        }
        return false;
    }
    let mut j: usize = 0;
    while j < m
        invariant
            m == pat@.len(),
            i + m <= hay@.len(),
            hay@.len() <= usize::MAX,
            j <= m,
            forall|d: int| 0 <= d < j ==> hay@[i + d] == pat@[d],
        decreases m - j,
    {
        if hay[i + j] != pat[j] {
            proof {
                assert(hay@.subrange(i as int, i + m) != pat@) by {
                    assert(hay@.subrange(i as int, i + m)[j as int] == hay@[i + j]);
                }
            }
            return false;
        }
        j = j + 1;
    }
    proof {
        assert(hay@.subrange(i as int, i + m) =~= pat@);
    }
    true
}

/// `pat` occurs somewhere in `hay`.
pub fn contains_chars(hay: &Vec<char>, pat: &Vec<char>) -> (r: bool)
    ensures
        r == contains_seq(hay@, pat@),
{
    let n = hay.len();
    if match_at(hay, pat, 0) {
        return true;
    }
    let mut i: usize = 1;
    while i < n
        invariant
            n == hay@.len(),
            1 <= i,
            i <= n || i == 1,
            forall|d: int| 0 <= d < i ==> !is_match_at(hay@, pat@, d),
        decreases n - i,
    {
        if match_at(hay, pat, i) {
            return true;
        }
        i = i + 1;
    }
    proof {
        assert forall|d: int| !is_match_at(hay@, pat@, d) by {
            if is_match_at(hay@, pat@, d) {
                if pat@.len() == 0 {
                    assert(hay@.subrange(0, 0) =~= pat@);
                    assert(is_match_at(hay@, pat@, 0));
                    assert(false);
                }
                if d >= i {
                    assert(d + pat@.len() <= n);
                    assert(false);
                }
            }
        }
    }
    false
}

/// `pat` occurs somewhere in `hay`.
pub fn str_contains(hay: &str, pat: &str) -> (r: bool)
    ensures
        r == contains_seq(hay@, pat@),
{
    let h = str_chars(hay);
    let p = str_chars(pat);
    contains_chars(&h, &p)
}

/// `s` with every occurrence of `pat` removed, leftmost first and without
/// overlap, the way a replace-with-empty scans; an empty pattern removes
/// nothing.
pub open spec fn remove_occ(s: Seq<char>, pat: Seq<char>) -> Seq<char>
    decreases s.len(),
{
    if pat.len() == 0 || s.len() == 0 {
        s
    } else if is_match_at(s, pat, 0) {
        remove_occ(s.skip(pat.len() as int), pat)
    } else {
        s.subrange(0, 1) + remove_occ(s.skip(1), pat)
    }
}

/// `hay` with every occurrence of `pat` removed, leftmost first.
pub fn remove_occurrences(hay: &Vec<char>, pat: &Vec<char>) -> (r: Vec<char>)
    requires
        pat@.len() > 0,
    ensures
        r@ == remove_occ(hay@, pat@),
{
    let n = hay.len();
    let m = pat.len();
    let mut out: Vec<char> = Vec::new();
    let mut i: usize = 0;
    proof {
        assert(hay@.skip(0) =~= hay@);
        assert(out@ + remove_occ(hay@, pat@) =~= remove_occ(hay@, pat@));
    }
    while i < n
        invariant
            n == hay@.len(),
            m == pat@.len(),
            m > 0,
            i <= n,
            remove_occ(hay@, pat@) == out@ + remove_occ(hay@.skip(i as int), pat@),
        decreases n - i,
    {
        let ghost pre = out@;
        if match_at(hay, pat, i) {
            proof {
                assert(is_match_at(hay@.skip(i as int), pat@, 0)) by {
                    assert(hay@.skip(i as int).subrange(0, m as int) =~= hay@.subrange(
                        i as int,
                        i + m,
                    ));
                }
                assert(hay@.skip(i as int).skip(m as int) =~= hay@.skip(i + m));
            }
            i = i + m;
        } else {
            out.push(hay[i]);
            proof {
                assert(!is_match_at(hay@.skip(i as int), pat@, 0)) by {
                    if is_match_at(hay@.skip(i as int), pat@, 0) {
                        assert(hay@.subrange(i as int, i + m) =~= hay@.skip(i as int).subrange(
                            0,
                            m as int,
                        ));
                    }
                }
                assert(hay@.skip(i as int).subrange(0, 1) =~= seq![hay@[i as int]]);
                assert(hay@.skip(i as int).skip(1) =~= hay@.skip(i + 1));
                assert(out@ =~= pre + seq![hay@[i as int]]);
                assert(out@ + remove_occ(hay@.skip(i + 1), pat@) =~= pre + (hay@.skip(
                    i as int,
                ).subrange(0, 1) + remove_occ(hay@.skip(i as int).skip(1), pat@)));
            }
            i = i + 1;
        }
    }
    proof {
        assert(hay@.skip(n as int) =~= Seq::<char>::empty());
        assert(out@ =~= out@ + remove_occ(hay@.skip(n as int), pat@));
    }
    out
}

/// The characters Rust's `trim` drops: the Unicode white-space set.
pub open spec fn is_space(c: char) -> bool {
    c == ' ' || c == '\t' || c == '\n' || c == '\u{0B}' || c == '\u{0C}' || c == '\r' || c
        == '\u{85}' || c == '\u{A0}' || c == '\u{1680}' || ('\u{2000}' <= c && c <= '\u{200A}') || c
        == '\u{2028}' || c == '\u{2029}' || c == '\u{202F}' || c == '\u{205F}' || c == '\u{3000}'
}

fn is_space_char(c: char) -> (r: bool)
    ensures
        r == is_space(c),
{
    c == ' ' || c == '\t' || c == '\n' || c == '\u{0B}' || c == '\u{0C}' || c == '\r' || c
        == '\u{85}' || c == '\u{A0}' || c == '\u{1680}' || ('\u{2000}' <= c && c <= '\u{200A}') || c
        == '\u{2028}' || c == '\u{2029}' || c == '\u{202F}' || c == '\u{205F}' || c == '\u{3000}'
}

/// `s` without leading white space.
pub open spec fn trim_start_spec(s: Seq<char>) -> Seq<char>
    decreases s.len(),
{
    if s.len() > 0 && is_space(s[0]) {
        trim_start_spec(s.skip(1))
    } else {
        s
    }
}

/// `s` without trailing white space.
pub open spec fn trim_end_spec(s: Seq<char>) -> Seq<char>
    decreases s.len(),
{
    if s.len() > 0 && is_space(s[s.len() - 1]) {
        trim_end_spec(s.drop_last())
    } else {
        s
    }
}

/// `s` without leading or trailing white space.
pub open spec fn trim_spec(s: Seq<char>) -> Seq<char> {
    trim_end_spec(trim_start_spec(s))
}

/// `v` without leading or trailing white space.
pub fn trim_chars(v: &Vec<char>) -> (r: Vec<char>)
    ensures
        r@ == trim_spec(v@),
{
    let n = v.len();
    let mut start: usize = 0;
    proof {
        assert(v@.skip(0) =~= v@);
    }
    while start < n && is_space_char(v[start])
        invariant
            n == v@.len(),
            start <= n,
            trim_start_spec(v@) == trim_start_spec(v@.skip(start as int)),
        decreases n - start,
    {
        proof {
            assert(v@.skip(start as int).skip(1) =~= v@.skip(start + 1));
        }
        start = start + 1;
    }
    let ghost t1 = v@.skip(start as int);
    proof {
        assert(trim_start_spec(v@) == t1);
    }
    let mut end: usize = n;
    proof {
        assert(t1 =~= v@.subrange(start as int, n as int));
    }
    while end > start && is_space_char(v[end - 1])
        invariant
            n == v@.len(),
            start <= end <= n,
            t1 == v@.skip(start as int),
            trim_end_spec(t1) == trim_end_spec(v@.subrange(start as int, end as int)),
        decreases end,
    {
        proof {
            assert(v@.subrange(start as int, end as int).drop_last() =~= v@.subrange(
                start as int,
                end - 1,
            ));
            assert(t1.subrange(0, end - start) =~= v@.subrange(start as int, end as int));
        }
        end = end - 1;
    }
    proof {
        assert(t1 =~= v@.subrange(start as int, n as int));
        assert(trim_end_spec(v@.subrange(start as int, end as int)) == v@.subrange(
            start as int,
            end as int,
        ));
    }
    let mut out: Vec<char> = Vec::new();
    let mut i: usize = start;
    while i < end
        invariant
            start <= i <= end <= n,
            n == v@.len(),
            out@ =~= v@.subrange(start as int, i as int),
        decreases end - i,
    {
        out.push(v[i]);
        proof {
            assert(out@ =~= v@.subrange(start as int, i + 1));
        }
        i = i + 1;
    }
    out
}

} // verus!
