use vstd::prelude::*;

verus! {

use vstd::string::StrSliceExecFns;
use vstd::string::StringExecFns;

/// Characters stripped from the ends of parsed tokens.
pub open spec fn is_space(c: char) -> bool {
    c == ' ' || c == '\t' || c == '\n' || c == '\r'
}

/// Executable twin of `is_space`.
pub fn is_space_char(c: char) -> (r: bool)
    ensures
        r == is_space(c),
{
    c == ' ' || c == '\t' || c == '\n' || c == '\r'
}

pub open spec fn trim_start_spec(s: Seq<char>) -> Seq<char>
    decreases s.len(),
{
    if s.len() == 0 {
        s
    } else if is_space(s[0]) {
        trim_start_spec(s.skip(1))
    } else {
        s
    }
}

pub open spec fn trim_end_spec(s: Seq<char>) -> Seq<char>
    decreases s.len(),
{
    if s.len() == 0 {
        s
    } else if is_space(s[s.len() - 1]) {
        trim_end_spec(s.take(s.len() - 1))
    } else {
        s
    }
}

/// The token with leading and trailing whitespace removed.
pub open spec fn trim_spec(s: Seq<char>) -> Seq<char> {
    trim_end_spec(trim_start_spec(s))
}

proof fn lemma_trim_start_skip(s: Seq<char>, a: int)
    requires
        0 <= a <= s.len(),
        forall|j: int| 0 <= j < a ==> is_space(s[j]),
    ensures
        trim_start_spec(s) == trim_start_spec(s.skip(a)),
    decreases a,
{
    if a > 0 {
        assert(s.skip(1).skip(a - 1) =~= s.skip(a));
        lemma_trim_start_skip(s.skip(1), a - 1);
    } else {
        assert(s.skip(0) =~= s);
    }
}

proof fn lemma_trim_end_take(s: Seq<char>, b: int)
    requires
        0 <= b <= s.len(),
        forall|j: int| b <= j < s.len() ==> is_space(s[j]),
    ensures
        trim_end_spec(s) == trim_end_spec(s.take(b)),
    decreases s.len() - b,
{
    if b < s.len() {
        assert(is_space(s[s.len() - 1]));
        assert(s.take(s.len() - 1).take(b) =~= s.take(b));
        lemma_trim_end_take(s.take(s.len() - 1), b);
    } else {
        assert(s.take(s.len() as int) =~= s);
    }
}

/// Strip the whitespace from both ends of a token.
pub fn trim_str(s: &str) -> (r: String)
    ensures
        r@ == trim_spec(s@),
{
    let n = s.unicode_len();
    let mut a: usize = 0;
    while a < n && is_space_char(s.get_char(a))
        invariant
            a <= n,
            n == s@.len(),
            forall|j: int| 0 <= j < a ==> is_space(s@[j]),
        decreases n - a,
    {
        a += 1;
    }
    proof {
        lemma_trim_start_skip(s@, a as int);
    }
    if a == n {
        proof {
            assert(s@.skip(a as int) =~= Seq::<char>::empty());
        }
        return String::new();
    }
    // The first loop stopped on a non-space character, so the trimmed-start
    // remainder is exactly the suffix beginning at `a`.
    proof {
        assert(trim_start_spec(s@.skip(a as int)) == s@.skip(a as int));
    }
    let mut b: usize = n;
    while b > a && is_space_char(s.get_char(b - 1))
        invariant
            a <= b <= n,
            n == s@.len(),
            forall|j: int| b <= j < n ==> is_space(s@[j]),
        decreases b,
    {
        b -= 1;
    }
    proof {
        let t = s@.skip(a as int);
        assert(forall|j: int| b - a <= j < t.len() ==> is_space(t[j]));
        lemma_trim_end_take(t, b - a);
        assert(t.take(b - a) =~= s@.subrange(a as int, b as int));
        // b > a here, so the last kept character is not a space.
        assert(!is_space(s@[b - 1]));
        assert(t.take(b - a).len() > 0);
        assert(t.take(b - a)[b - a - 1] == s@[b - 1]);
        assert(trim_end_spec(t.take(b - a)) == t.take(b - a));
    }
    s.substring_char(a, b).to_owned()
}

/// Split at the first occurrence of `sep`: the part before it and the part
/// after it, or nothing when `sep` does not occur.
pub open spec fn split_once_spec(s: Seq<char>, sep: char) -> Option<(Seq<char>, Seq<char>)>
    decreases s.len(),
{
    if s.len() == 0 {
        None
    } else if s[0] == sep {
        Some((Seq::empty(), s.skip(1)))
    } else {
        match split_once_spec(s.skip(1), sep) {
            None => None,
            Some(p) => Some((seq![s[0]] + p.0, p.1)),
        }
    }
}

proof fn lemma_split_once_found(s: Seq<char>, sep: char, i: int)
    requires
        0 <= i < s.len(),
        s[i] == sep,
        forall|j: int| 0 <= j < i ==> s[j] != sep,
    ensures
        split_once_spec(s, sep) == Some((s.take(i), s.skip(i + 1))),
    decreases i,
{
    if i == 0 {
        assert(s.take(0) =~= Seq::<char>::empty());
    } else {
        assert(forall|j: int| 0 <= j < i - 1 ==> s.skip(1)[j] != sep);
        lemma_split_once_found(s.skip(1), sep, i - 1);
        assert(seq![s[0]] + s.skip(1).take(i - 1) =~= s.take(i));
        assert(s.skip(1).skip(i) =~= s.skip(i + 1));
    }
}

proof fn lemma_split_once_none(s: Seq<char>, sep: char)
    requires
        forall|j: int| 0 <= j < s.len() ==> s[j] != sep,
    ensures
        split_once_spec(s, sep) is None,
    decreases s.len(),
{
    if s.len() > 0 {
        assert(forall|j: int| 0 <= j < s.skip(1).len() ==> s.skip(1)[j] != sep);
        lemma_split_once_none(s.skip(1), sep);
    }
}

proof fn lemma_split_once_len(s: Seq<char>, sep: char)
    ensures
        split_once_spec(s, sep) matches Some(p) ==> p.1.len() < s.len(),
    decreases s.len(),
{
    if s.len() > 0 && s[0] != sep {
        lemma_split_once_len(s.skip(1), sep);
    }
}

/// Split at the first occurrence of `sep`.
pub fn split_once_str(s: &str, sep: char) -> (r: Option<(String, String)>)
    ensures
        match r {
            Some(p) => split_once_spec(s@, sep) == Some((p.0@, p.1@)),
            None => split_once_spec(s@, sep) is None,
        },
{
    let n = s.unicode_len();
    let mut i: usize = 0;
    while i < n && s.get_char(i) != sep
        invariant
            i <= n,
            n == s@.len(),
            forall|j: int| 0 <= j < i ==> s@[j] != sep,
        decreases n - i,
    {
        i += 1;
    }
    if i < n {
        proof {
            lemma_split_once_found(s@, sep, i as int);
            assert(s@.subrange(0, i as int) =~= s@.take(i as int));
            assert(s@.subrange(i + 1, n as int) =~= s@.skip(i + 1));
        }
        Some((s.substring_char(0, i).to_owned(), s.substring_char(i + 1, n).to_owned()))
    } else {
        proof {
            lemma_split_once_none(s@, sep);
        }
        None
    }
}

/// All the segments between occurrences of `sep`, in order; a string without
/// `sep` is one segment, and empty segments are kept.
pub open spec fn split_spec(s: Seq<char>, sep: char) -> Seq<Seq<char>>
    decreases s.len(),
    via split_spec_decreases
{
    match split_once_spec(s, sep) {
        None => seq![s],
        Some(p) => seq![p.0] + split_spec(p.1, sep),
    }
}

#[via_fn]
proof fn split_spec_decreases(s: Seq<char>, sep: char) {
    lemma_split_once_len(s, sep);
}

/// Split on every occurrence of `sep`.
pub fn split_str(s: &str, sep: char) -> (r: Vec<String>)
    ensures
        r.deep_view() == split_spec(s@, sep),
{
    let n = s.unicode_len();
    let mut out: Vec<String> = Vec::new();
    let mut start: usize = 0;
    let mut i: usize = 0;
    proof {
        assert(s@.skip(0) =~= s@);
        assert(out.deep_view() + split_spec(s@, sep) =~= split_spec(s@, sep));
    }
    while i < n
        invariant
            start <= i <= n,
            n == s@.len(),
            forall|j: int| start <= j < i ==> s@[j] != sep,
            split_spec(s@, sep) == out.deep_view() + split_spec(s@.skip(start as int), sep),
        decreases n - i,
    {
        if s.get_char(i) == sep {
            let seg = s.substring_char(start, i).to_owned();
            proof {
                let t = s@.skip(start as int);
                assert(forall|j: int| 0 <= j < i - start ==> t[j] != sep);
                assert(t[i - start] == sep);
                lemma_split_once_found(t, sep, i - start);
                assert(t.take(i - start) =~= s@.subrange(start as int, i as int));
                assert(t.skip(i - start + 1) =~= s@.skip(i + 1));
                assert(out.deep_view().push(seg@) + split_spec(s@.skip(i + 1), sep)
                    =~= out.deep_view() + (seq![seg@] + split_spec(s@.skip(i + 1), sep)));
            }
            let ghost pre = out.deep_view();
            out.push(seg);
            proof {
                assert(out.deep_view() =~= pre.push(seg@));
            }
            start = i + 1;
        }
        i += 1;
    }
    let seg = s.substring_char(start, n).to_owned();
    proof {
        let t = s@.skip(start as int);
        assert(forall|j: int| 0 <= j < t.len() ==> t[j] != sep);
        lemma_split_once_none(t, sep);
        assert(t =~= s@.subrange(start as int, n as int));
        assert(out.deep_view().push(seg@) =~= out.deep_view() + seq![seg@]);
    }
    let ghost pre = out.deep_view();
    out.push(seg);
    proof {
        assert(out.deep_view() =~= pre.push(seg@));
    }
    out
}

/// Every non-overlapping occurrence of `pat` replaced by `repl`, scanning
/// left to right; with an empty pattern the text is returned unchanged.
pub open spec fn replaced_spec(s: Seq<char>, pat: Seq<char>, repl: Seq<char>) -> Seq<char>
    decreases s.len(),
{
    if pat.len() == 0 || s.len() < pat.len() {
        s
    } else if s.take(pat.len() as int) == pat {
        repl + replaced_spec(s.skip(pat.len() as int), pat, repl)
    } else {
        seq![s[0]] + replaced_spec(s.skip(1), pat, repl)
    }
}

/// Whether `pat` occurs in `s` starting at position `i`.
fn match_at(s: &str, i: usize, pat: &str) -> (r: bool)
    requires
        i + pat@.len() <= s@.len(),
    ensures
        r == (s@.subrange(i as int, i + pat@.len()) == pat@),
{
    let n = s.unicode_len();
    let m = pat.unicode_len();
    let mut j: usize = 0;
    while j < m
        invariant
            j <= m,
            m == pat@.len(),
            n == s@.len(),
            i + m <= s@.len(),
            forall|k: int| 0 <= k < j ==> s@[i + k] == pat@[k],
        decreases m - j,
    {
        if s.get_char(i + j) != pat.get_char(j) {
            proof {
                assert(s@.subrange(i as int, i + m as int)[j as int] == s@[i + j]);
            }
            return false;
        }
        j += 1;
    }
    proof {
        assert(s@.subrange(i as int, i + m as int) =~= pat@);
    }
    true
}

/// Replace every occurrence of `pat` in `s` with `repl`.
pub fn replace_all(s: &str, pat: &str, repl: &str) -> (r: String)
    requires
        pat@.len() > 0,
    ensures
        r@ == replaced_spec(s@, pat@, repl@),
{
    let n = s.unicode_len();
    let m = pat.unicode_len();
    let mut out = String::new();
    let mut i: usize = 0;
    proof {
        assert(s@.skip(0) =~= s@);
    }
    while i < n
        invariant
            i <= n,
            n == s@.len(),
            m == pat@.len(),
            m > 0,
            replaced_spec(s@, pat@, repl@) == out@ + replaced_spec(s@.skip(i as int), pat@, repl@),
        decreases n - i,
    {
        if m <= n - i && match_at(s, i, pat) {
            proof {
                let t = s@.skip(i as int);
                assert(t.take(m as int) =~= s@.subrange(i as int, i + m as int));
                assert(t.skip(m as int) =~= s@.skip(i + m));
            }
            out.append(repl);
            i = i + m;
        } else {
            let c = s.substring_char(i, i + 1);
            proof {
                let t = s@.skip(i as int);
                assert(c@ =~= seq![s@[i as int]]);
                assert(t.skip(1) =~= s@.skip(i + 1));
                if t.len() >= m {
                    // no match at i, so the head character is copied
                    assert(t.take(m as int) =~= s@.subrange(i as int, i + m as int));
                    assert(t[0] == s@[i as int]);
                } else {
                    // tail shorter than the pattern: both remainders are kept as they are
                    assert(replaced_spec(t, pat@, repl@) == t);
                    assert(replaced_spec(t.skip(1), pat@, repl@) == t.skip(1));
                    assert(t =~= seq![s@[i as int]] + t.skip(1));
                }
            }
            out.append(c);
            i = i + 1;
        }
    }
    proof {
        assert(s@.skip(n as int) =~= Seq::<char>::empty());
    }
    out
}

/// Character-for-character equality of two strings.
pub fn str_eq(a: &str, b: &str) -> (r: bool)
    ensures
        r == (a@ == b@),
{
    let n = a.unicode_len();
    if n != b.unicode_len() {
        return false;
    }
    let mut i: usize = 0;
    while i < n
        invariant
            i <= n,
            n == a@.len(),
            n == b@.len(),
            forall|j: int| 0 <= j < i ==> a@[j] == b@[j],
        decreases n - i,
    {
        if a.get_char(i) != b.get_char(i) {
            return false;
        }
        i += 1;
    }
    proof {
        assert(a@ =~= b@);
    }
    true
}

} // verus!
