//! Character scanning over string views: first occurrence of a character or
//! of a pattern, and whitespace trimming. The executable functions mirror the
//! specification functions exactly; every other module scans through these.

use vstd::prelude::*;

verus! {

/// Index of the first occurrence of `c` in `s` at or after `from`;
/// `s.len()` when there is none.
pub open spec fn find_from(s: Seq<char>, from: int, c: char) -> int
    decreases s.len() - from,
{
    if from < 0 || from >= s.len() {
        s.len() as int
    } else if s[from] == c {
        from
    } else {
        find_from(s, from + 1, c)
    }
}

pub proof fn lemma_find_from(s: Seq<char>, from: int, c: char)
    requires
        0 <= from <= s.len(),
    ensures
        from <= find_from(s, from, c) <= s.len(),
        find_from(s, from, c) < s.len() ==> s[find_from(s, from, c)] == c,
        forall|k: int| from <= k < find_from(s, from, c) ==> s[k] != c,
    decreases s.len() - from,
{
    if from < s.len() && s[from] != c {
        lemma_find_from(s, from + 1, c);
    }
}

/// Whether `pat` occurs in `s` starting at index `i`.
pub open spec fn matches_at(s: Seq<char>, i: int, pat: Seq<char>) -> bool {
    0 <= i && i + pat.len() <= s.len() && forall|k: int|
        0 <= k < pat.len() ==> s[i + k] == pat[k]
}

/// Index of the first occurrence of `pat` in `s` at or after `from`;
/// `s.len()` when there is none (for a non-empty `pat` an occurrence at
/// `s.len()` is impossible, so the sentinel is unambiguous).
pub open spec fn find_sub(s: Seq<char>, from: int, pat: Seq<char>) -> int
    decreases s.len() - from,
{
    if from < 0 || from > s.len() - pat.len() {
        s.len() as int
    } else if matches_at(s, from, pat) {
        from
    } else {
        find_sub(s, from + 1, pat)
    }
}

pub proof fn lemma_find_sub(s: Seq<char>, from: int, pat: Seq<char>)
    requires
        0 <= from <= s.len(),
    ensures
        from <= find_sub(s, from, pat) <= s.len(),
        find_sub(s, from, pat) + pat.len() <= s.len() ==> matches_at(
            s,
            find_sub(s, from, pat),
            pat,
        ) || find_sub(s, from, pat) == s.len(),
        find_sub(s, from, pat) < s.len() ==> matches_at(s, find_sub(s, from, pat), pat),
        forall|k: int| from <= k < find_sub(s, from, pat) ==> !matches_at(s, k, pat),
    decreases s.len() - from,
{
    if from > s.len() - pat.len() {
        assert forall|k: int| from <= k < s.len() implies !matches_at(s, k, pat) by {}
    } else if !matches_at(s, from, pat) {
        lemma_find_sub(s, from + 1, pat);
    }
}

/// The whitespace characters that are trimmed around text.
pub open spec fn is_space(c: char) -> bool {
    c == ' ' || c == '\t' || c == '\n' || c == '\r'
}

/// Index of the first non-whitespace character at or after `from`;
/// `s.len()` when all that follows is whitespace.
pub open spec fn skip_spaces(s: Seq<char>, from: int) -> int
    decreases s.len() - from,
{
    if from < 0 || from >= s.len() {
        s.len() as int
    } else if is_space(s[from]) {
        skip_spaces(s, from + 1)
    } else {
        from
    }
}

pub proof fn lemma_skip_spaces(s: Seq<char>, from: int)
    requires
        0 <= from <= s.len(),
    ensures
        from <= skip_spaces(s, from) <= s.len(),
        skip_spaces(s, from) < s.len() ==> !is_space(s[skip_spaces(s, from)]),
        forall|k: int| from <= k < skip_spaces(s, from) ==> is_space(s[k]),
    decreases s.len() - from,
{
    if from < s.len() && is_space(s[from]) {
        lemma_skip_spaces(s, from + 1);
    }
}

/// One past the last non-whitespace character before `to`; `0` when all of
/// `s` up to `to` is whitespace.
pub open spec fn rskip_spaces(s: Seq<char>, to: int) -> int
    decreases to,
{
    if to <= 0 || to > s.len() {
        0
    } else if is_space(s[to - 1]) {
        rskip_spaces(s, to - 1)
    } else {
        to
    }
}

pub proof fn lemma_rskip_spaces(s: Seq<char>, to: int)
    requires
        0 <= to <= s.len(),
    ensures
        0 <= rskip_spaces(s, to) <= to,
        rskip_spaces(s, to) > 0 ==> !is_space(s[rskip_spaces(s, to) - 1]),
        forall|k: int| rskip_spaces(s, to) <= k < to ==> is_space(s[k]),
    decreases to,
{
    if to > 0 && is_space(s[to - 1]) {
        lemma_rskip_spaces(s, to - 1);
    }
}

/// `s` with leading and trailing whitespace removed.
pub open spec fn spec_trim(s: Seq<char>) -> Seq<char> {
    let a = skip_spaces(s, 0);
    let b = rskip_spaces(s, s.len() as int);
    if a < b {
        s.subrange(a, b)
    } else {
        Seq::empty()
    }
}

/// First occurrence of character `c` in `s` at or after `from`.
pub fn find_char(s: &str, from: usize, c: char) -> (r: usize)
    requires
        from <= s@.len(),
    ensures
        r == find_from(s@, from as int, c),
        from <= r <= s@.len(),
{
    proof {
        lemma_find_from(s@, from as int, c);
    }
    let n = s.unicode_len();
    let mut i = from;
    while i < n
        invariant
            from <= i <= n,
            n == s@.len(),
            find_from(s@, from as int, c) == find_from(s@, i as int, c),
        decreases n - i,
    {
        if s.get_char(i) == c {
            return i;
        }
        i = i + 1;
    }
    i
}

/// Whether `pat` occurs in `s` starting at `i`.
pub fn matches_at_exec(s: &str, i: usize, pat: &str) -> (r: bool)
    requires
        i <= s@.len(),
    ensures
        r == matches_at(s@, i as int, pat@),
{
    let m = pat.unicode_len();
    let n = s.unicode_len();
    if m > n - i {
        assert(!matches_at(s@, i as int, pat@));
        return false;
    }
    let mut k: usize = 0;
    while k < m
        invariant
            0 <= k <= m,
            i + m <= n,
            n == s@.len(),
            m == pat@.len(),
            forall|j: int| 0 <= j < k ==> s@[i + j] == pat@[j],
        decreases m - k,
    {
        if s.get_char(i + k) != pat.get_char(k) {
            return false;
        }
        k = k + 1;
    }
    true
}

/// First occurrence of `pat` in `s` at or after `from`; `s` length when none.
pub fn find_pat(s: &str, from: usize, pat: &str) -> (r: usize)
    requires
        from <= s@.len(),
    ensures
        r == find_sub(s@, from as int, pat@),
        from <= r <= s@.len(),
{
    proof {
        lemma_find_sub(s@, from as int, pat@);
    }
    let n = s.unicode_len();
    let m = pat.unicode_len();
    if m > n {
        assert(find_sub(s@, from as int, pat@) == s@.len());
        return n;
    }
    let mut i = from;
    while i < n && i <= n - m
        invariant
            from <= i <= n,
            m <= n,
            n == s@.len(),
            m == pat@.len(),
            find_sub(s@, from as int, pat@) == find_sub(s@, i as int, pat@),
        decreases n - i,
    {
        if matches_at_exec(s, i, pat) {
            return i;
        }
        i = i + 1;
    }
    assert(find_sub(s@, i as int, pat@) == s@.len());
    n
}

/// `s` between `from` and `to` with surrounding whitespace removed.
pub fn trim_range(s: &str, from: usize, to: usize) -> (r: String)
    requires
        from <= to <= s@.len(),
    ensures
        r@ == spec_trim(s@.subrange(from as int, to as int)),
{
    let ghost sub = s@.subrange(from as int, to as int);
    proof {
        lemma_skip_spaces(sub, 0);
        lemma_rskip_spaces(sub, sub.len() as int);
    }
    let mut a = from;
    while a < to && is_space_exec(s.get_char(a))
        invariant
            from <= a <= to,
            to <= s@.len(),
            sub == s@.subrange(from as int, to as int),
            skip_spaces(sub, 0) == skip_spaces(sub, a - from),
        decreases to - a,
    {
        a = a + 1;
    }
    let mut b = to;
    while b > a && is_space_exec(s.get_char(b - 1))
        invariant
            from <= a <= b <= to,
            to <= s@.len(),
            sub == s@.subrange(from as int, to as int),
            skip_spaces(sub, 0) == a - from,
            rskip_spaces(sub, sub.len() as int) == rskip_spaces(sub, b - from),
        decreases b,
    {
        b = b - 1;
    }
    if a < b {
        proof {
            assert(rskip_spaces(sub, b - from) == b - from);
            assert(sub.subrange(a - from, b - from) =~= s@.subrange(a as int, b as int));
        }
        let piece = s.substring_char(a, b);
        String::from_str(piece)
    } else {
        proof {
            lemma_rskip_spaces(sub, b - from);
            assert(spec_trim(sub) =~= Seq::<char>::empty());
        }
        String::new()
    }
}

/// First index at or after `from` whose character is not whitespace.
pub fn skip_spaces_exec(s: &str, from: usize) -> (r: usize)
    requires
        from <= s@.len(),
    ensures
        r == skip_spaces(s@, from as int),
        from <= r <= s@.len(),
{
    proof {
        lemma_skip_spaces(s@, from as int);
    }
    let n = s.unicode_len();
    let mut i = from;
    while i < n
        invariant
            from <= i <= n,
            n == s@.len(),
            skip_spaces(s@, from as int) == skip_spaces(s@, i as int),
        decreases n - i,
    {
        if !is_space_exec(s.get_char(i)) {
            return i;
        }
        i = i + 1;
    }
    i
}

/// Whether `c` is one of the trimmed whitespace characters.
pub fn is_space_exec(c: char) -> (r: bool)
    ensures
        r == is_space(c),
{
    c == ' ' || c == '\t' || c == '\n' || c == '\r'
}

} // verus!
