//! The patch parser: a single forward scan over a constrained tag vocabulary.
//!
//! The scan tokenizes the response text (start tags with quoted attributes,
//! end tags, text, character data, comments and declarations) and feeds the
//! tokens to an explicit state machine that collects, per file, the replaced
//! parts, the wholly new files, and the free-text commentary. Malformed
//! fragments are skipped; only text in which a tag or quoted section never
//! closes fails the whole parse. A part id that is not a plain decimal
//! number counts as the sentinel `0`, which is never applied.

use vstd::prelude::*;

use crate::errors::AppError;
use crate::models::{
    CodeAssistantResponse, FilePart, FilePartIds, NewFile, PreprocessorResponse,
    SpecFilePartIds, SpecFileParts, SpecNewFile, SpecPart, SpecPreprocessorResponse,
    SpecResponse, SpecUpdatedFile, UpdatedFile,
};
use crate::scan::{
    find_char, find_from, find_pat, find_sub, is_space, is_space_exec, lemma_find_from,
    lemma_find_sub, lemma_skip_spaces, matches_at, matches_at_exec, skip_spaces,
    skip_spaces_exec, spec_trim, trim_range,
};
use crate::text::{join_lines, spec_join};

verus! {

/// The numeric value of a digit string, most significant digit first.
pub open spec fn spec_digits_val(s: Seq<char>) -> int
    decreases s.len(),
{
    if s.len() == 0 {
        0
    } else {
        spec_digits_val(s.drop_last()) * 10 + (s.last() as int - '0' as int)
    }
}

/// Whether `s` is a non-empty string of decimal digits.
pub open spec fn is_digits(s: Seq<char>) -> bool {
    s.len() > 0 && forall|k: int| 0 <= k < s.len() ==> '0' <= #[trigger] s[k] <= '9'
}

/// What `usize` parsing yields on `s`: its value when `s` is all digits and
/// the value fits, nothing otherwise.
pub open spec fn spec_parse_usize(s: Seq<char>) -> Option<nat> {
    if is_digits(s) && 0 <= spec_digits_val(s) <= usize::MAX {
        Some(spec_digits_val(s) as nat)
    } else {
        None
    }
}

/// The value of a digit string is never negative.
proof fn lemma_digits_val_nonneg(s: Seq<char>)
    requires
        forall|t: int| 0 <= t < s.len() ==> '0' <= #[trigger] s[t] <= '9',
    ensures
        spec_digits_val(s) >= 0,
    decreases s.len(),
{
    if s.len() > 0 {
        lemma_digits_val_nonneg(s.drop_last());
    }
}

/// A longer digit string never has a smaller value.
proof fn lemma_digits_val_prefix(s: Seq<char>, k: int)
    requires
        0 <= k <= s.len(),
        forall|t: int| 0 <= t < s.len() ==> '0' <= #[trigger] s[t] <= '9',
    ensures
        spec_digits_val(s) >= spec_digits_val(s.take(k)) >= 0,
    decreases s.len() - k,
{
    assert(forall|t: int| 0 <= t < s.take(k).len() ==> '0' <= #[trigger] s.take(k)[t] <= '9');
    lemma_digits_val_nonneg(s.take(k));
    if k < s.len() {
        lemma_digits_val_prefix(s, k + 1);
        assert(s.take(k + 1).drop_last() =~= s.take(k));
        assert(spec_digits_val(s.take(k + 1)) == spec_digits_val(s.take(k)) * 10 + (s.take(
            k + 1,
        ).last() as int - '0' as int));
        assert(spec_digits_val(s.take(k)) * 10 >= spec_digits_val(s.take(k)));
    } else {
        assert(s.take(k) =~= s);
    }
}

/// Parses `s` as a decimal `usize`: its value when `s` is a non-empty digit
/// string whose value fits, nothing otherwise.
pub fn parse_usize(s: &str) -> (r: Option<usize>)
    ensures
        r matches Some(v) ==> spec_parse_usize(s@) == Some(v as nat),
        r is None ==> spec_parse_usize(s@) is None,
{
    let n = s.unicode_len();
    if n == 0 {
        return None;
    }
    let mut acc: usize = 0;
    let mut i: usize = 0;
    while i < n
        invariant
            0 < n == s@.len(),
            i <= n,
            forall|k: int| 0 <= k < i ==> '0' <= #[trigger] s@[k] <= '9',
            acc as nat == spec_digits_val(s@.take(i as int)),
        decreases n - i,
    {
        let c = s.get_char(i);
        if c < '0' || c > '9' {
            assert(!is_digits(s@));
            return None;
        }
        let d = (c as u32 - '0' as u32) as usize;
        let next = match acc.checked_mul(10) {
            Some(t) => t.checked_add(d),
            None => None,
        };
        proof {
            assert(s@.take(i + 1).drop_last() =~= s@.take(i as int));
            assert(s@.take(i + 1).last() == s@[i as int]);
            assert(spec_digits_val(s@.take(i + 1)) == acc as nat * 10 + (c as nat - '0' as nat));
        }
        match next {
            Some(v) => {
                acc = v;
            },
            None => {
                proof {
                    if is_digits(s@) {
                        lemma_digits_val_prefix(s@, i + 1);
                        assert(spec_digits_val(s@) > usize::MAX);
                    }
                }
                return None;
            },
        }
        i = i + 1;
    }
    proof {
        assert(s@.take(n as int) =~= s@);
        assert(is_digits(s@));
    }
    Some(acc)
}

/// The part ids a comma-separated list denotes, in order; a piece that is
/// not a plain decimal number contributes nothing.
pub open spec fn spec_split_ids(v: Seq<char>, i: int) -> Seq<nat>
    decreases v.len() - i + 1,
    via spec_split_ids_decreases
{
    if i < 0 || i > v.len() {
        Seq::empty()
    } else {
        let j = find_from(v, i, ',');
        let piece = v.subrange(i, j);
        let here = match spec_parse_usize(piece) {
            Some(val) => seq![val],
            None => Seq::<nat>::empty(),
        };
        if j == v.len() {
            here
        } else {
            here + spec_split_ids(v, j + 1)
        }
    }
}

#[via_fn]
proof fn spec_split_ids_decreases(v: Seq<char>, i: int) {
    if 0 <= i <= v.len() {
        lemma_find_from(v, i, ',');
    }
}

/// The ids of a comma-separated list, unparseable pieces skipped.
pub fn split_ids(v: &str) -> (r: Vec<usize>)
    ensures
        r@.map_values(|x: usize| x as nat) == spec_split_ids(v@, 0),
{
    let n = v.unicode_len();
    let mut out: Vec<usize> = Vec::new();
    let mut i: usize = 0;
    proof {
        assert(out@.map_values(|x: usize| x as nat) =~= Seq::<nat>::empty());
    }
    loop
        invariant_except_break
            i <= n,
            n == v@.len(),
            out@.map_values(|x: usize| x as nat) + spec_split_ids(v@, i as int)
                =~= spec_split_ids(v@, 0),
        ensures
            out@.map_values(|x: usize| x as nat) == spec_split_ids(v@, 0),
        decreases n - i,
    {
        let j = find_char(v, i, ',');
        let piece = v.substring_char(i, j);
        let ghost prev = out@;
        proof {
            assert(piece@ == v@.subrange(i as int, j as int));
        }
        match parse_usize(piece) {
            Some(val) => {
                out.push(val);
                proof {
                    assert(out@.map_values(|x: usize| x as nat) =~= prev.map_values(
                        |x: usize| x as nat,
                    ).push(val as nat));
                }
            },
            None => {},
        }
        if j == n {
            proof {
                assert(out@.map_values(|x: usize| x as nat) =~= spec_split_ids(v@, 0));
            }
            break;
        }
        proof {
            assert(out@.map_values(|x: usize| x as nat) + spec_split_ids(v@, j + 1)
                =~= spec_split_ids(v@, 0));
        }
        i = j + 1;
    }
    out
}

/// `s` with the five standard character entities decoded; a bare `'&'` that
/// opens no known entity stands for itself.
pub open spec fn spec_unescape(s: Seq<char>) -> Seq<char>
    decreases s.len(),
    via spec_unescape_decreases
{
    if s.len() == 0 {
        s
    } else if s[0] == '&' {
        if matches_at(s, 0, seq!['&', 'l', 't', ';']) {
            seq!['<'] + spec_unescape(s.skip(4))
        } else if matches_at(s, 0, seq!['&', 'g', 't', ';']) {
            seq!['>'] + spec_unescape(s.skip(4))
        } else if matches_at(s, 0, seq!['&', 'a', 'm', 'p', ';']) {
            seq!['&'] + spec_unescape(s.skip(5))
        } else if matches_at(s, 0, seq!['&', 'a', 'p', 'o', 's', ';']) {
            seq!['\''] + spec_unescape(s.skip(6))
        } else if matches_at(s, 0, seq!['&', 'q', 'u', 'o', 't', ';']) {
            seq!['"'] + spec_unescape(s.skip(6))
        } else {
            seq!['&'] + spec_unescape(s.skip(1))
        }
    } else {
        let j = find_from(s, 0, '&');
        s.subrange(0, j) + spec_unescape(s.skip(j))
    }
}

#[via_fn]
proof fn spec_unescape_decreases(s: Seq<char>) {
    if s.len() > 0 && s[0] != '&' {
        lemma_find_from(s, 0, '&');
        assert(find_from(s, 0, '&') >= 1);
    }
}

/// Decodes the five standard character entities in `s`.
pub fn unescape(s: &str) -> (r: String)
    ensures
        r@ == spec_unescape(s@),
{
    let n = s.unicode_len();
    let mut out = String::new();
    let mut i: usize = 0;
    proof {
        assert(s@.skip(0) =~= s@);
    }
    while i < n
        invariant
            i <= n,
            n == s@.len(),
            out@ + spec_unescape(s@.skip(i as int)) == spec_unescape(s@),
        decreases n - i,
    {
        let ghost suffix = s@.skip(i as int);
        proof {
            assert(suffix.len() == n - i);
            assert(forall|k: int| 0 <= k < suffix.len() ==> suffix[k] == s@[i + k]);
        }
        if s.get_char(i) == '&' {
            proof {
                reveal_strlit("&lt;");
                reveal_strlit("&gt;");
                reveal_strlit("&amp;");
                reveal_strlit("&apos;");
                reveal_strlit("&quot;");
                reveal_strlit("<");
                reveal_strlit(">");
                reveal_strlit("&");
                reveal_strlit("'");
                reveal_strlit("\"");
                assert("&lt;"@ =~= seq!['&', 'l', 't', ';']);
                assert("&gt;"@ =~= seq!['&', 'g', 't', ';']);
                assert("&amp;"@ =~= seq!['&', 'a', 'm', 'p', ';']);
                assert("&apos;"@ =~= seq!['&', 'a', 'p', 'o', 's', ';']);
                assert("&quot;"@ =~= seq!['&', 'q', 'u', 'o', 't', ';']);
                lemma_shift_match(s@, i as int, "&lt;"@);
                lemma_shift_match(s@, i as int, "&gt;"@);
                lemma_shift_match(s@, i as int, "&amp;"@);
                lemma_shift_match(s@, i as int, "&apos;"@);
                lemma_shift_match(s@, i as int, "&quot;"@);
            }
            if matches_at_exec(s, i, "&lt;") {
                proof {
                    assert(matches_at(suffix, 0, seq!['&', 'l', 't', ';']));
                    assert(suffix.skip(4) =~= s@.skip(i + 4));
                }
                out.append("<");
                i = i + 4;
            } else if matches_at_exec(s, i, "&gt;") {
                proof {
                    assert(matches_at(suffix, 0, seq!['&', 'g', 't', ';']));
                    assert(!matches_at(suffix, 0, seq!['&', 'l', 't', ';']));
                    assert(suffix.skip(4) =~= s@.skip(i + 4));
                }
                out.append(">");
                i = i + 4;
            } else if matches_at_exec(s, i, "&amp;") {
                proof {
                    assert(matches_at(suffix, 0, seq!['&', 'a', 'm', 'p', ';']));
                    assert(!matches_at(suffix, 0, seq!['&', 'l', 't', ';']));
                    assert(!matches_at(suffix, 0, seq!['&', 'g', 't', ';']));
                    assert(suffix.skip(5) =~= s@.skip(i + 5));
                }
                out.append("&");
                i = i + 5;
            } else if matches_at_exec(s, i, "&apos;") {
                proof {
                    assert(matches_at(suffix, 0, seq!['&', 'a', 'p', 'o', 's', ';']));
                    assert(!matches_at(suffix, 0, seq!['&', 'l', 't', ';']));
                    assert(!matches_at(suffix, 0, seq!['&', 'g', 't', ';']));
                    assert(!matches_at(suffix, 0, seq!['&', 'a', 'm', 'p', ';']));
                    assert(suffix.skip(6) =~= s@.skip(i + 6));
                }
                out.append("'");
                i = i + 6;
            } else if matches_at_exec(s, i, "&quot;") {
                proof {
                    assert(matches_at(suffix, 0, seq!['&', 'q', 'u', 'o', 't', ';']));
                    assert(!matches_at(suffix, 0, seq!['&', 'l', 't', ';']));
                    assert(!matches_at(suffix, 0, seq!['&', 'g', 't', ';']));
                    assert(!matches_at(suffix, 0, seq!['&', 'a', 'm', 'p', ';']));
                    assert(!matches_at(suffix, 0, seq!['&', 'a', 'p', 'o', 's', ';']));
                    assert(suffix.skip(6) =~= s@.skip(i + 6));
                }
                out.append("\"");
                i = i + 6;
            } else {
                proof {
                    assert(!matches_at(suffix, 0, seq!['&', 'l', 't', ';']));
                    assert(!matches_at(suffix, 0, seq!['&', 'g', 't', ';']));
                    assert(!matches_at(suffix, 0, seq!['&', 'a', 'm', 'p', ';']));
                    assert(!matches_at(suffix, 0, seq!['&', 'a', 'p', 'o', 's', ';']));
                    assert(!matches_at(suffix, 0, seq!['&', 'q', 'u', 'o', 't', ';']));
                    assert(suffix.skip(1) =~= s@.skip(i + 1));
                }
                out.append("&");
                i = i + 1;
            }
        } else {
            let j = find_char(s, i, '&');
            proof {
                lemma_find_from(s@, i as int, '&');
                assert(find_from(suffix, 0, '&') == find_from(s@, i as int, '&') - i) by {
                    lemma_find_offset(s@, i as int, '&');
                }
                assert(suffix.subrange(0, j - i) =~= s@.subrange(i as int, j as int));
                assert(suffix.skip(j - i) =~= s@.skip(j as int));
            }
            assert(j > i);
            out.append(s.substring_char(i, j));
            i = j;
        }
    }
    proof {
        assert(spec_unescape(s@.skip(n as int)) =~= Seq::<char>::empty());
        assert(out@ =~= spec_unescape(s@));
    }
    out
}

/// A pattern matches in a suffix exactly where it matches in the whole, at
/// the shifted index.
proof fn lemma_shift_match(s: Seq<char>, i: int, pat: Seq<char>)
    requires
        0 <= i <= s.len(),
    ensures
        matches_at(s, i, pat) == matches_at(s.skip(i), 0, pat),
{
    assert(forall|t: int| 0 <= t < s.skip(i).len() ==> s.skip(i)[t] == s[i + t]);
    if matches_at(s, i, pat) {
        assert forall|k: int| 0 <= k < pat.len() implies s.skip(i)[k] == pat[k] by {
            assert(s[i + k] == pat[k]);
        }
        assert(matches_at(s.skip(i), 0, pat));
    }
    if matches_at(s.skip(i), 0, pat) {
        assert forall|k: int| 0 <= k < pat.len() implies s[i + k] == pat[k] by {
            assert(s.skip(i)[k] == pat[k]);
        }
        assert(matches_at(s, i, pat));
    }
}

/// Searching within a suffix finds the same character at the shifted index.
proof fn lemma_find_offset(s: Seq<char>, i: int, c: char)
    requires
        0 <= i <= s.len(),
    ensures
        find_from(s.skip(i), 0, c) == find_from(s, i, c) - i,
{
    lemma_find_from(s, i, c);
    lemma_find_from(s.skip(i), 0, c);
    let j = find_from(s, i, c);
    let k = find_from(s.skip(i), 0, c);
    assert(forall|t: int| 0 <= t < s.skip(i).len() ==> s.skip(i)[t] == s[i + t]);
    if k < j - i {
        assert(s.skip(i)[k] == c);
        assert(s[i + k] == c);
        assert(false);
    }
    if j - i < k {
        if j < s.len() {
            assert(s.skip(i)[j - i] == c);
            assert(false);
        } else {
            assert(k <= s.skip(i).len());
            assert(false);
        }
    }
}


/// One token of the constrained tag vocabulary.
#[derive(Debug, Clone, PartialEq, Eq)]
pub enum Token {
    /// A start tag with its attributes, in source order.
    Start { name: String, attrs: Vec<(String, String)> },
    /// An end tag.
    End { name: String },
    /// Text between tags (trimmed, entities decoded) or literal character
    /// data.
    Text { content: String },
    /// A fragment the scan recognizes and ignores: a comment, a declaration,
    /// a self-closing tag, or a malformed attribute tail.
    Skip,
}

/// The mathematical value of a [`Token`].
pub enum SpecToken {
    Start { name: Seq<char>, attrs: Seq<(Seq<char>, Seq<char>)> },
    End { name: Seq<char> },
    Text { content: Seq<char> },
    Skip,
}

impl DeepView for Token {
    type V = SpecToken;

    open spec fn deep_view(&self) -> SpecToken {
        match self {
            Token::Start { name, attrs } => SpecToken::Start {
                name: name@,
                attrs: attrs.deep_view(),
            },
            Token::End { name } => SpecToken::End { name: name@ },
            Token::Text { content } => SpecToken::Text { content: content@ },
            Token::Skip => SpecToken::Skip,
        }
    }
}

/// Index of the first whitespace character at or after `from`; `s.len()`
/// when there is none.
pub open spec fn find_space(s: Seq<char>, from: int) -> int
    decreases s.len() - from,
{
    if from < 0 || from >= s.len() {
        s.len() as int
    } else if is_space(s[from]) {
        from
    } else {
        find_space(s, from + 1)
    }
}

proof fn lemma_find_space(s: Seq<char>, from: int)
    requires
        0 <= from <= s.len(),
    ensures
        from <= find_space(s, from) <= s.len(),
        find_space(s, from) < s.len() ==> is_space(s[find_space(s, from)]),
        forall|k: int| from <= k < find_space(s, from) ==> !is_space(s[k]),
    decreases s.len() - from,
{
    if from < s.len() && !is_space(s[from]) {
        lemma_find_space(s, from + 1);
    }
}

/// First whitespace character at or after `from`.
fn find_space_exec(s: &str, from: usize) -> (r: usize)
    requires
        from <= s@.len(),
    ensures
        r == find_space(s@, from as int),
        from <= r <= s@.len(),
{
    proof {
        lemma_find_space(s@, from as int);
    }
    let n = s.unicode_len();
    let mut i = from;
    while i < n
        invariant
            from <= i <= n,
            n == s@.len(),
            find_space(s@, from as int) == find_space(s@, i as int),
        decreases n - i,
    {
        if is_space_exec(s.get_char(i)) {
            return i;
        }
        i = i + 1;
    }
    i
}

/// The attributes written in a tag's interior from position `p` on:
/// `name='value'` or `name="value"` groups, names trimmed, values decoded.
/// A malformed tail (no `'='`, an unquoted or unterminated value) ends the
/// list.
pub open spec fn spec_parse_attrs(inner: Seq<char>, p: int) -> Seq<(Seq<char>, Seq<char>)>
    decreases inner.len() - p,
    via spec_parse_attrs_decreases
{
    if p < 0 || p >= inner.len() {
        Seq::empty()
    } else {
        let q = skip_spaces(inner, p);
        if q >= inner.len() {
            Seq::empty()
        } else {
            let eqpos = find_from(inner, q, '=');
            if eqpos == inner.len() {
                Seq::empty()
            } else {
                let name = spec_trim(inner.subrange(q, eqpos));
                let qs = skip_spaces(inner, eqpos + 1);
                if qs >= inner.len() {
                    Seq::empty()
                } else {
                    let qc = inner[qs];
                    if qc == '\'' || qc == '"' {
                        let vend = find_from(inner, qs + 1, qc);
                        if vend == inner.len() {
                            Seq::empty()
                        } else {
                            seq![(name, spec_unescape(inner.subrange(qs + 1, vend)))]
                                + spec_parse_attrs(inner, vend + 1)
                        }
                    } else {
                        Seq::empty()
                    }
                }
            }
        }
    }
}

#[via_fn]
proof fn spec_parse_attrs_decreases(inner: Seq<char>, p: int) {
    if 0 <= p < inner.len() {
        lemma_skip_spaces(inner, p);
        let q = skip_spaces(inner, p);
        if q < inner.len() {
            lemma_find_from(inner, q, '=');
            let eqpos = find_from(inner, q, '=');
            if eqpos < inner.len() {
                lemma_skip_spaces(inner, eqpos + 1);
                let qs = skip_spaces(inner, eqpos + 1);
                if qs < inner.len() {
                    lemma_find_from(inner, qs + 1, inner[qs]);
                }
            }
        }
    }
}

/// The token that begins at `i` and the index just past it; nothing when the
/// fragment never closes (an unterminated tag, character-data section or
/// comment), which fails the whole parse.
pub open spec fn spec_next_token(s: Seq<char>, i: int) -> Option<(SpecToken, int)> {
    if s[i] != '<' {
        let j = find_from(s, i, '<');
        Some((SpecToken::Text { content: spec_unescape(spec_trim(s.subrange(i, j))) }, j))
    } else if matches_at(s, i, cdata_open()) {
        let e = find_sub(s, i + 9, cdata_close());
        if e == s.len() {
            None
        } else {
            Some((SpecToken::Text { content: s.subrange(i + 9, e) }, e + 3))
        }
    } else if matches_at(s, i, comment_open()) {
        let e = find_sub(s, i + 4, comment_close());
        if e == s.len() {
            None
        } else {
            Some((SpecToken::Skip, e + 3))
        }
    } else if i + 1 < s.len() && s[i + 1] == '?' {
        let e = find_from(s, i, '>');
        if e == s.len() {
            None
        } else {
            Some((SpecToken::Skip, e + 1))
        }
    } else if i + 1 < s.len() && s[i + 1] == '/' {
        let e = find_from(s, i, '>');
        if e == s.len() {
            None
        } else {
            Some((SpecToken::End { name: spec_trim(s.subrange(i + 2, e)) }, e + 1))
        }
    } else {
        let e = find_from(s, i, '>');
        if e == s.len() {
            None
        } else {
            let inner = s.subrange(i + 1, e);
            if inner.len() > 0 && inner.last() == '/' {
                Some((SpecToken::Skip, e + 1))
            } else {
                let w = find_space(inner, 0);
                Some(
                    (
                        SpecToken::Start {
                            name: inner.subrange(0, w),
                            attrs: spec_parse_attrs(inner, w),
                        },
                        e + 1,
                    ),
                )
            }
        }
    }
}

/// The opener of a character-data section.
pub open spec fn cdata_open() -> Seq<char> {
    seq!['<', '!', '[', 'C', 'D', 'A', 'T', 'A', '[']
}

/// The closer of a character-data section.
pub open spec fn cdata_close() -> Seq<char> {
    seq![']', ']', '>']
}

/// The opener of a comment.
pub open spec fn comment_open() -> Seq<char> {
    seq!['<', '!', '-', '-']
}

/// The closer of a comment.
pub open spec fn comment_close() -> Seq<char> {
    seq!['-', '-', '>']
}

/// Every token ends past where it starts and within the text.
proof fn lemma_next_token_progress(s: Seq<char>, i: int)
    requires
        0 <= i < s.len(),
    ensures
        spec_next_token(s, i) matches Some((t, j)) ==> i < j <= s.len(),
{
    if s[i] != '<' {
        lemma_find_from(s, i, '<');
    } else if matches_at(s, i, cdata_open()) {
        lemma_find_sub(s, i + 9, cdata_close());
    } else if matches_at(s, i, comment_open()) {
        lemma_find_sub(s, i + 4, comment_close());
    } else {
        lemma_find_from(s, i, '>');
    }
}

/// The token beginning at `i`, or the malformed-structure failure.
fn next_token(s: &str, i: usize) -> (r: Result<(Token, usize), ()>)
    requires
        i < s@.len(),
    ensures
        r matches Ok((t, j)) ==> spec_next_token(s@, i as int) == Some((t.deep_view(), j as int))
            && i < j <= s@.len(),
        r is Err ==> spec_next_token(s@, i as int) is None,
{
    proof {
        lemma_next_token_progress(s@, i as int);
        reveal_strlit("<![CDATA[");
        reveal_strlit("]]>");
        reveal_strlit("<!--");
        reveal_strlit("-->");
        assert("<![CDATA["@ =~= cdata_open());
        assert("]]>"@ =~= cdata_close());
        assert("<!--"@ =~= comment_open());
        assert("-->"@ =~= comment_close());
    }
    let n = s.unicode_len();
    if s.get_char(i) != '<' {
        let j = find_char(s, i, '<');
        let trimmed = trim_range(s, i, j);
        let content = unescape(trimmed.as_str());
        return Ok((Token::Text { content }, j));
    }
    if matches_at_exec(s, i, "<![CDATA[") {
        let e = find_pat(s, i + 9, "]]>");
        if e == n {
            return Err(());
        }
        let content = String::from_str(s.substring_char(i + 9, e));
        return Ok((Token::Text { content }, e + 3));
    }
    if matches_at_exec(s, i, "<!--") {
        let e = find_pat(s, i + 4, "-->");
        if e == n {
            return Err(());
        }
        return Ok((Token::Skip, e + 3));
    }
    if i + 1 < n && s.get_char(i + 1) == '?' {
        let e = find_char(s, i, '>');
        if e == n {
            return Err(());
        }
        return Ok((Token::Skip, e + 1));
    }
    if i + 1 < n && s.get_char(i + 1) == '/' {
        let e = find_char(s, i, '>');
        if e == n {
            return Err(());
        }
        proof {
            lemma_find_from(s@, i as int, '>');
            assert(s@[i as int] != '>' && s@[i + 1] != '>');
            assert(e >= i + 2);
        }
        let name = trim_range(s, i + 2, e);
        return Ok((Token::End { name }, e + 1));
    }
    let e = find_char(s, i, '>');
    if e == n {
        return Err(());
    }
    proof {
        lemma_find_from(s@, i as int, '>');
        assert(s@[i as int] != '>');
        assert(e >= i + 1);
    }
    let inner = s.substring_char(i + 1, e);
    let m = inner.unicode_len();
    proof {
        assert(inner@ == s@.subrange(i + 1, e as int));
    }
    if m > 0 && inner.get_char(m - 1) == '/' {
        return Ok((Token::Skip, e + 1));
    }
    let w = find_space_exec(inner, 0);
    let name = String::from_str(inner.substring_char(0, w));
    let attrs = parse_attrs_from(inner, w);
    Ok((Token::Start { name, attrs }, e + 1))
}

/// The attributes written in a tag's interior from position `w` on.
fn parse_attrs_from(inner: &str, w: usize) -> (r: Vec<(String, String)>)
    requires
        w <= inner@.len(),
    ensures
        r.deep_view() == spec_parse_attrs(inner@, w as int),
{
    let n = inner.unicode_len();
    let mut out: Vec<(String, String)> = Vec::new();
    let mut p: usize = w;
    proof {
        assert(out.deep_view() =~= Seq::<(Seq<char>, Seq<char>)>::empty());
        if p >= n {
            assert(out.deep_view() =~= spec_parse_attrs(inner@, w as int));
        }
    }
    while p < n
        invariant
            p <= n,
            n == inner@.len(),
            out.deep_view() + spec_parse_attrs(inner@, p as int) =~= spec_parse_attrs(
                inner@,
                w as int,
            ),
        decreases n - p,
    {
        let q = skip_spaces_exec(inner, p);
        if q >= n {
            proof {
                assert(spec_parse_attrs(inner@, p as int) =~= Seq::<
                    (Seq<char>, Seq<char>),
                >::empty());
            }
            return out;
        }
        let eqpos = find_char(inner, q, '=');
        if eqpos == n {
            proof {
                assert(spec_parse_attrs(inner@, p as int) =~= Seq::<
                    (Seq<char>, Seq<char>),
                >::empty());
            }
            return out;
        }
        let name = trim_range(inner, q, eqpos);
        let qs = skip_spaces_exec(inner, eqpos + 1);
        if qs >= n {
            proof {
                assert(spec_parse_attrs(inner@, p as int) =~= Seq::<
                    (Seq<char>, Seq<char>),
                >::empty());
            }
            return out;
        }
        let qc = inner.get_char(qs);
        if qc != '\'' && qc != '"' {
            proof {
                assert(spec_parse_attrs(inner@, p as int) =~= Seq::<
                    (Seq<char>, Seq<char>),
                >::empty());
            }
            return out;
        }
        let vend = find_char(inner, qs + 1, qc);
        if vend == n {
            proof {
                assert(spec_parse_attrs(inner@, p as int) =~= Seq::<
                    (Seq<char>, Seq<char>),
                >::empty());
            }
            return out;
        }
        let value = unescape(inner.substring_char(qs + 1, vend));
        let ghost prev = out.deep_view();
        out.push((name, value));
        proof {
            assert(out.deep_view() =~= prev.push(
                (
                    spec_trim(inner@.subrange(q as int, eqpos as int)),
                    spec_unescape(inner@.subrange(qs + 1, vend as int)),
                ),
            ));
            assert(out.deep_view() + spec_parse_attrs(inner@, vend + 1) =~= spec_parse_attrs(
                inner@,
                w as int,
            ));
        }
        p = vend + 1;
    }
    out
}

/// The tokens of `s` from `i` on; nothing when some fragment never closes.
pub open spec fn spec_tokenize_from(s: Seq<char>, i: int) -> Option<Seq<SpecToken>>
    decreases s.len() - i,
    via spec_tokenize_from_decreases
{
    if i < 0 || i >= s.len() {
        Some(Seq::empty())
    } else {
        match spec_next_token(s, i) {
            None => None,
            Some((t, j)) => match spec_tokenize_from(s, j) {
                None => None,
                Some(rest) => Some(seq![t] + rest),
            },
        }
    }
}

#[via_fn]
proof fn spec_tokenize_from_decreases(s: Seq<char>, i: int) {
    if 0 <= i < s.len() {
        lemma_next_token_progress(s, i);
    }
}

/// The token stream of `s`, as one forward scan produces it.
pub open spec fn spec_tokenize(s: Seq<char>) -> Option<Seq<SpecToken>> {
    spec_tokenize_from(s, 0)
}

/// Tokenizes `s`; a fragment that never closes fails the whole parse.
pub fn tokenize(s: &str) -> (r: Result<
    Vec<Token>,
    AppError,
>)
    ensures
        (r matches Ok(ts) ==> spec_tokenize(s@) == Some(ts.deep_view())),
        (r matches Err(e) ==> e == AppError::PatchFormatError && (spec_tokenize(s@) is None)),
{
    let n = s.unicode_len();
    let mut toks: Vec<Token> = Vec::new();
    let mut i: usize = 0;
    proof {
        assert(toks.deep_view() =~= Seq::<SpecToken>::empty());
        if n == 0 {
            assert(spec_tokenize_from(s@, 0) == Some(toks.deep_view() + Seq::<
                SpecToken,
            >::empty()));
        }
    }
    while i < n
        invariant
            i <= n,
            n == s@.len(),
            ((spec_tokenize_from(s@, i as int) is Some) ==> spec_tokenize(s@) == Some(
                toks.deep_view() + spec_tokenize_from(s@, i as int).unwrap(),
            )),
            ((spec_tokenize_from(s@, i as int) is None) ==> (spec_tokenize(s@) is None)),
        decreases n - i,
    {
        let ghost prev = toks.deep_view();
        match next_token(s, i) {
            Err(()) => {
                proof {
                    assert(spec_tokenize_from(s@, i as int) is None);
                }
                return Err(AppError::PatchFormatError);
            },
            Ok((t, j)) => {
                let ghost tv = t.deep_view();
                toks.push(t);
                proof {
                    assert(toks.deep_view() =~= prev.push(tv));
                    if spec_tokenize_from(s@, j as int) is Some {
                        let rest = spec_tokenize_from(s@, j as int).unwrap();
                        assert(spec_tokenize_from(s@, i as int) == Some(seq![tv] + rest));
                        assert(prev + (seq![tv] + rest) =~= toks.deep_view() + rest);
                    }
                }
                i = j;
            },
        }
    }
    proof {
        assert(spec_tokenize_from(s@, i as int) == Some(Seq::<SpecToken>::empty()));
        assert(toks.deep_view() + Seq::<SpecToken>::empty() =~= toks.deep_view());
    }
    Ok(toks)
}


/// The tag names of the vocabulary.
pub open spec fn file_tag() -> Seq<char> {
    seq!['f', 'i', 'l', 'e']
}

pub open spec fn new_file_tag() -> Seq<char> {
    seq!['n', 'e', 'w', '_', 'f', 'i', 'l', 'e']
}

pub open spec fn part_tag() -> Seq<char> {
    seq!['p', 'a', 'r', 't']
}

pub open spec fn response_tag() -> Seq<char> {
    seq!['r', 'e', 's', 'p', 'o', 'n', 's', 'e']
}

pub open spec fn parts_to_edit_tag() -> Seq<char> {
    seq!['p', 'a', 'r', 't', 's', '_', 't', 'o', '_', 'e', 'd', 'i', 't']
}

pub open spec fn preprocessor_prompt_tag() -> Seq<char> {
    seq![
        'p', 'r', 'e', 'p', 'r', 'o', 'c', 'e', 's', 's', 'o', 'r', '_', 'p', 'r', 'o', 'm',
        'p', 't',
    ]
}

pub open spec fn path_attr() -> Seq<char> {
    seq!['p', 'a', 't', 'h']
}

pub open spec fn id_attr() -> Seq<char> {
    seq!['i', 'd']
}

/// The id a part attribute denotes: its decimal value, or the sentinel `0`
/// for anything unparseable.
pub open spec fn id_or_sentinel(v: Seq<char>) -> nat {
    match spec_parse_usize(v) {
        Some(x) => x,
        None => 0,
    }
}

/// The parser's state between tokens: the open file path, the parts
/// collected so far, whether the scan stands inside the commentary
/// container, and everything already emitted.
#[verifier::ext_equal]
pub struct SpecParseState {
    pub path: Option<Seq<char>>,
    pub parts: Seq<(nat, Seq<char>)>,
    pub in_response: bool,
    pub updated: Seq<SpecUpdatedFile>,
    pub created: Seq<SpecNewFile>,
    pub response: Seq<char>,
}

/// The state before any token: idle.
pub open spec fn init_state() -> SpecParseState {
    SpecParseState {
        path: None,
        parts: Seq::empty(),
        in_response: false,
        updated: Seq::empty(),
        created: Seq::empty(),
        response: Seq::empty(),
    }
}

/// The `path` attributes of a file tag applied to the state, in order.
pub open spec fn spec_apply_file_attrs(
    st: SpecParseState,
    attrs: Seq<(Seq<char>, Seq<char>)>,
    k: int,
) -> SpecParseState
    decreases attrs.len() - k,
{
    if k < 0 || k >= attrs.len() {
        st
    } else {
        let st1 = if attrs[k].0 == path_attr() {
            SpecParseState { path: Some(attrs[k].1), ..st }
        } else {
            st
        };
        spec_apply_file_attrs(st1, attrs, k + 1)
    }
}

/// Each `id` attribute of a part tag opens one collected part.
pub open spec fn spec_apply_part_attrs(
    st: SpecParseState,
    attrs: Seq<(Seq<char>, Seq<char>)>,
    k: int,
) -> SpecParseState
    decreases attrs.len() - k,
{
    if k < 0 || k >= attrs.len() {
        st
    } else {
        let st1 = if attrs[k].0 == id_attr() {
            SpecParseState {
                parts: st.parts.push((id_or_sentinel(attrs[k].1), Seq::<char>::empty())),
                ..st
            }
        } else {
            st
        };
        spec_apply_part_attrs(st1, attrs, k + 1)
    }
}

/// The collected parts as emitted parts.
pub open spec fn emit_parts(parts: Seq<(nat, Seq<char>)>) -> Seq<SpecPart> {
    parts.map_values(|p: (nat, Seq<char>)| SpecPart { part_id: p.0, content: p.1 })
}

/// The collected parts' contents joined, for a new file's body or the
/// commentary.
pub open spec fn emit_content(parts: Seq<(nat, Seq<char>)>) -> Seq<char> {
    spec_join(parts.map_values(|p: (nat, Seq<char>)| p.1))
}

/// One token applied to the parser state.
pub open spec fn spec_step(st: SpecParseState, t: SpecToken) -> SpecParseState {
    match t {
        SpecToken::Start { name, attrs } => {
            if name == file_tag() || name == new_file_tag() {
                spec_apply_file_attrs(st, attrs, 0)
            } else if name == part_tag() {
                if st.in_response {
                    SpecParseState { parts: st.parts.push((0 as nat, Seq::<char>::empty())), ..st }
                } else {
                    spec_apply_part_attrs(st, attrs, 0)
                }
            } else if name == response_tag() {
                SpecParseState {
                    in_response: true,
                    parts: seq![(0 as nat, Seq::<char>::empty())],
                    ..st
                }
            } else if name == parts_to_edit_tag() || name == preprocessor_prompt_tag() {
                SpecParseState { path: None, parts: Seq::empty(), ..st }
            } else {
                st
            }
        },
        SpecToken::Text { content } => {
            if st.parts.len() > 0 {
                let last = st.parts.last();
                SpecParseState {
                    parts: st.parts.update(st.parts.len() - 1, (last.0, last.1 + content)),
                    ..st
                }
            } else {
                st
            }
        },
        SpecToken::End { name } => {
            if name == file_tag() {
                match st.path {
                    Some(p) => SpecParseState {
                        path: None,
                        parts: Seq::empty(),
                        updated: st.updated.push(
                            SpecUpdatedFile { file_path: p, parts: emit_parts(st.parts) },
                        ),
                        ..st
                    },
                    None => st,
                }
            } else if name == new_file_tag() {
                match st.path {
                    Some(p) => SpecParseState {
                        path: None,
                        parts: Seq::empty(),
                        created: st.created.push(
                            SpecNewFile { file_path: p, content: emit_content(st.parts) },
                        ),
                        ..st
                    },
                    None => st,
                }
            } else if name == response_tag() {
                SpecParseState {
                    in_response: false,
                    parts: Seq::empty(),
                    response: emit_content(st.parts),
                    ..st
                }
            } else if name == parts_to_edit_tag() {
                SpecParseState { path: None, ..st }
            } else if name == preprocessor_prompt_tag() {
                SpecParseState { parts: Seq::empty(), ..st }
            } else {
                st
            }
        },
        SpecToken::Skip => st,
    }
}

/// The parser state after the first `n` tokens.
pub open spec fn spec_fold(tokens: Seq<SpecToken>, n: int) -> SpecParseState
    decreases n,
{
    if n <= 0 {
        init_state()
    } else {
        spec_step(spec_fold(tokens, n - 1), tokens[n - 1])
    }
}

/// What parsing a response yields: the normalized result when the text
/// tokenizes, nothing otherwise.
pub open spec fn spec_parse_response(s: Seq<char>) -> Option<SpecResponse> {
    match spec_tokenize(s) {
        None => None,
        Some(toks) => {
            let st = spec_fold(toks, toks.len() as int);
            Some(
                SpecResponse {
                    updated_files: st.updated,
                    new_files: st.created,
                    response: st.response,
                },
            )
        },
    }
}


/// The collected parts of the executable parser as their mathematical value.
pub open spec fn parts_view(ps: Seq<(usize, String)>) -> Seq<(nat, Seq<char>)> {
    ps.map_values(|p: (usize, String)| (p.0 as nat, p.1@))
}

/// The executable parser's state between tokens.
pub struct ParseState {
    pub path: Option<String>,
    pub parts: Vec<(usize, String)>,
    pub in_response: bool,
    pub updated: Vec<UpdatedFile>,
    pub created: Vec<NewFile>,
    pub response: String,
}

impl View for ParseState {
    type V = SpecParseState;

    open spec fn view(&self) -> SpecParseState {
        SpecParseState {
            path: self.path.deep_view(),
            parts: parts_view(self.parts@),
            in_response: self.in_response,
            updated: self.updated.deep_view(),
            created: self.created.deep_view(),
            response: self.response@,
        }
    }
}

impl ParseState {
    /// The idle state.
    pub fn new() -> (r: ParseState)
        ensures
            r@ == init_state(),
    {
        let r = ParseState {
            path: None,
            parts: Vec::new(),
            in_response: false,
            updated: Vec::new(),
            created: Vec::new(),
            response: String::new(),
        };
        proof {
            assert(r@ =~= init_state());
        }
        r
    }
}

/// The collected parts as emitted parts.
fn emit_parts_exec(parts: &Vec<(usize, String)>) -> (r: Vec<FilePart>)
    ensures
        r.deep_view() == emit_parts(parts_view(parts@)),
{
    let mut out: Vec<FilePart> = Vec::new();
    let mut k: usize = 0;
    while k < parts.len()
        invariant
            k <= parts@.len(),
            out.deep_view() =~= emit_parts(parts_view(parts@)).take(k as int),
        decreases parts@.len() - k,
    {
        let ghost prev = out.deep_view();
        out.push(FilePart { part_id: parts[k].0, content: parts[k].1.clone() });
        proof {
            assert(out.deep_view() =~= prev.push(
                SpecPart { part_id: parts@[k as int].0 as nat, content: parts@[k as int].1@ },
            ));
            assert(emit_parts(parts_view(parts@)).take(k + 1) =~= emit_parts(
                parts_view(parts@),
            ).take(k as int).push(emit_parts(parts_view(parts@))[k as int]));
        }
        k = k + 1;
    }
    proof {
        assert(emit_parts(parts_view(parts@)).take(parts@.len() as int) =~= emit_parts(
            parts_view(parts@),
        ));
    }
    out
}

/// The collected parts' contents joined.
fn emit_content_exec(parts: &Vec<(usize, String)>) -> (r: String)
    ensures
        r@ == emit_content(parts_view(parts@)),
{
    let mut contents: Vec<String> = Vec::new();
    let mut k: usize = 0;
    while k < parts.len()
        invariant
            k <= parts@.len(),
            contents@.map_values(|l: String| l@) =~= parts_view(parts@).map_values(
                |p: (nat, Seq<char>)| p.1,
            ).take(k as int),
        decreases parts@.len() - k,
    {
        let ghost prev = contents@;
        contents.push(parts[k].1.clone());
        proof {
            assert(contents@.map_values(|l: String| l@) =~= prev.map_values(
                |l: String| l@,
            ).push(parts@[k as int].1@));
            let target = parts_view(parts@).map_values(|p: (nat, Seq<char>)| p.1);
            assert(target.take(k + 1) =~= target.take(k as int).push(target[k as int]));
        }
        k = k + 1;
    }
    proof {
        let target = parts_view(parts@).map_values(|p: (nat, Seq<char>)| p.1);
        assert(target.take(parts@.len() as int) =~= target);
    }
    join_lines(&contents)
}

/// One token applied to the executable parser's state, exactly as
/// [`spec_step`] says.
fn step(st: &mut ParseState, t: &Token)
    ensures
        final(st)@ == spec_step(old(st)@, t.deep_view()),
{
    let ghost st0 = st@;
    let ghost tv = t.deep_view();
    proof {
        reveal_strlit("file");
        reveal_strlit("new_file");
        reveal_strlit("part");
        reveal_strlit("response");
        reveal_strlit("parts_to_edit");
        reveal_strlit("preprocessor_prompt");
        reveal_strlit("path");
        reveal_strlit("id");
        assert("file"@ =~= file_tag());
        assert("new_file"@ =~= new_file_tag());
        assert("part"@ =~= part_tag());
        assert("response"@ =~= response_tag());
        assert("parts_to_edit"@ =~= parts_to_edit_tag());
        assert("preprocessor_prompt"@ =~= preprocessor_prompt_tag());
        assert("path"@ =~= path_attr());
        assert("id"@ =~= id_attr());
    }
    let file_w = String::from_str("file");
    let new_file_w = String::from_str("new_file");
    let part_w = String::from_str("part");
    let response_w = String::from_str("response");
    let pte_w = String::from_str("parts_to_edit");
    let pp_w = String::from_str("preprocessor_prompt");
    let path_w = String::from_str("path");
    let id_w = String::from_str("id");
    match t {
        Token::Start { name, attrs } => {
            if name.eq(&file_w) || name.eq(&new_file_w) {
                let ghost attrsv = attrs.deep_view();
                let mut a: usize = 0;
                while a < attrs.len()
                    invariant
                        a <= attrs@.len(),
                        attrsv == attrs.deep_view(),
                        attrsv.len() == attrs@.len(),
                        path_w@ == path_attr(),
                        st.parts == old(st).parts,
                        st.in_response == old(st).in_response,
                        st.updated == old(st).updated,
                        st.created == old(st).created,
                        st.response == old(st).response,
                        spec_apply_file_attrs(st@, attrsv, a as int) == spec_apply_file_attrs(
                            st0,
                            attrsv,
                            0,
                        ),
                    decreases attrs@.len() - a,
                {
                    proof {
                        assert(attrsv[a as int].0 == attrs@[a as int].0@);
                        assert(attrsv[a as int].1 == attrs@[a as int].1@);
                    }
                    let ghost stpre = st@;
                    if attrs[a].0.eq(&path_w) {
                        st.path = Some(attrs[a].1.clone());
                        proof {
                            assert(st@ =~= (SpecParseState {
                                path: Some(attrsv[a as int].1),
                                ..stpre
                            }));
                        }
                    }
                    a = a + 1;
                }
                proof {
                    assert(spec_apply_file_attrs(st@, attrsv, attrsv.len() as int) == st@);
                    assert(st@ == spec_step(st0, tv));
                }
            } else if name.eq(&part_w) {
                if st.in_response {
                    let ghost stpre = st@;
                    st.parts.push((0, String::new()));
                    proof {
                        assert(parts_view(st.parts@) =~= stpre.parts.push(
                            (0 as nat, Seq::<char>::empty()),
                        ));
                        assert(st@ =~= spec_step(st0, tv));
                    }
                } else {
                    let ghost attrsv = attrs.deep_view();
                    let mut a: usize = 0;
                    while a < attrs.len()
                        invariant
                            a <= attrs@.len(),
                            attrsv == attrs.deep_view(),
                            attrsv.len() == attrs@.len(),
                            id_w@ == id_attr(),
                            st.path == old(st).path,
                            st.in_response == old(st).in_response,
                            !st.in_response,
                            st.updated == old(st).updated,
                            st.created == old(st).created,
                            st.response == old(st).response,
                            spec_apply_part_attrs(st@, attrsv, a as int) == spec_apply_part_attrs(
                                st0,
                                attrsv,
                                0,
                            ),
                        decreases attrs@.len() - a,
                    {
                        proof {
                            assert(attrsv[a as int].0 == attrs@[a as int].0@);
                            assert(attrsv[a as int].1 == attrs@[a as int].1@);
                        }
                        let ghost stpre = st@;
                        if attrs[a].0.eq(&id_w) {
                            let id = match parse_usize(attrs[a].1.as_str()) {
                                Some(x) => x,
                                None => 0,
                            };
                            proof {
                                assert(id as nat == id_or_sentinel(attrsv[a as int].1));
                            }
                            st.parts.push((id, String::new()));
                            proof {
                                assert(parts_view(st.parts@) =~= stpre.parts.push(
                                    (id as nat, Seq::<char>::empty()),
                                ));
                                assert(st@ =~= (SpecParseState {
                                    parts: stpre.parts.push(
                                        (id_or_sentinel(attrsv[a as int].1), Seq::<char>::empty()),
                                    ),
                                    ..stpre
                                }));
                            }
                        }
                        a = a + 1;
                    }
                    proof {
                        assert(spec_apply_part_attrs(st@, attrsv, attrsv.len() as int) == st@);
                        assert(st@ == spec_step(st0, tv));
                    }
                }
            } else if name.eq(&response_w) {
                st.in_response = true;
                st.parts = Vec::new();
                st.parts.push((0, String::new()));
                proof {
                    assert(parts_view(st.parts@) =~= seq![(0 as nat, Seq::<char>::empty())]);
                    assert(st@ =~= spec_step(st0, tv));
                }
            } else if name.eq(&pte_w) || name.eq(&pp_w) {
                st.path = None;
                st.parts = Vec::new();
                proof {
                    assert(parts_view(st.parts@) =~= Seq::<(nat, Seq<char>)>::empty());
                    assert(st@ =~= spec_step(st0, tv));
                }
            } else {
                proof {
                    assert(st@ =~= spec_step(st0, tv));
                }
            }
        },
        Token::Text { content } => {
            if st.parts.len() > 0 {
                let k = st.parts.len() - 1;
                let ghost stpre = st@;
                let last = st.parts.remove(k);
                let mut grown = last.1;
                grown.append(content.as_str());
                st.parts.push((last.0, grown));
                proof {
                    let lastv = stpre.parts.last();
                    assert(st.parts@ =~= old(st).parts@.subrange(
                        0,
                        k as int,
                    ).push((old(st).parts@[k as int].0, old(st).parts@[k as int].1)).update(
                        k as int,
                        st.parts@[k as int],
                    ));
                    assert(parts_view(st.parts@) =~= stpre.parts.update(
                        stpre.parts.len() - 1,
                        (lastv.0, lastv.1 + content@),
                    ));
                    assert(st@ =~= spec_step(st0, tv));
                }
            } else {
                proof {
                    assert(st@ =~= spec_step(st0, tv));
                }
            }
        },
        Token::End { name } => {
            if name.eq(&file_w) {
                match &st.path {
                    Some(_) => {
                        let p = match &st.path {
                            Some(p) => p.clone(),
                            None => String::new(),
                        };
                        st.path = None;
                        let emitted = emit_parts_exec(&st.parts);
                        let ghost uprev = st.updated.deep_view();
                        st.updated.push(UpdatedFile { file_path: p, parts: emitted });
                        st.parts = Vec::new();
                        proof {
                            assert(st.updated.deep_view() =~= uprev.push(
                                SpecUpdatedFile {
                                    file_path: st0.path.unwrap(),
                                    parts: emit_parts(st0.parts),
                                },
                            ));
                            assert(parts_view(st.parts@) =~= Seq::<(nat, Seq<char>)>::empty());
                            assert(st@ =~= spec_step(st0, tv));
                        }
                    },
                    None => {
                        proof {
                            assert(st@ =~= spec_step(st0, tv));
                        }
                    },
                }
            } else if name.eq(&new_file_w) {
                match &st.path {
                    Some(_) => {
                        let p = match &st.path {
                            Some(p) => p.clone(),
                            None => String::new(),
                        };
                        st.path = None;
                        let content = emit_content_exec(&st.parts);
                        let ghost cprev = st.created.deep_view();
                        st.created.push(NewFile { file_path: p, content });
                        st.parts = Vec::new();
                        proof {
                            assert(st.created.deep_view() =~= cprev.push(
                                SpecNewFile {
                                    file_path: st0.path.unwrap(),
                                    content: emit_content(st0.parts),
                                },
                            ));
                            assert(parts_view(st.parts@) =~= Seq::<(nat, Seq<char>)>::empty());
                            assert(st@ =~= spec_step(st0, tv));
                        }
                    },
                    None => {
                        proof {
                            assert(st@ =~= spec_step(st0, tv));
                        }
                    },
                }
            } else if name.eq(&response_w) {
                st.in_response = false;
                st.response = emit_content_exec(&st.parts);
                st.parts = Vec::new();
                proof {
                    assert(parts_view(st.parts@) =~= Seq::<(nat, Seq<char>)>::empty());
                    assert(st@ =~= spec_step(st0, tv));
                }
            } else if name.eq(&pte_w) {
                st.path = None;
                proof {
                    assert(st@ =~= spec_step(st0, tv));
                }
            } else if name.eq(&pp_w) {
                st.parts = Vec::new();
                proof {
                    assert(parts_view(st.parts@) =~= Seq::<(nat, Seq<char>)>::empty());
                    assert(st@ =~= spec_step(st0, tv));
                }
            } else {
                proof {
                    assert(st@ =~= spec_step(st0, tv));
                }
            }
        },
        Token::Skip => {
            proof {
                assert(st@ =~= spec_step(st0, tv));
            }
        },
    }
}

/// Parses a tag-form patch response into the normalized result: the replaced
/// parts per file, the wholly new files, and the free-text commentary.
/// Malformed fragments are skipped; text whose structure never closes fails
/// with the format error and yields nothing.
pub fn parse_response(text: &str) -> (r: Result<
    CodeAssistantResponse,
    AppError,
>)
    ensures
        (r matches Ok(cr) ==> spec_parse_response(text@) == Some(cr.deep_view())),
        (r matches Err(e) ==> e == AppError::PatchFormatError && (spec_parse_response(
            text@,
        ) is None)),
{
    let toks = match tokenize(text) {
        Ok(t) => t,
        Err(e) => {
            return Err(e);
        },
    };
    let ghost tv = toks.deep_view();
    let mut st = ParseState::new();
    let mut k: usize = 0;
    while k < toks.len()
        invariant
            k <= toks@.len(),
            tv == toks.deep_view(),
            tv.len() == toks@.len(),
            st@ == spec_fold(tv, k as int),
        decreases toks@.len() - k,
    {
        proof {
            assert(tv[k as int] == toks@[k as int].deep_view());
        }
        step(&mut st, &toks[k]);
        k = k + 1;
    }
    let out = CodeAssistantResponse {
        updated_files: st.updated,
        new_files: st.created,
        response: st.response,
    };
    proof {
        assert(out.deep_view() =~= (SpecResponse {
            updated_files: spec_fold(tv, tv.len() as int).updated,
            new_files: spec_fold(tv, tv.len() as int).created,
            response: spec_fold(tv, tv.len() as int).response,
        }));
    }
    Ok(out)
}


pub open spec fn parts_attr() -> Seq<char> {
    seq!['p', 'a', 'r', 't', 's']
}

/// The selection parser's state between tokens.
#[verifier::ext_equal]
pub struct SpecPteState {
    pub path: Option<Seq<char>>,
    pub ids: Seq<nat>,
    pub out: Seq<SpecFilePartIds>,
}

/// The state before any token.
pub open spec fn pte_init() -> SpecPteState {
    SpecPteState { path: None, ids: Seq::empty(), out: Seq::empty() }
}

/// The `path` and `parts` attributes of a file tag applied to the selection
/// parser's state, in order.
pub open spec fn spec_pte_attrs(
    st: SpecPteState,
    attrs: Seq<(Seq<char>, Seq<char>)>,
    k: int,
) -> SpecPteState
    decreases attrs.len() - k,
{
    if k < 0 || k >= attrs.len() {
        st
    } else {
        let st1 = if attrs[k].0 == path_attr() {
            SpecPteState { path: Some(attrs[k].1), ..st }
        } else if attrs[k].0 == parts_attr() {
            SpecPteState { ids: spec_split_ids(attrs[k].1, 0), ..st }
        } else {
            st
        };
        spec_pte_attrs(st1, attrs, k + 1)
    }
}

/// One token applied to the selection parser's state: a file tag carries the
/// path and its comma-separated part ids; its end tag emits one entry.
pub open spec fn spec_pte_step(st: SpecPteState, t: SpecToken) -> SpecPteState {
    match t {
        SpecToken::Start { name, attrs } => {
            if name == file_tag() {
                spec_pte_attrs(st, attrs, 0)
            } else {
                st
            }
        },
        SpecToken::End { name } => {
            if name == file_tag() {
                let out1 = match st.path {
                    Some(p) => st.out.push(SpecFilePartIds { file_path: p, parts: st.ids }),
                    None => st.out,
                };
                SpecPteState { path: None, ids: Seq::empty(), out: out1 }
            } else {
                st
            }
        },
        _ => st,
    }
}

/// The selection parser's state after the first `n` tokens.
pub open spec fn spec_pte_fold(tokens: Seq<SpecToken>, n: int) -> SpecPteState
    decreases n,
{
    if n <= 0 {
        pte_init()
    } else {
        spec_pte_step(spec_pte_fold(tokens, n - 1), tokens[n - 1])
    }
}

/// What parsing a parts-to-edit section yields: one entry per file tag, in
/// document order, when the text tokenizes; nothing otherwise.
pub open spec fn spec_parse_parts_to_edit(s: Seq<char>) -> Option<Seq<SpecFilePartIds>> {
    match spec_tokenize(s) {
        None => None,
        Some(toks) => Some(spec_pte_fold(toks, toks.len() as int).out),
    }
}

/// Parses the parts-to-edit section of a preprocessed prompt: which part ids
/// each file tag requests. A later entry for the same path supersedes an
/// earlier one at lookup time.
pub fn parse_parts_to_edit(text: &str) -> (r: Result<
    Vec<FilePartIds>,
    AppError,
>)
    ensures
        (r matches Ok(sel) ==> spec_parse_parts_to_edit(text@) == Some(sel.deep_view())),
        (r matches Err(e) ==> e == AppError::PatchFormatError && (spec_parse_parts_to_edit(
            text@,
        ) is None)),
{
    let toks = match tokenize(text) {
        Ok(t) => t,
        Err(e) => {
            return Err(e);
        },
    };
    let ghost tv = toks.deep_view();
    let mut path: Option<String> = None;
    let mut ids: Vec<usize> = Vec::new();
    let mut out: Vec<FilePartIds> = Vec::new();
    let mut k: usize = 0;
    proof {
        assert((SpecPteState {
            path: path.deep_view(),
            ids: ids@.map_values(|x: usize| x as nat),
            out: out.deep_view(),
        }) =~= pte_init());
    }
    while k < toks.len()
        invariant
            k <= toks@.len(),
            tv == toks.deep_view(),
            tv.len() == toks@.len(),
            (SpecPteState {
                path: path.deep_view(),
                ids: ids@.map_values(|x: usize| x as nat),
                out: out.deep_view(),
            }) == spec_pte_fold(tv, k as int),
        decreases toks@.len() - k,
    {
        let ghost st0 = spec_pte_fold(tv, k as int);
        proof {
            assert(tv[k as int] == toks@[k as int].deep_view());
            reveal_strlit("file");
            reveal_strlit("path");
            reveal_strlit("parts");
            assert("file"@ =~= file_tag());
            assert("path"@ =~= path_attr());
            assert("parts"@ =~= parts_attr());
        }
        let file_w = String::from_str("file");
        let path_w = String::from_str("path");
        let parts_w = String::from_str("parts");
        match &toks[k] {
            Token::Start { name, attrs } => {
                if name.eq(&file_w) {
                    let ghost attrsv = attrs.deep_view();
                    let mut a: usize = 0;
                    while a < attrs.len()
                        invariant
                            a <= attrs@.len(),
                            attrsv == attrs.deep_view(),
                            attrsv.len() == attrs@.len(),
                            path_w@ == path_attr(),
                            parts_w@ == parts_attr(),
                            out.deep_view() == st0.out,
                            spec_pte_attrs(
                                (SpecPteState {
                                    path: path.deep_view(),
                                    ids: ids@.map_values(|x: usize| x as nat),
                                    out: out.deep_view(),
                                }),
                                attrsv,
                                a as int,
                            ) == spec_pte_attrs(st0, attrsv, 0),
                        decreases attrs@.len() - a,
                    {
                        proof {
                            assert(attrsv[a as int].0 == attrs@[a as int].0@);
                            assert(attrsv[a as int].1 == attrs@[a as int].1@);
                        }
                        let ghost stpre = SpecPteState {
                            path: path.deep_view(),
                            ids: ids@.map_values(|x: usize| x as nat),
                            out: out.deep_view(),
                        };
                        if attrs[a].0.eq(&path_w) {
                            path = Some(attrs[a].1.clone());
                            proof {
                                assert((SpecPteState {
                                    path: path.deep_view(),
                                    ids: ids@.map_values(|x: usize| x as nat),
                                    out: out.deep_view(),
                                }) =~= (SpecPteState {
                                    path: Some(attrsv[a as int].1),
                                    ..stpre
                                }));
                            }
                        } else if attrs[a].0.eq(&parts_w) {
                            ids = split_ids(attrs[a].1.as_str());
                            proof {
                                assert((SpecPteState {
                                    path: path.deep_view(),
                                    ids: ids@.map_values(|x: usize| x as nat),
                                    out: out.deep_view(),
                                }) =~= (SpecPteState {
                                    ids: spec_split_ids(attrsv[a as int].1, 0),
                                    ..stpre
                                }));
                            }
                        }
                        a = a + 1;
                    }
                    proof {
                        let cur = SpecPteState {
                            path: path.deep_view(),
                            ids: ids@.map_values(|x: usize| x as nat),
                            out: out.deep_view(),
                        };
                        assert(spec_pte_attrs(cur, attrsv, attrsv.len() as int) == cur);
                        assert(cur == spec_pte_step(st0, tv[k as int]));
                    }
                }
            },
            Token::End { name } => {
                if name.eq(&file_w) {
                    match &path {
                        Some(_) => {
                            let p = match &path {
                                Some(p) => p.clone(),
                                None => String::new(),
                            };
                            let ghost oprev = out.deep_view();
                            let taken_ids = ids;
                            out.push(FilePartIds { file_path: p, parts: taken_ids });
                            path = None;
                            ids = Vec::new();
                            proof {
                                assert(out.deep_view() =~= oprev.push(
                                    SpecFilePartIds { file_path: st0.path.unwrap(), parts: st0.ids },
                                ));
                                assert(ids@.map_values(|x: usize| x as nat) =~= Seq::<
                                    nat,
                                >::empty());
                            }
                        },
                        None => {
                            ids = Vec::new();
                            proof {
                                assert(ids@.map_values(|x: usize| x as nat) =~= Seq::<
                                    nat,
                                >::empty());
                            }
                        },
                    }
                }
            },
            _ => {},
        }
        proof {
            assert((SpecPteState {
                path: path.deep_view(),
                ids: ids@.map_values(|x: usize| x as nat),
                out: out.deep_view(),
            }) =~= spec_pte_step(st0, tv[k as int]));
        }
        k = k + 1;
    }
    proof {
        assert(out.deep_view() == spec_pte_fold(tv, tv.len() as int).out);
    }
    Ok(out)
}


/// The selection a preprocessor reply denotes: per file, its part ids with
/// each unparseable id as the sentinel `0`, which selects nothing.
pub open spec fn spec_selection_of(pre: SpecPreprocessorResponse) -> Seq<SpecFilePartIds> {
    pre.parts_to_edit.map_values(
        |f: SpecFileParts|
            SpecFilePartIds {
                file_path: f.file_path,
                parts: f.parts.map_values(|p: Seq<char>| id_or_sentinel(p)),
            },
    )
}

/// Normalizes a structured preprocessor reply into the selector's shape:
/// both wire formats meet here.
pub fn selection_of_preprocessor(pre: &PreprocessorResponse) -> (r: Vec<FilePartIds>)
    ensures
        r.deep_view() == spec_selection_of(pre.deep_view()),
{
    let ghost pv = pre.deep_view();
    let mut out: Vec<FilePartIds> = Vec::new();
    let mut i: usize = 0;
    while i < pre.parts_to_edit.len()
        invariant
            i <= pre.parts_to_edit@.len(),
            pv == pre.deep_view(),
            pv.parts_to_edit.len() == pre.parts_to_edit@.len(),
            out.deep_view() =~= spec_selection_of(pv).take(i as int),
        decreases pre.parts_to_edit@.len() - i,
    {
        proof {
            assert(pv.parts_to_edit[i as int] == pre.parts_to_edit@[i as int].deep_view());
        }
        let f = &pre.parts_to_edit[i];
        let ghost fv = pv.parts_to_edit[i as int];
        let mut ids: Vec<usize> = Vec::new();
        let mut t: usize = 0;
        while t < f.parts.len()
            invariant
                t <= f.parts@.len(),
                i < pre.parts_to_edit@.len(),
                pv == pre.deep_view(),
                fv == pv.parts_to_edit[i as int],
                f == &pre.parts_to_edit[i as int],
                fv.parts.len() == f.parts@.len(),
                ids@.map_values(|x: usize| x as nat) =~= fv.parts.map_values(
                    |p: Seq<char>| id_or_sentinel(p),
                ).take(t as int),
            decreases f.parts@.len() - t,
        {
            proof {
                assert(fv.parts[t as int] == f.parts@[t as int]@);
            }
            let id = match parse_usize(f.parts[t].as_str()) {
                Some(x) => x,
                None => 0,
            };
            proof {
                assert(id as nat == id_or_sentinel(fv.parts[t as int]));
            }
            let ghost iprev = ids@;
            ids.push(id);
            proof {
                let target = fv.parts.map_values(|p: Seq<char>| id_or_sentinel(p));
                assert(ids@.map_values(|x: usize| x as nat) =~= iprev.map_values(
                    |x: usize| x as nat,
                ).push(id as nat));
                assert(target.take(t + 1) =~= target.take(t as int).push(target[t as int]));
            }
            t = t + 1;
        }
        proof {
            let target = fv.parts.map_values(|p: Seq<char>| id_or_sentinel(p));
            assert(target.take(f.parts@.len() as int) =~= target);
        }
        let ghost oprev = out.deep_view();
        out.push(FilePartIds { file_path: f.file_path.clone(), parts: ids });
        proof {
            assert(out.deep_view() =~= oprev.push(
                SpecFilePartIds {
                    file_path: fv.file_path,
                    parts: fv.parts.map_values(|p: Seq<char>| id_or_sentinel(p)),
                },
            ));
            assert(spec_selection_of(pv).take(i + 1) =~= spec_selection_of(pv).take(
                i as int,
            ).push(spec_selection_of(pv)[i as int]));
        }
        i = i + 1;
    }
    proof {
        assert(spec_selection_of(pv).take(pre.parts_to_edit@.len() as int) =~= spec_selection_of(
            pv,
        ));
    }
    out
}

} // verus!
