//! Splitting text into lines and joining lines back together.
//!
//! A line ends at `'\n'`; a trailing `'\r'` on a line is stripped, and text
//! that ends with `'\n'` produces no final empty line. Joining inserts a
//! single `'\n'` between lines. For text without carriage returns and without
//! a trailing newline the two operations are exact inverses.

use vstd::prelude::*;

use crate::scan::{find_char, find_from, lemma_find_from};

verus! {

/// `line` without its trailing carriage return, if it has one.
pub open spec fn strip_cr(line: Seq<char>) -> Seq<char> {
    if line.len() > 0 && line.last() == '\r' {
        line.drop_last()
    } else {
        line
    }
}

/// The lines of `s` starting at index `i`.
pub open spec fn spec_lines_from(s: Seq<char>, i: int) -> Seq<Seq<char>>
    decreases s.len() - i,
    via spec_lines_from_decreases
{
    if i < 0 || i >= s.len() {
        Seq::empty()
    } else {
        let j = find_from(s, i, '\n');
        if j == s.len() {
            seq![strip_cr(s.subrange(i, j))]
        } else {
            seq![strip_cr(s.subrange(i, j))] + spec_lines_from(s, j + 1)
        }
    }
}

#[via_fn]
proof fn spec_lines_from_decreases(s: Seq<char>, i: int) {
    if 0 <= i < s.len() {
        lemma_find_from(s, i, '\n');
    }
}

/// The lines of `s`, as `str::lines` produces them.
pub open spec fn spec_lines(s: Seq<char>) -> Seq<Seq<char>> {
    spec_lines_from(s, 0)
}

/// The lines joined with a single `'\n'` between them.
pub open spec fn spec_join(ls: Seq<Seq<char>>) -> Seq<char>
    decreases ls.len(),
{
    if ls.len() == 0 {
        Seq::empty()
    } else if ls.len() == 1 {
        ls[0]
    } else {
        ls[0] + seq!['\n'] + spec_join(ls.drop_first())
    }
}

/// Text on which splitting and joining are exact inverses: no carriage
/// returns and no trailing newline.
pub open spec fn normalized(s: Seq<char>) -> bool {
    (forall|k: int| 0 <= k < s.len() ==> s[k] != '\r') && (s.len() == 0 || s.last() != '\n')
}

proof fn lemma_join_lines_from(s: Seq<char>, i: int)
    requires
        0 <= i <= s.len(),
        normalized(s),
    ensures
        spec_join(spec_lines_from(s, i)) == s.subrange(i, s.len() as int),
    decreases s.len() - i,
{
    if i >= s.len() {
        assert(spec_join(spec_lines_from(s, i)) =~= s.subrange(i, s.len() as int));
    } else {
        let j = find_from(s, i, '\n');
        lemma_find_from(s, i, '\n');
        let first = strip_cr(s.subrange(i, j));
        assert(first =~= s.subrange(i, j));
        if j == s.len() {
            assert(spec_join(seq![first]) == first);
            assert(first =~= s.subrange(i, s.len() as int));
        } else {
            // The text has no trailing newline, so the newline at `j` is
            // followed by at least one more character.
            assert(s[s.len() - 1] != '\n');
            assert(j < s.len() - 1);
            lemma_join_lines_from(s, j + 1);
            let rest = spec_lines_from(s, j + 1);
            assert(rest.len() >= 1);
            let all = seq![first] + rest;
            assert(all.len() >= 2);
            assert(all[0] == first);
            assert(all.drop_first() =~= rest);
            assert(spec_join(all) == first + seq!['\n'] + spec_join(rest));
            assert(first + seq!['\n'] + s.subrange(j + 1, s.len() as int) =~= s.subrange(
                i,
                s.len() as int,
            ));
        }
    }
}

/// Joining the lines of normalized text yields the text back.
pub proof fn lemma_join_lines(s: Seq<char>)
    requires
        normalized(s),
    ensures
        spec_join(spec_lines(s)) == s,
    decreases s.len(),
{
    lemma_join_lines_from(s, 0);
    assert(s.subrange(0, s.len() as int) =~= s);
}

/// Appending one more line to a non-empty sequence extends the joined text
/// by a newline and that line.
pub proof fn lemma_join_snoc(ls: Seq<Seq<char>>, x: Seq<char>)
    requires
        ls.len() >= 1,
    ensures
        spec_join(ls.push(x)) == spec_join(ls) + seq!['\n'] + x,
    decreases ls.len(),
{
    let p = ls.push(x);
    if ls.len() == 1 {
        assert(p.drop_first() =~= seq![x]);
        assert(spec_join(p.drop_first()) == x);
        assert(p[0] == ls[0]);
        assert(spec_join(ls) == ls[0]);
    } else {
        assert(p.drop_first() =~= ls.drop_first().push(x));
        lemma_join_snoc(ls.drop_first(), x);
        assert(spec_join(p) == p[0] + seq!['\n'] + spec_join(ls.drop_first().push(x)));
        assert(p[0] == ls[0]);
        assert(ls[0] + seq!['\n'] + (spec_join(ls.drop_first()) + seq!['\n'] + x) =~= (ls[0]
            + seq!['\n'] + spec_join(ls.drop_first())) + seq!['\n'] + x);
    }
}

/// Joining is insensitive to where a non-empty sequence of lines is cut.
pub proof fn lemma_join_split(ls: Seq<Seq<char>>, m: int)
    requires
        0 < m < ls.len(),
    ensures
        spec_join(ls) == spec_join(ls.take(m)) + seq!['\n'] + spec_join(ls.skip(m)),
    decreases m,
{
    if m == 1 {
        assert(ls.take(1) =~= seq![ls[0]]);
        assert(spec_join(ls.take(1)) == ls[0]);
        assert(ls.skip(1) =~= ls.drop_first());
        assert(spec_join(ls) == ls[0] + seq!['\n'] + spec_join(ls.drop_first()));
    } else {
        let d = ls.drop_first();
        lemma_join_split(d, m - 1);
        assert(d.take(m - 1) =~= ls.take(m).drop_first());
        assert(d.skip(m - 1) =~= ls.skip(m));
        assert(spec_join(ls) == ls[0] + seq!['\n'] + spec_join(d));
        assert(ls.take(m).len() == m >= 2);
        assert(spec_join(ls.take(m)) == ls.take(m)[0] + seq!['\n'] + spec_join(
            ls.take(m).drop_first(),
        ));
        assert(ls.take(m)[0] == ls[0]);
        assert(ls[0] + seq!['\n'] + (spec_join(d.take(m - 1)) + seq!['\n'] + spec_join(
            d.skip(m - 1),
        )) =~= (ls[0] + seq!['\n'] + spec_join(d.take(m - 1))) + seq!['\n'] + spec_join(
            d.skip(m - 1),
        ));
    }
}

/// The lines of `s`, with any trailing carriage return stripped from each.
pub fn split_lines(s: &str) -> (r: Vec<String>)
    ensures
        r@.map_values(|l: String| l@) == spec_lines(s@),
{
    let n = s.unicode_len();
    let mut out: Vec<String> = Vec::new();
    let mut i: usize = 0;
    while i < n
        invariant
            n == s@.len(),
            i <= n,
            out@.map_values(|l: String| l@) + spec_lines_from(s@, i as int) =~= spec_lines(s@),
        decreases n - i,
    {
        let j = find_char(s, i, '\n');
        proof {
            lemma_find_from(s@, i as int, '\n');
        }
        let end = if j > i && s.get_char(j - 1) == '\r' {
            j - 1
        } else {
            j
        };
        let line = String::from_str(s.substring_char(i, end));
        proof {
            assert(line@ =~= strip_cr(s@.subrange(i as int, j as int)));
        }
        let ghost prev = out@;
        out.push(line);
        proof {
            assert(out@.map_values(|l: String| l@) =~= prev.map_values(|l: String| l@).push(
                line@,
            ));
            if j < n {
                assert(spec_lines_from(s@, i as int) == seq![line@] + spec_lines_from(
                    s@,
                    j + 1,
                ));
            } else {
                assert(spec_lines_from(s@, i as int) == seq![line@]);
                assert(spec_lines_from(s@, j + 1) =~= Seq::<Seq<char>>::empty());
            }
            assert(out@.map_values(|l: String| l@) + spec_lines_from(s@, j + 1) =~= spec_lines(
                s@,
            ));
            if j == n {
                assert(spec_lines_from(s@, n as int) =~= spec_lines_from(s@, j + 1));
            }
        }
        i = if j < n {
            j + 1
        } else {
            n
        };
    }
    proof {
        assert(spec_lines_from(s@, i as int) =~= Seq::<Seq<char>>::empty());
        assert(out@.map_values(|l: String| l@) =~= spec_lines(s@));
    }
    out
}

/// The lines between `from` and `to` joined with a single `'\n'` between
/// them.
pub fn join_range(parts: &Vec<String>, from: usize, to: usize) -> (r: String)
    requires
        from <= to <= parts@.len(),
    ensures
        r@ == spec_join(parts@.map_values(|l: String| l@).subrange(from as int, to as int)),
{
    let ghost piece = parts@.map_values(|l: String| l@).subrange(from as int, to as int);
    let mut r = String::new();
    let mut i: usize = from;
    while i < to
        invariant
            from <= i <= to <= parts@.len(),
            piece == parts@.map_values(|l: String| l@).subrange(from as int, to as int),
            i == from ==> r@ == Seq::<char>::empty(),
            i > from ==> r@ == spec_join(piece.take(i - from)),
        decreases to - i,
    {
        if i > from {
            proof {
                reveal_strlit("\n");
                lemma_join_snoc(piece.take(i - from), piece[i - from]);
                assert(piece.take(i - from).push(piece[i - from]) =~= piece.take(i + 1 - from));
            }
            r.append("\n");
            assert(r@ == spec_join(piece.take(i - from)) + seq!['\n']);
        } else {
            proof {
                assert(piece.take(1) =~= seq![piece[0]]);
            }
        }
        r.append(parts[i].as_str());
        proof {
            assert(piece[i - from] == parts@.map_values(|l: String| l@)[i as int]);
        }
        i = i + 1;
    }
    proof {
        if from == to {
            assert(spec_join(piece) =~= Seq::<char>::empty());
        } else {
            assert(piece.take(to - from) =~= piece);
        }
    }
    r
}

/// The lines joined with a single `'\n'` between them.
pub fn join_lines(parts: &Vec<String>) -> (r: String)
    ensures
        r@ == spec_join(parts@.map_values(|l: String| l@)),
{
    let r = join_range(parts, 0, parts.len());
    proof {
        assert(parts@.map_values(|l: String| l@).subrange(0, parts@.len() as int) =~= parts@
            .map_values(|l: String| l@));
    }
    r
}

} // verus!
