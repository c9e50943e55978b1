//! The chunker: split a file's content into fixed-size, ordinally-numbered
//! parts, and reassemble parts into content. The same `(content, chunk_size)`
//! pair always yields the same part boundaries, part ids start at `1` in
//! document order, and for a positive chunk size reassembly is the exact
//! inverse of chunking on normalized text.

use vstd::prelude::*;

use crate::errors::AppError;
use crate::models::{FileChunks, FilePart, SpecPart};
use crate::text::{
    join_lines, join_range, lemma_join_lines, lemma_join_snoc, lemma_join_split, normalized, spec_join,
    spec_lines, split_lines,
};

verus! {

/// The byte ceiling above which a file is refused at chunk time.
pub const MAX_FILE_SIZE: u64 = 10 * 1024 * 1024;

/// The contents of the parts that chunking `lines` into groups of `k` lines
/// produces: each part joins `k` consecutive lines, the last part joins what
/// remains.
pub open spec fn spec_chunk_lines(lines: Seq<Seq<char>>, k: nat) -> Seq<Seq<char>>
    decreases lines.len(),
{
    if k == 0 || lines.len() == 0 {
        Seq::empty()
    } else if lines.len() <= k {
        seq![spec_join(lines)]
    } else {
        seq![spec_join(lines.take(k as int))] + spec_chunk_lines(lines.skip(k as int), k)
    }
}

/// `contents` numbered as parts, ids starting at `1` in order.
pub open spec fn number_parts(contents: Seq<Seq<char>>) -> Seq<SpecPart> {
    Seq::new(
        contents.len(),
        |i: int| SpecPart { part_id: (i + 1) as nat, content: contents[i] },
    )
}

/// The slot contents that chunking `s` with chunk size `k` yields, before
/// numbering. A zero chunk size means one slot holding the whole text.
pub open spec fn spec_slots(s: Seq<char>, k: nat) -> Seq<Seq<char>> {
    if k == 0 {
        seq![s]
    } else {
        spec_chunk_lines(spec_lines(s), k)
    }
}

/// The parts that chunking `s` with `chunk_size` `k` yields. A zero chunk
/// size means the whole text as the single part `1`.
pub open spec fn spec_chunk(s: Seq<char>, k: nat) -> Seq<SpecPart> {
    number_parts(spec_slots(s, k))
}

/// The text that reassembling `parts` yields: their contents joined with a
/// single `'\n'` between them.
pub open spec fn spec_reconstruct(parts: Seq<SpecPart>) -> Seq<char> {
    spec_join(parts.map_values(|p: SpecPart| p.content))
}

proof fn lemma_join_chunk_lines(lines: Seq<Seq<char>>, k: nat)
    requires
        k >= 1,
    ensures
        spec_join(spec_chunk_lines(lines, k)) == spec_join(lines),
    decreases lines.len(),
{
    if lines.len() == 0 {
        assert(spec_chunk_lines(lines, k) =~= Seq::<Seq<char>>::empty());
    } else if lines.len() <= k {
        assert(spec_join(seq![spec_join(lines)]) == spec_join(lines));
    } else {
        lemma_join_chunk_lines(lines.skip(k as int), k);
        lemma_join_split(lines, k as int);
        let rest = spec_chunk_lines(lines.skip(k as int), k);
        assert(lines.skip(k as int).len() >= 1);
        assert(rest.len() >= 1);
        let all = seq![spec_join(lines.take(k as int))] + rest;
        assert(all.len() >= 2);
        assert(all[0] == spec_join(lines.take(k as int)));
        assert(all.drop_first() =~= rest);
        assert(spec_join(all) == spec_join(lines.take(k as int)) + seq!['\n'] + spec_join(rest));
    }
}

/// Reassembling the parts of a positive-size chunking yields the chunked
/// text back, for normalized text.
pub proof fn lemma_chunk_reconstruct(s: Seq<char>, k: nat)
    requires
        k >= 1,
        normalized(s),
    ensures
        spec_reconstruct(spec_chunk(s, k)) == s,
{
    let contents = spec_chunk_lines(spec_lines(s), k);
    assert(number_parts(contents).map_values(|p: SpecPart| p.content) =~= contents);
    lemma_join_chunk_lines(spec_lines(s), k);
    lemma_join_lines(s);
}

/// Chunking with chunk size zero yields a single part, id `1`, holding the
/// whole text.
pub proof fn lemma_chunk_zero(s: Seq<char>)
    ensures
        spec_chunk(s, 0) =~= seq![SpecPart { part_id: 1 as nat, content: s }],
{
}

/// Guards the chunk-time byte ceiling: a file larger than
/// [`MAX_FILE_SIZE`] bytes is refused.
pub fn check_file_size(size: u64) -> (r: Result<(), AppError>)
    ensures
        r is Ok <==> size <= MAX_FILE_SIZE,
        r is Err ==> r == Result::<(), AppError>::Err(AppError::FileTooLarge),
{
    if size > MAX_FILE_SIZE {
        Err(AppError::FileTooLarge)
    } else {
        Ok(())
    }
}

/// Splits `content` into parts of `chunk_size` lines each (the last part may
/// be shorter), ids starting at `1` in document order; a zero `chunk_size`
/// yields the whole content as the single part `1`.
/// The slot contents that chunking `content` with `chunk_size` yields:
/// groups of `chunk_size` lines joined back together (the last group may be
/// shorter), or the whole content as one slot when `chunk_size` is zero.
pub fn make_slots(content: &str, chunk_size: usize) -> (r: Vec<String>)
    ensures
        r@.map_values(|l: String| l@) == spec_slots(content@, chunk_size as nat),
{
    if chunk_size == 0 {
        let slots = vec![String::from_str(content)];
        proof {
            assert(slots@.map_values(|l: String| l@) =~= spec_slots(content@, 0));
        }
        return slots;
    }
    let lines = split_lines(content);
    let ghost all = lines@.map_values(|l: String| l@);
    let n = lines.len();
    let mut slots: Vec<String> = Vec::new();
    let mut i: usize = 0;
    proof {
        assert(all.skip(0) =~= all);
        assert(slots@.map_values(|l: String| l@) =~= Seq::<Seq<char>>::empty());
    }
    while i < n
        invariant
            i <= n,
            n == lines@.len(),
            chunk_size >= 1,
            all == lines@.map_values(|l: String| l@),
            slots@.map_values(|l: String| l@) + spec_chunk_lines(
                all.skip(i as int),
                chunk_size as nat,
            ) =~= spec_chunk_lines(all, chunk_size as nat),
        decreases n - i,
    {
        let j = if n - i > chunk_size {
            i + chunk_size
        } else {
            n
        };
        let piece = join_range(&lines, i, j);
        let ghost prev = slots@;
        slots.push(piece);
        proof {
            assert(slots@.map_values(|l: String| l@) =~= prev.map_values(|l: String| l@).push(
                piece@,
            ));
            if n - i > chunk_size {
                assert(all.skip(i as int).take(chunk_size as int) =~= all.subrange(
                    i as int,
                    j as int,
                ));
                assert(all.skip(i as int).skip(chunk_size as int) =~= all.skip(j as int));
                assert(spec_chunk_lines(all.skip(i as int), chunk_size as nat) == seq![
                    spec_join(all.subrange(i as int, j as int)),
                ] + spec_chunk_lines(all.skip(j as int), chunk_size as nat));
            } else {
                assert(all.skip(i as int) =~= all.subrange(i as int, j as int));
                assert(all.skip(i as int).len() <= chunk_size);
                assert(all.skip(i as int).len() > 0);
                assert(spec_chunk_lines(all.skip(i as int), chunk_size as nat) == seq![
                    spec_join(all.subrange(i as int, j as int)),
                ]);
                assert(all.skip(j as int) =~= Seq::<Seq<char>>::empty());
                assert(spec_chunk_lines(all.skip(j as int), chunk_size as nat) =~= Seq::<
                    Seq<char>,
                >::empty());
            }
            assert(prev.map_values(|l: String| l@).push(piece@) + spec_chunk_lines(
                all.skip(j as int),
                chunk_size as nat,
            ) =~= prev.map_values(|l: String| l@) + spec_chunk_lines(
                all.skip(i as int),
                chunk_size as nat,
            ));
        }
        i = j;
    }
    proof {
        assert(all.skip(n as int) =~= Seq::<Seq<char>>::empty());
        assert(spec_chunk_lines(all.skip(n as int), chunk_size as nat) =~= Seq::<
            Seq<char>,
        >::empty());
        assert(slots@.map_values(|l: String| l@) =~= spec_chunk_lines(all, chunk_size as nat));
    }
    slots
}

/// Splits `content` into parts of `chunk_size` lines each (the last part may
/// be shorter), ids starting at `1` in document order; a zero `chunk_size`
/// yields the whole content as the single part `1`.
pub fn chunk_content(file_path: &str, content: &str, chunk_size: usize) -> (r: FileChunks)
    ensures
        r.deep_view().file_path == file_path@,
        r.deep_view().parts == spec_chunk(content@, chunk_size as nat),
{
    let path = String::from_str(file_path);
    let mut slots = make_slots(content, chunk_size);
    let ghost contents = slots@.map_values(|l: String| l@);
    let mut parts: Vec<FilePart> = Vec::new();
    let mut i: usize = 0;
    while i < slots.len()
        invariant
            i <= slots@.len(),
            contents == slots@.map_values(|l: String| l@),
            parts@.len() == i,
            forall|t: int|
                0 <= t < i ==> #[trigger] parts.deep_view()[t] == (SpecPart {
                    part_id: (t + 1) as nat,
                    content: contents[t],
                }),
        decreases slots@.len() - i,
    {
        let pid = i + 1;
        let ghost prev = parts.deep_view();
        parts.push(FilePart { part_id: pid, content: slots[i].clone() });
        proof {
            assert(contents[i as int] == slots@[i as int]@);
            assert(parts.deep_view() =~= prev.push(
                SpecPart { part_id: pid as nat, content: contents[i as int] },
            ));
        }
        i = i + 1;
    }
    proof {
        assert(parts.deep_view() =~= number_parts(contents));
    }
    FileChunks { file_path: path, parts }
}

/// Reassembles parts into file content: their contents joined with a single
/// `'\n'` between them.
pub fn reconstruct(parts: &Vec<FilePart>) -> (r: String)
    ensures
        r@ == spec_reconstruct(parts.deep_view()),
{
    let mut contents: Vec<String> = Vec::new();
    let mut i: usize = 0;
    while i < parts.len()
        invariant
            i <= parts@.len(),
            contents@.map_values(|l: String| l@) =~= parts.deep_view().map_values(
                |p: SpecPart| p.content,
            ).take(i as int),
        decreases parts@.len() - i,
    {
        let ghost prev = contents@;
        contents.push(parts[i].content.clone());
        proof {
            assert(contents@.map_values(|l: String| l@) =~= prev.map_values(
                |l: String| l@,
            ).push(parts@[i as int].content@));
            assert(parts.deep_view().map_values(|p: SpecPart| p.content).take(i + 1)
                =~= parts.deep_view().map_values(|p: SpecPart| p.content).take(i as int).push(
                parts@[i as int].content@,
            ));
        }
        i = i + 1;
    }
    proof {
        assert(parts.deep_view().map_values(|p: SpecPart| p.content).take(parts@.len() as int)
            =~= parts.deep_view().map_values(|p: SpecPart| p.content));
    }
    join_lines(&contents)
}

} // verus!
