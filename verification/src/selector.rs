//! The part selector: narrow a full chunk set to only the requested parts.
//!
//! A file keeps only the parts whose ids were requested for it, in their
//! original relative order; a file whose resulting part list is empty is
//! dropped, and so is a file that the selection does not mention. The
//! narrowed set exists to shrink a payload and must not be used to
//! reconstruct files.

use vstd::prelude::*;

use crate::models::{FileChunks, FilePart, FilePartIds, SpecFileChunks, SpecFilePartIds, SpecPart};

verus! {

/// The part ids the selection requests for `path`: those of its last entry
/// for `path` (a later entry supersedes an earlier one), or `None` when no
/// entry mentions `path`.
pub open spec fn spec_lookup(sel: Seq<SpecFilePartIds>, path: Seq<char>) -> Option<Seq<nat>>
    decreases sel.len(),
{
    if sel.len() == 0 {
        None
    } else if sel.last().file_path == path {
        Some(sel.last().parts)
    } else {
        spec_lookup(sel.drop_last(), path)
    }
}

/// The parts of one file whose ids are among `ids`, in order.
pub open spec fn spec_filter_parts(parts: Seq<SpecPart>, ids: Seq<nat>) -> Seq<SpecPart>
    decreases parts.len(),
{
    if parts.len() == 0 {
        Seq::empty()
    } else {
        let rest = spec_filter_parts(parts.drop_first(), ids);
        if ids.contains(parts[0].part_id) {
            seq![parts[0]] + rest
        } else {
            rest
        }
    }
}

/// The narrowed chunk set: per selected file the requested parts, files with
/// no requested part (or not mentioned at all) dropped.
pub open spec fn spec_filter_chunks(
    chunks: Seq<SpecFileChunks>,
    sel: Seq<SpecFilePartIds>,
) -> Seq<SpecFileChunks>
    decreases chunks.len(),
{
    if chunks.len() == 0 {
        Seq::empty()
    } else {
        let rest = spec_filter_chunks(chunks.drop_first(), sel);
        match spec_lookup(sel, chunks[0].file_path) {
            Some(ids) => {
                let kept = spec_filter_parts(chunks[0].parts, ids);
                if kept.len() > 0 {
                    seq![SpecFileChunks { file_path: chunks[0].file_path, parts: kept }] + rest
                } else {
                    rest
                }
            },
            None => rest,
        }
    }
}

/// An empty selection entry keeps no part of its file.
proof fn lemma_filter_parts_empty(parts: Seq<SpecPart>)
    ensures
        spec_filter_parts(parts, Seq::<nat>::empty()) == Seq::<SpecPart>::empty(),
    decreases parts.len(),
{
    if parts.len() > 0 {
        lemma_filter_parts_empty(parts.drop_first());
    }
}

/// A selection whose entry for a file requests no parts drops that file from
/// the narrowed set entirely.
pub proof fn lemma_filter_empty_selection(
    chunks: Seq<SpecFileChunks>,
    sel: Seq<SpecFilePartIds>,
    path: Seq<char>,
)
    requires
        spec_lookup(sel, path) == Some(Seq::<nat>::empty()),
    ensures
        forall|i: int|
            0 <= i < spec_filter_chunks(chunks, sel).len()
                ==> #[trigger] spec_filter_chunks(chunks, sel)[i].file_path != path,
    decreases chunks.len(),
{
    if chunks.len() > 0 {
        lemma_filter_empty_selection(chunks.drop_first(), sel, path);
        let rest = spec_filter_chunks(chunks.drop_first(), sel);
        match spec_lookup(sel, chunks[0].file_path) {
            Some(ids) => {
                if chunks[0].file_path == path {
                    lemma_filter_parts_empty(chunks[0].parts);
                    assert(spec_filter_chunks(chunks, sel) == rest);
                } else {
                    let kept = spec_filter_parts(chunks[0].parts, ids);
                    if kept.len() > 0 {
                        assert forall|i: int|
                            0 <= i < spec_filter_chunks(chunks, sel).len() implies #[trigger] spec_filter_chunks(
                            chunks,
                            sel,
                        )[i].file_path != path by {
                            if i > 0 {
                                assert(spec_filter_chunks(chunks, sel)[i] == rest[i - 1]);
                            }
                        }
                    }
                }
            },
            None => {},
        }
    }
}

/// Index of the last selection entry for `path`, when one exists; its part
/// ids are what [`spec_lookup`] yields.
pub(crate) fn find_selection(selection: &Vec<FilePartIds>, path: &String) -> (r: Option<usize>)
    ensures
        match r {
            Some(j) => j < selection@.len() && selection@[j as int].file_path@ == path@
                && spec_lookup(selection.deep_view(), path@) == Some(
                selection.deep_view()[j as int].parts,
            ),
            None => spec_lookup(selection.deep_view(), path@) is None,
        },
{
    let ghost sel = selection.deep_view();
    let mut j: usize = selection.len();
    proof {
        assert(sel.take(sel.len() as int) =~= sel);
    }
    while j > 0
        invariant
            j <= selection@.len(),
            sel == selection.deep_view(),
            sel.len() == selection@.len(),
            spec_lookup(sel, path@) == spec_lookup(sel.take(j as int), path@),
        decreases j,
    {
        proof {
            assert(sel.take(j as int).last() == sel[j - 1]);
            assert(sel.take(j as int).drop_last() =~= sel.take(j - 1));
        }
        if selection[j - 1].file_path == *path {
            return Some(j - 1);
        }
        j = j - 1;
    }
    proof {
        assert(sel.take(0) =~= Seq::<SpecFilePartIds>::empty());
    }
    None
}

/// Whether `ids` contains `id`.
fn contains_id(ids: &Vec<usize>, id: usize) -> (r: bool)
    ensures
        r == ids@.map_values(|x: usize| x as nat).contains(id as nat),
{
    let ghost idsn = ids@.map_values(|x: usize| x as nat);
    let mut k: usize = 0;
    while k < ids.len()
        invariant
            k <= ids@.len(),
            idsn == ids@.map_values(|x: usize| x as nat),
            forall|t: int| 0 <= t < k ==> idsn[t] != id as nat,
        decreases ids@.len() - k,
    {
        if ids[k] == id {
            assert(idsn[k as int] == id as nat);
            return true;
        }
        k = k + 1;
    }
    false
}

/// Narrows `chunks` to the parts that `selection` requests: for each file
/// with a selection entry, the parts whose ids are listed, in original
/// order; files with no entry or no requested part are dropped.
pub fn filter_out_unused_parts(
    chunks: &Vec<FileChunks>,
    selection: &Vec<FilePartIds>,
) -> (r: Vec<FileChunks>)
    ensures
        r.deep_view() == spec_filter_chunks(chunks.deep_view(), selection.deep_view()),
{
    let ghost cs = chunks.deep_view();
    let ghost sel = selection.deep_view();
    let mut out: Vec<FileChunks> = Vec::new();
    let mut i: usize = 0;
    proof {
        assert(cs.skip(0) =~= cs);
        assert(out.deep_view() =~= Seq::<SpecFileChunks>::empty());
    }
    while i < chunks.len()
        invariant
            i <= chunks@.len(),
            cs == chunks.deep_view(),
            sel == selection.deep_view(),
            cs.len() == chunks@.len(),
            out.deep_view() + spec_filter_chunks(cs.skip(i as int), sel) =~= spec_filter_chunks(
                cs,
                sel,
            ),
        decreases chunks@.len() - i,
    {
        proof {
            assert(cs.skip(i as int)[0] == cs[i as int]);
            assert(cs.skip(i as int).drop_first() =~= cs.skip(i + 1));
        }
        let ghost prev = out.deep_view();
        match find_selection(selection, &chunks[i].file_path) {
            Some(j) => {
                let ids = &selection[j].parts;
                let ghost idsn = sel[j as int].parts;
                proof {
                    assert(idsn == ids@.map_values(|x: usize| x as nat));
                }
                let mut kept: Vec<FilePart> = Vec::new();
                let mut t: usize = 0;
                let nparts = chunks[i].parts.len();
                proof {
                    assert(cs[i as int].parts.skip(0) =~= cs[i as int].parts);
                    assert(kept.deep_view() =~= Seq::<SpecPart>::empty());
                }
                while t < nparts
                    invariant
                        t <= nparts,
                        i < chunks@.len(),
                        j < selection@.len(),
                        cs == chunks.deep_view(),
                        sel == selection.deep_view(),
                        cs.len() == chunks@.len(),
                        idsn == selection@[j as int].parts@.map_values(|x: usize| x as nat),
                        nparts == chunks@[i as int].parts@.len(),
                        nparts == cs[i as int].parts.len(),
                        kept.deep_view() + spec_filter_parts(
                            cs[i as int].parts.skip(t as int),
                            idsn,
                        ) =~= spec_filter_parts(cs[i as int].parts, idsn),
                    decreases nparts - t,
                {
                    proof {
                        let cparts = cs[i as int].parts;
                        assert(cparts.skip(t as int)[0] == cparts[t as int]);
                        assert(cparts.skip(t as int).drop_first() =~= cparts.skip(t + 1));
                    }
                    let part = &chunks[i].parts[t];
                    let ghost kprev = kept.deep_view();
                    if contains_id(&selection[j].parts, part.part_id) {
                        kept.push(
                            FilePart { part_id: part.part_id, content: part.content.clone() },
                        );
                        proof {
                            assert(kept.deep_view() =~= kprev.push(cs[i as int].parts[t as int]));
                        }
                    }
                    t = t + 1;
                }
                proof {
                    assert(cs[i as int].parts.skip(nparts as int) =~= Seq::<SpecPart>::empty());
                    assert(kept.deep_view() =~= spec_filter_parts(cs[i as int].parts, idsn));
                }
                if kept.len() > 0 {
                    out.push(FileChunks { file_path: chunks[i].file_path.clone(), parts: kept });
                    proof {
                        assert(out.deep_view() =~= prev.push(
                            SpecFileChunks {
                                file_path: cs[i as int].file_path,
                                parts: spec_filter_parts(cs[i as int].parts, idsn),
                            },
                        ));
                    }
                }
            },
            None => {},
        }
        proof {
            assert(out.deep_view() + spec_filter_chunks(cs.skip(i + 1), sel) =~= spec_filter_chunks(
                cs,
                sel,
            ));
        }
        i = i + 1;
    }
    proof {
        assert(cs.skip(chunks@.len() as int) =~= Seq::<SpecFileChunks>::empty());
        assert(out.deep_view() =~= spec_filter_chunks(cs, sel));
    }
    out
}

} // verus!
