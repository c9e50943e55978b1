//! The patch applier's merge core: re-chunk a file's current content with
//! the original chunk size, overlay the supplied parts by numeric id, and
//! join the slots back into file content. Part ids outside `1..=slot count`
//! (including the `0` sentinel for an unparseable id) are ignored, never
//! applied. Also resolves a response path against the known original paths:
//! exact match first, then the first suffix match.

use vstd::prelude::*;

use crate::chunker::{make_slots, spec_slots};
use crate::fsmodel::FileMap;
use crate::models::{
    CodeAssistantResponse, FilePart, SpecNewFile, SpecPart, SpecResponse, SpecUpdatedFile,
};
use crate::snapshot::{join_path, save_rollback, spec_save_map, spec_save_pairs, RollbackConfig};
use crate::scan::{matches_at, matches_at_exec};
use crate::text::{join_lines, spec_join};

verus! {

/// `slots` with each part in `parts` written, in order, over the slot its id
/// names; a part whose id is `0` or greater than the slot count changes
/// nothing.
pub open spec fn spec_overlay(slots: Seq<Seq<char>>, parts: Seq<SpecPart>) -> Seq<Seq<char>>
    decreases parts.len(),
{
    if parts.len() == 0 {
        slots
    } else {
        let first = parts[0];
        let next = if 1 <= first.part_id <= slots.len() {
            slots.update(first.part_id - 1, first.content)
        } else {
            slots
        };
        spec_overlay(next, parts.drop_first())
    }
}

/// The merged content: the overlaid slots joined with `'\n'`.
pub open spec fn spec_apply_parts(s: Seq<char>, k: nat, parts: Seq<SpecPart>) -> Seq<char> {
    spec_join(spec_overlay(spec_slots(s, k), parts))
}

/// Overlaying never changes how many slots there are.
pub proof fn lemma_overlay_len(slots: Seq<Seq<char>>, parts: Seq<SpecPart>)
    ensures
        spec_overlay(slots, parts).len() == slots.len(),
    decreases parts.len(),
{
    if parts.len() > 0 {
        let first = parts[0];
        let next = if 1 <= first.part_id <= slots.len() {
            slots.update(first.part_id - 1, first.content)
        } else {
            slots
        };
        lemma_overlay_len(next, parts.drop_first());
    }
}

/// A slot that no part's id names keeps its content.
pub proof fn lemma_overlay_untouched(slots: Seq<Seq<char>>, parts: Seq<SpecPart>, j: int)
    requires
        0 <= j < slots.len(),
        forall|i: int| 0 <= i < parts.len() ==> #[trigger] parts[i].part_id != j + 1,
    ensures
        spec_overlay(slots, parts)[j] == slots[j],
    decreases parts.len(),
{
    if parts.len() > 0 {
        let first = parts[0];
        let next = if 1 <= first.part_id <= slots.len() {
            slots.update(first.part_id - 1, first.content)
        } else {
            slots
        };
        assert(parts[0].part_id != j + 1);
        assert(next[j] == slots[j]);
        assert(forall|i: int|
            0 <= i < parts.drop_first().len() ==> #[trigger] parts.drop_first()[i].part_id != j
                + 1);
        lemma_overlay_len(slots, parts);
        lemma_overlay_untouched(next, parts.drop_first(), j);
    }
}

/// A patch whose parts all carry id `0` or an id greater than the slot count
/// leaves every slot unchanged.
pub proof fn lemma_overlay_out_of_range(slots: Seq<Seq<char>>, parts: Seq<SpecPart>)
    requires
        forall|i: int|
            0 <= i < parts.len() ==> (#[trigger] parts[i].part_id == 0 || parts[i].part_id
                > slots.len()),
    ensures
        spec_overlay(slots, parts) == slots,
    decreases parts.len(),
{
    if parts.len() > 0 {
        lemma_overlay_out_of_range(slots, parts.drop_first());
    }
}

/// Re-chunks `original` with `chunk_size`, overlays `parts` by id, and joins
/// the result; ids outside `1..=slot count` are ignored.
pub fn apply_parts(original: &str, chunk_size: usize, parts: &Vec<FilePart>) -> (r: String)
    ensures
        r@ == spec_apply_parts(original@, chunk_size as nat, parts.deep_view()),
{
    let mut slots = make_slots(original, chunk_size);
    let ghost first_slots = slots@.map_values(|l: String| l@);
    let ghost ps = parts.deep_view();
    let mut i: usize = 0;
    proof {
        assert(ps.skip(0) =~= ps);
    }
    while i < parts.len()
        invariant
            i <= parts@.len(),
            ps == parts.deep_view(),
            ps.len() == parts@.len(),
            spec_overlay(slots@.map_values(|l: String| l@), ps.skip(i as int)) == spec_overlay(
                first_slots,
                ps,
            ),
        decreases parts@.len() - i,
    {
        let ghost cur = slots@.map_values(|l: String| l@);
        proof {
            assert(ps.skip(i as int)[0] == ps[i as int]);
            assert(ps.skip(i as int).drop_first() =~= ps.skip(i + 1));
        }
        let pid = parts[i].part_id;
        if pid >= 1 && pid <= slots.len() {
            slots.set(pid - 1, parts[i].content.clone());
            proof {
                assert(slots@.map_values(|l: String| l@) =~= cur.update(
                    pid - 1,
                    ps[i as int].content,
                ));
            }
        }
        i = i + 1;
    }
    proof {
        assert(ps.skip(parts@.len() as int) =~= Seq::<SpecPart>::empty());
    }
    join_lines(&slots)
}

/// Whether `s` ends with `suffix`.
pub open spec fn spec_ends_with(s: Seq<char>, suffix: Seq<char>) -> bool {
    suffix.len() <= s.len() && matches_at(s, s.len() - suffix.len(), suffix)
}

/// Index of the first path in `paths` equal to `wanted`; `paths.len()` when
/// there is none.
pub open spec fn first_exact(paths: Seq<Seq<char>>, from: int, wanted: Seq<char>) -> int
    decreases paths.len() - from,
{
    if from < 0 || from >= paths.len() {
        paths.len() as int
    } else if paths[from] == wanted {
        from
    } else {
        first_exact(paths, from + 1, wanted)
    }
}

/// Index of the first path in `paths` that ends with `wanted`;
/// `paths.len()` when there is none.
pub open spec fn first_suffix(paths: Seq<Seq<char>>, from: int, wanted: Seq<char>) -> int
    decreases paths.len() - from,
{
    if from < 0 || from >= paths.len() {
        paths.len() as int
    } else if spec_ends_with(paths[from], wanted) {
        from
    } else {
        first_suffix(paths, from + 1, wanted)
    }
}

/// The index [`resolve_path`] yields: the first exact match when one exists,
/// otherwise the first suffix match, otherwise nothing.
pub open spec fn spec_resolve(paths: Seq<Seq<char>>, wanted: Seq<char>) -> Option<int> {
    if first_exact(paths, 0, wanted) < paths.len() {
        Some(first_exact(paths, 0, wanted))
    } else if first_suffix(paths, 0, wanted) < paths.len() {
        Some(first_suffix(paths, 0, wanted))
    } else {
        None
    }
}

/// Whether `s` ends with `suffix`.
pub fn ends_with(s: &str, suffix: &str) -> (r: bool)
    ensures
        r == spec_ends_with(s@, suffix@),
{
    let n = s.unicode_len();
    let m = suffix.unicode_len();
    if m > n {
        return false;
    }
    matches_at_exec(s, n - m, suffix)
}

/// Resolves a response path against the known original paths: the first
/// exact match when one exists, otherwise the first path that ends with it,
/// otherwise `None`. With several files sharing a suffix the first match
/// wins; that ambiguity is a documented limitation of suffix resolution.
pub fn resolve_path(paths: &Vec<String>, wanted: &str) -> (r: Option<usize>)
    ensures
        match r {
            Some(j) => j < paths@.len() && spec_resolve(paths.deep_view(), wanted@) == Some(
                j as int,
            ),
            None => spec_resolve(paths.deep_view(), wanted@) is None,
        },
{
    let ghost ps = paths.deep_view();
    let w = String::from_str(wanted);
    let n = paths.len();
    let mut j: usize = 0;
    while j < n
        invariant
            j <= n,
            n == paths@.len(),
            ps == paths.deep_view(),
            ps.len() == n,
            w@ == wanted@,
            first_exact(ps, 0, wanted@) == first_exact(ps, j as int, wanted@),
        decreases n - j,
    {
        proof {
            assert(ps[j as int] == paths@[j as int]@);
        }
        if paths[j].eq(&w) {
            assert(ps[j as int] == wanted@);
            return Some(j);
        }
        assert(ps[j as int] != wanted@);
        j = j + 1;
    }
    assert(first_exact(ps, 0, wanted@) == ps.len());
    let mut j: usize = 0;
    while j < n
        invariant
            j <= n,
            n == paths@.len(),
            ps == paths.deep_view(),
            ps.len() == n,
            first_exact(ps, 0, wanted@) == ps.len(),
            first_suffix(ps, 0, wanted@) == first_suffix(ps, j as int, wanted@),
        decreases n - j,
    {
        if ends_with(paths[j].as_str(), wanted) {
            return Some(j);
        }
        j = j + 1;
    }
    None
}


/// The infix between the staging root and a staged file's relative path.
pub open spec fn code_dir_infix() -> Seq<char> {
    seq!['/', 'c', 'o', 'd', 'e', '/']
}

/// The rollback backup directory under the run's output directory.
pub open spec fn rollback_dir_of(outdir: Seq<char>) -> Seq<char> {
    outdir + seq!['/', '.', 'r', 'o', 'l', 'l', 'b', 'a', 'c', 'k']
}

/// The well-known file that receives free-text commentary.
pub open spec fn response_txt_name() -> Seq<char> {
    seq!['r', 'e', 's', 'p', 'o', 'n', 's', 'e', '.', 't', 'x', 't']
}

/// Where one updated file's merged content is written: over the resolved
/// original in auto mode, under the staging subtree otherwise.
pub open spec fn spec_output_path(
    auto: bool,
    resolved: Seq<char>,
    outdir: Seq<char>,
    response_path: Seq<char>,
) -> Seq<char> {
    if auto {
        resolved
    } else {
        outdir + code_dir_infix() + response_path
    }
}

/// The on-disk paths that the updated files resolve to, in order; an
/// unresolved file contributes nothing.
pub open spec fn spec_resolved_paths(
    paths: Seq<Seq<char>>,
    updated: Seq<SpecUpdatedFile>,
) -> Seq<Seq<char>>
    decreases updated.len(),
{
    if updated.len() == 0 {
        Seq::empty()
    } else {
        let rest = spec_resolved_paths(paths, updated.drop_first());
        match spec_resolve(paths, updated[0].file_path) {
            Some(j) => seq![paths[j]] + rest,
            None => rest,
        }
    }
}

/// The applier's running state: the file set, how many files were saved, and
/// which response paths were skipped as unresolved.
#[verifier::ext_equal]
pub struct SpecApplyState {
    pub files: Map<Seq<char>, Seq<char>>,
    pub saved: nat,
    pub skipped: Seq<Seq<char>>,
}

/// The updated files applied front to back: each resolved, readable file is
/// re-chunked, overlaid and written to its output path; an unresolved or
/// unreadable file is skipped and reported, never written.
pub open spec fn spec_apply_updated(
    st: SpecApplyState,
    paths: Seq<Seq<char>>,
    updated: Seq<SpecUpdatedFile>,
    outdir: Seq<char>,
    auto: bool,
    k: nat,
) -> SpecApplyState
    decreases updated.len(),
{
    if updated.len() == 0 {
        st
    } else {
        let u = updated[0];
        let st1 = match spec_resolve(paths, u.file_path) {
            Some(j) => {
                if st.files.contains_key(paths[j]) {
                    SpecApplyState {
                        files: st.files.insert(
                            spec_output_path(auto, paths[j], outdir, u.file_path),
                            spec_apply_parts(st.files[paths[j]], k, u.parts),
                        ),
                        saved: st.saved + 1,
                        skipped: st.skipped,
                    }
                } else {
                    SpecApplyState { skipped: st.skipped.push(u.file_path), ..st }
                }
            },
            None => SpecApplyState { skipped: st.skipped.push(u.file_path), ..st },
        };
        spec_apply_updated(st1, paths, updated.drop_first(), outdir, auto, k)
    }
}

/// The new files written front to back, literal content, no chunking.
pub open spec fn spec_write_new(
    m: Map<Seq<char>, Seq<char>>,
    new_files: Seq<SpecNewFile>,
) -> Map<Seq<char>, Seq<char>>
    decreases new_files.len(),
{
    if new_files.len() == 0 {
        m
    } else {
        spec_write_new(
            m.insert(new_files[0].file_path, new_files[0].content),
            new_files.drop_first(),
        )
    }
}

/// Everything one run of the applier does to the file set, and what it
/// records: the rollback backups saved first, then the merged updated files,
/// then the new files, then the commentary file when there is commentary.
#[verifier::ext_equal]
pub struct SpecProcessOutcome {
    pub files: Map<Seq<char>, Seq<char>>,
    pub saved: nat,
    pub skipped: Seq<Seq<char>>,
    pub pairs: Seq<(Seq<char>, Seq<char>)>,
}

pub open spec fn spec_process_response(
    m0: Map<Seq<char>, Seq<char>>,
    paths: Seq<Seq<char>>,
    resp: SpecResponse,
    outdir: Seq<char>,
    auto: bool,
    k: nat,
) -> SpecProcessOutcome {
    let rdir = rollback_dir_of(outdir);
    let resolved = spec_resolved_paths(paths, resp.updated_files);
    let m1 = spec_save_map(m0, rdir, resolved);
    let pairs = spec_save_pairs(m0, rdir, resolved);
    let st = spec_apply_updated(
        SpecApplyState { files: m1, saved: 0, skipped: Seq::empty() },
        paths,
        resp.updated_files,
        outdir,
        auto,
        k,
    );
    let m3 = spec_write_new(st.files, resp.new_files);
    let m4 = if resp.response.len() > 0 {
        m3.insert(outdir + seq!['/'] + response_txt_name(), resp.response)
    } else {
        m3
    };
    SpecProcessOutcome { files: m4, saved: st.saved, skipped: st.skipped, pairs }
}

/// What the applier hands back: the rollback record to persist, the counts
/// for reporting, and the response paths it had to skip as unresolved.
pub struct ApplyOutcome {
    pub record: RollbackConfig,
    pub saved_files: usize,
    pub new_files: usize,
    pub skipped: Vec<String>,
}

/// Applies a parsed patch to the file set: saves rollback backups for every
/// resolved original first, then re-chunks each resolved original with the
/// same `chunk_size`, overlays the supplied parts by id, and writes the
/// merged content over the original (`auto`) or into the staging subtree;
/// writes each new file literally; and writes non-empty commentary to the
/// well-known commentary file. An unresolved path skips only that file.
pub fn process_code_assistant_response(
    fs: &mut FileMap,
    response: &CodeAssistantResponse,
    original_paths: &Vec<String>,
    output_directory: &str,
    auto: bool,
    chunk_size: usize,
) -> (r: ApplyOutcome)
    ensures
        ({
            let o = spec_process_response(
                old(fs)@,
                original_paths.deep_view(),
                response.deep_view(),
                output_directory@,
                auto,
                chunk_size as nat,
            );
            &&& final(fs)@ == o.files
            &&& r.saved_files as nat == o.saved
            &&& r.skipped.deep_view() == o.skipped
            &&& r.record.rollback_files.deep_view() == o.pairs
            &&& r.record.new_files.deep_view() == response.deep_view().new_files.map_values(
                |f: SpecNewFile| f.file_path,
            )
            &&& r.new_files == response.new_files@.len()
        }),
{
    let ghost pathsv = original_paths.deep_view();
    let ghost respv = response.deep_view();
    let ghost m0 = fs@;
    proof {
        reveal_strlit(".rollback");
        assert(".rollback"@ =~= seq!['.', 'r', 'o', 'l', 'l', 'b', 'a', 'c', 'k']);
    }
    let rollback_dir = join_path(output_directory, ".rollback");
    proof {
        assert(rollback_dir@ =~= rollback_dir_of(output_directory@));
    }

    // The files the patch creates, for the rollback record.
    let mut new_paths: Vec<String> = Vec::new();
    let mut t: usize = 0;
    while t < response.new_files.len()
        invariant
            t <= response.new_files@.len(),
            respv == response.deep_view(),
            respv.new_files.len() == response.new_files@.len(),
            new_paths.deep_view() =~= respv.new_files.map_values(
                |f: SpecNewFile| f.file_path,
            ).take(t as int),
        decreases response.new_files@.len() - t,
    {
        let ghost prev = new_paths.deep_view();
        new_paths.push(response.new_files[t].file_path.clone());
        proof {
            let target = respv.new_files.map_values(|f: SpecNewFile| f.file_path);
            assert(new_paths.deep_view() =~= prev.push(target[t as int]));
            assert(target.take(t + 1) =~= target.take(t as int).push(target[t as int]));
        }
        t = t + 1;
    }
    proof {
        let target = respv.new_files.map_values(|f: SpecNewFile| f.file_path);
        assert(target.take(respv.new_files.len() as int) =~= target);
    }

    // The on-disk paths the updated files resolve to, for the backups.
    let mut resolved: Vec<String> = Vec::new();
    let mut t: usize = 0;
    proof {
        assert(respv.updated_files.skip(0) =~= respv.updated_files);
        assert(resolved.deep_view() =~= Seq::<Seq<char>>::empty());
    }
    while t < response.updated_files.len()
        invariant
            t <= response.updated_files@.len(),
            respv == response.deep_view(),
            pathsv == original_paths.deep_view(),
            pathsv.len() == original_paths@.len(),
            respv.updated_files.len() == response.updated_files@.len(),
            resolved.deep_view() + spec_resolved_paths(pathsv, respv.updated_files.skip(t as int))
                =~= spec_resolved_paths(pathsv, respv.updated_files),
        decreases response.updated_files@.len() - t,
    {
        proof {
            assert(respv.updated_files.skip(t as int)[0] == respv.updated_files[t as int]);
            assert(respv.updated_files[t as int] == response.updated_files@[t as int].deep_view());
            assert(respv.updated_files.skip(t as int).drop_first() =~= respv.updated_files.skip(
                t + 1,
            ));
        }
        let ghost prev = resolved.deep_view();
        match resolve_path(original_paths, response.updated_files[t].file_path.as_str()) {
            Some(j) => {
                resolved.push(original_paths[j].clone());
                proof {
                    assert(resolved.deep_view() =~= prev.push(pathsv[j as int]));
                }
            },
            None => {},
        }
        proof {
            assert(resolved.deep_view() + spec_resolved_paths(
                pathsv,
                respv.updated_files.skip(t + 1),
            ) =~= spec_resolved_paths(pathsv, respv.updated_files));
        }
        t = t + 1;
    }
    proof {
        assert(respv.updated_files.skip(response.updated_files@.len() as int) =~= Seq::<
            SpecUpdatedFile,
        >::empty());
        assert(resolved.deep_view() =~= spec_resolved_paths(pathsv, respv.updated_files));
    }

    // Snapshot everything the run is about to touch, before any write.
    let record = save_rollback(fs, rollback_dir.as_str(), new_paths, &resolved);

    // Overlay and write the updated files.
    let ghost st0 = SpecApplyState { files: fs@, saved: 0 as nat, skipped: Seq::empty() };
    let mut saved: usize = 0;
    let mut skipped: Vec<String> = Vec::new();
    let mut t: usize = 0;
    proof {
        reveal_strlit("/code/");
        assert("/code/"@ =~= code_dir_infix());
        assert(skipped.deep_view() =~= Seq::<Seq<char>>::empty());
        assert((SpecApplyState {
            files: fs@,
            saved: saved as nat,
            skipped: skipped.deep_view(),
        }) =~= st0);
    }
    while t < response.updated_files.len()
        invariant
            t <= response.updated_files@.len(),
            saved <= t,
            respv == response.deep_view(),
            pathsv == original_paths.deep_view(),
            pathsv.len() == original_paths@.len(),
            respv.updated_files.len() == response.updated_files@.len(),
            spec_apply_updated(
                (SpecApplyState {
                    files: fs@,
                    saved: saved as nat,
                    skipped: skipped.deep_view(),
                }),
                pathsv,
                respv.updated_files.skip(t as int),
                output_directory@,
                auto,
                chunk_size as nat,
            ) == spec_apply_updated(
                st0,
                pathsv,
                respv.updated_files,
                output_directory@,
                auto,
                chunk_size as nat,
            ),
        decreases response.updated_files@.len() - t,
    {
        proof {
            reveal_strlit("/code/");
            assert("/code/"@ =~= code_dir_infix());
            assert(respv.updated_files.skip(t as int)[0] == respv.updated_files[t as int]);
            assert(respv.updated_files[t as int] == response.updated_files@[t as int].deep_view());
            assert(respv.updated_files.skip(t as int).drop_first() =~= respv.updated_files.skip(
                t + 1,
            ));
        }
        let ghost stpre = SpecApplyState {
            files: fs@,
            saved: saved as nat,
            skipped: skipped.deep_view(),
        };
        let u = &response.updated_files[t];
        match resolve_path(original_paths, u.file_path.as_str()) {
            Some(j) => {
                match fs.read(original_paths[j].as_str()) {
                    Some(content) => {
                        let merged = apply_parts(content.as_str(), chunk_size, &u.parts);
                        let out_path = if auto {
                            original_paths[j].clone()
                        } else {
                            let mut p = String::from_str(output_directory);
                            p.append("/code/");
                            p.append(u.file_path.as_str());
                            p
                        };
                        proof {
                            assert(out_path@ =~= spec_output_path(
                                auto,
                                pathsv[j as int],
                                output_directory@,
                                respv.updated_files[t as int].file_path,
                            ));
                        }
                        fs.write(out_path.as_str(), merged);
                        saved = saved + 1;
                        proof {
                            assert((SpecApplyState {
                                files: fs@,
                                saved: saved as nat,
                                skipped: skipped.deep_view(),
                            }) =~= (SpecApplyState {
                                files: stpre.files.insert(
                                    spec_output_path(
                                        auto,
                                        pathsv[j as int],
                                        output_directory@,
                                        respv.updated_files[t as int].file_path,
                                    ),
                                    spec_apply_parts(
                                        stpre.files[pathsv[j as int]],
                                        chunk_size as nat,
                                        respv.updated_files[t as int].parts,
                                    ),
                                ),
                                saved: stpre.saved + 1,
                                skipped: stpre.skipped,
                            }));
                        }
                    },
                    None => {
                        let ghost sprev = skipped.deep_view();
                        skipped.push(u.file_path.clone());
                        proof {
                            assert(skipped.deep_view() =~= sprev.push(
                                respv.updated_files[t as int].file_path,
                            ));
                        }
                    },
                }
            },
            None => {
                let ghost sprev = skipped.deep_view();
                skipped.push(u.file_path.clone());
                proof {
                    assert(skipped.deep_view() =~= sprev.push(
                        respv.updated_files[t as int].file_path,
                    ));
                }
            },
        }
        t = t + 1;
    }
    proof {
        assert(respv.updated_files.skip(response.updated_files@.len() as int) =~= Seq::<
            SpecUpdatedFile,
        >::empty());
    }

    // Write the new files, literal content.
    let ghost m2 = fs@;
    let mut t: usize = 0;
    proof {
        assert(respv.new_files.skip(0) =~= respv.new_files);
    }
    while t < response.new_files.len()
        invariant
            t <= response.new_files@.len(),
            respv == response.deep_view(),
            respv.new_files.len() == response.new_files@.len(),
            spec_write_new(fs@, respv.new_files.skip(t as int)) == spec_write_new(
                m2,
                respv.new_files,
            ),
        decreases response.new_files@.len() - t,
    {
        proof {
            assert(respv.new_files.skip(t as int)[0] == respv.new_files[t as int]);
            assert(respv.new_files[t as int] == response.new_files@[t as int].deep_view());
            assert(respv.new_files.skip(t as int).drop_first() =~= respv.new_files.skip(t + 1));
        }
        fs.write(
            response.new_files[t].file_path.as_str(),
            response.new_files[t].content.clone(),
        );
        t = t + 1;
    }
    proof {
        assert(respv.new_files.skip(response.new_files@.len() as int) =~= Seq::<
            SpecNewFile,
        >::empty());
    }

    // Persist non-empty commentary to the well-known file.
    if response.response.unicode_len() > 0 {
        proof {
            reveal_strlit("response.txt");
            assert("response.txt"@ =~= response_txt_name());
        }
        let p = join_path(output_directory, "response.txt");
        fs.write(p.as_str(), response.response.clone());
    }
    let count_new = response.new_files.len();
    ApplyOutcome { record, saved_files: saved, new_files: count_new, skipped }
}

} // verus!
