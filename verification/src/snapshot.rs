//! The snapshot managers: rollback and checkpoint.
//!
//! Both copy files into a backup area and record `(original, backup)` pairs;
//! they differ in lifecycle. A rollback record is made once per mutating run,
//! before any write, and is consumed by exactly one rollback, which deletes
//! the backup area. A checkpoint is made on explicit request, replaces the
//! previous checkpoint wholesale, and may be reverted repeatedly. Both are
//! specified against the [`FileMap`] model.

use vstd::prelude::*;

use crate::errors::AppError;
use crate::fsmodel::{dir_keys, spec_in_dir, FileMap};
use crate::scan::{matches_at, matches_at_exec};

verus! {

/// What one run's rollback needs: the files it created (to delete) and the
/// `(original, backup)` pairs it saved (to restore). An original that did
/// not exist at save time carries an empty backup marker.
#[derive(Debug, Clone, PartialEq, Eq)]
pub struct RollbackConfig {
    pub new_files: Vec<String>,
    pub rollback_files: Vec<(String, String)>,
}

/// A user-invoked checkpoint: the `(original, backup)` pairs it saved.
#[derive(Debug, Clone, PartialEq, Eq)]
pub struct CheckpointConfig {
    pub checkpoint_files: Vec<(String, String)>,
}

/// Index of the last occurrence of `c` in `s`; `-1` when there is none.
pub open spec fn rfind(s: Seq<char>, c: char) -> int
    decreases s.len(),
{
    if s.len() == 0 {
        -1
    } else if s.last() == c {
        s.len() - 1
    } else {
        rfind(s.drop_last(), c)
    }
}

pub proof fn lemma_rfind(s: Seq<char>, c: char)
    ensures
        -1 <= rfind(s, c) < s.len(),
        rfind(s, c) >= 0 ==> s[rfind(s, c)] == c,
        forall|k: int| rfind(s, c) < k < s.len() ==> s[k] != c,
    decreases s.len(),
{
    if s.len() > 0 && s.last() != c {
        lemma_rfind(s.drop_last(), c);
        assert(forall|k: int| 0 <= k < s.len() - 1 ==> s.drop_last()[k] == s[k]);
    }
}

/// The final component of `path`: everything after the last `'/'`.
pub open spec fn spec_file_name(path: Seq<char>) -> Seq<char> {
    path.subrange(rfind(path, '/') + 1, path.len() as int)
}

/// Where the rollback backup of `path` lives: its file name inside the
/// rollback directory. Files from different directories sharing one name
/// collide here; the rollback record keeps the pairing faithful regardless.
pub open spec fn spec_backup_name(rollback_dir: Seq<char>, path: Seq<char>) -> Seq<char> {
    rollback_dir + seq!['/'] + spec_file_name(path)
}

/// The backup of a path always lies inside the backup directory.
pub proof fn lemma_backup_in_dir(dir: Seq<char>, path: Seq<char>)
    ensures
        spec_in_dir(spec_backup_name(dir, path), dir),
{
    let b = spec_backup_name(dir, path);
    assert(b.len() > dir.len());
    assert(forall|k: int| 0 <= k < dir.len() ==> b[k] == dir[k]);
    assert(b[dir.len() as int] == '/');
}

/// The file set after saving backups for `files`, front to back: each file
/// that exists is copied to its backup name; a missing file copies nothing.
pub open spec fn spec_save_map(
    m: Map<Seq<char>, Seq<char>>,
    dir: Seq<char>,
    files: Seq<Seq<char>>,
) -> Map<Seq<char>, Seq<char>>
    decreases files.len(),
{
    if files.len() == 0 {
        m
    } else {
        let f = files[0];
        let m1 = if m.contains_key(f) {
            m.insert(spec_backup_name(dir, f), m[f])
        } else {
            m
        };
        spec_save_map(m1, dir, files.drop_first())
    }
}

/// The `(original, backup)` pairs that saving records, front to back; a
/// missing original gets an empty backup marker.
pub open spec fn spec_save_pairs(
    m: Map<Seq<char>, Seq<char>>,
    dir: Seq<char>,
    files: Seq<Seq<char>>,
) -> Seq<(Seq<char>, Seq<char>)>
    decreases files.len(),
{
    if files.len() == 0 {
        Seq::empty()
    } else {
        let f = files[0];
        let pair = if m.contains_key(f) {
            (f, spec_backup_name(dir, f))
        } else {
            (f, Seq::<char>::empty())
        };
        let m1 = if m.contains_key(f) {
            m.insert(spec_backup_name(dir, f), m[f])
        } else {
            m
        };
        seq![pair] + spec_save_pairs(m1, dir, files.drop_first())
    }
}

/// The file set after deleting each of `files` that exists, front to back.
pub open spec fn spec_delete_map(
    m: Map<Seq<char>, Seq<char>>,
    files: Seq<Seq<char>>,
) -> Map<Seq<char>, Seq<char>>
    decreases files.len(),
{
    if files.len() == 0 {
        m
    } else {
        spec_delete_map(m.remove(files[0]), files.drop_first())
    }
}

/// The file set after copying each existing backup over its original, front
/// to back; a pair whose backup does not exist restores nothing.
pub open spec fn spec_restore_map(
    m: Map<Seq<char>, Seq<char>>,
    pairs: Seq<(Seq<char>, Seq<char>)>,
) -> Map<Seq<char>, Seq<char>>
    decreases pairs.len(),
{
    if pairs.len() == 0 {
        m
    } else {
        let m1 = if m.contains_key(pairs[0].1) {
            m.insert(pairs[0].0, m[pairs[0].1])
        } else {
            m
        };
        spec_restore_map(m1, pairs.drop_first())
    }
}

/// `path` with path separators replaced by `'_'`, so that files from nested
/// directories can share one flat backup area without name clashes from
/// separators.
pub open spec fn spec_sanitize(path: Seq<char>) -> Seq<char> {
    path.map_values(
        |c: char|
            if c == '/' || c == '\\' {
                '_'
            } else {
                c
            },
    )
}

/// `path` without a leading `"./"`.
pub open spec fn spec_strip_dot(path: Seq<char>) -> Seq<char> {
    if path.len() >= 2 && path[0] == '.' && path[1] == '/' {
        path.skip(2)
    } else {
        path
    }
}

/// Where the checkpoint backup of `path` lives: the sanitized relative path
/// inside the checkpoint directory.
pub open spec fn spec_checkpoint_name(dir: Seq<char>, path: Seq<char>) -> Seq<char> {
    dir + seq!['/'] + spec_sanitize(spec_strip_dot(path))
}

/// The checkpoint backup of a path always lies inside the checkpoint
/// directory.
pub proof fn lemma_checkpoint_name_in_dir(dir: Seq<char>, path: Seq<char>)
    ensures
        spec_in_dir(spec_checkpoint_name(dir, path), dir),
{
    let b = spec_checkpoint_name(dir, path);
    assert(b.len() > dir.len());
    assert(forall|k: int| 0 <= k < dir.len() ==> b[k] == dir[k]);
    assert(b[dir.len() as int] == '/');
}

/// The file set after copying each of `files` that exists to its checkpoint
/// name, front to back.
pub open spec fn spec_checkpoint_map(
    m: Map<Seq<char>, Seq<char>>,
    dir: Seq<char>,
    files: Seq<Seq<char>>,
) -> Map<Seq<char>, Seq<char>>
    decreases files.len(),
{
    if files.len() == 0 {
        m
    } else {
        let f = files[0];
        let m1 = if m.contains_key(f) {
            m.insert(spec_checkpoint_name(dir, f), m[f])
        } else {
            m
        };
        spec_checkpoint_map(m1, dir, files.drop_first())
    }
}

/// The `(original, backup)` pairs a checkpoint of `files` records.
pub open spec fn spec_checkpoint_pairs(dir: Seq<char>, files: Seq<Seq<char>>) -> Seq<
    (Seq<char>, Seq<char>),
> {
    files.map_values(|f: Seq<char>| (f, spec_checkpoint_name(dir, f)))
}

/// The final component of `path`: everything after the last `'/'`.
pub fn file_name(path: &str) -> (r: String)
    ensures
        r@ == spec_file_name(path@),
{
    proof {
        lemma_rfind(path@, '/');
    }
    let n = path.unicode_len();
    let mut i = n;
    while i > 0
        invariant
            i <= n,
            n == path@.len(),
            forall|k: int| i <= k < n ==> path@[k] != '/',
        decreases i,
    {
        if path.get_char(i - 1) == '/' {
            proof {
                lemma_rfind(path@, '/');
                assert(rfind(path@, '/') == i - 1);
            }
            return String::from_str(path.substring_char(i, n));
        }
        i = i - 1;
    }
    proof {
        lemma_rfind(path@, '/');
        assert(rfind(path@, '/') == -1);
    }
    String::from_str(path.substring_char(0, n))
}

/// `dir` and `name` joined with a single `'/'`.
pub fn join_path(dir: &str, name: &str) -> (r: String)
    ensures
        r@ == dir@ + seq!['/'] + name@,
{
    proof {
        reveal_strlit("/");
    }
    let mut r = String::from_str(dir);
    r.append("/");
    r.append(name);
    proof {
        assert(r@ =~= dir@ + seq!['/'] + name@);
    }
    r
}

/// Where the rollback backup of `path` lives.
pub fn backup_name(rollback_dir: &str, path: &str) -> (r: String)
    ensures
        r@ == spec_backup_name(rollback_dir@, path@),
{
    let name = file_name(path);
    join_path(rollback_dir, name.as_str())
}

/// `path` with path separators replaced by `'_'`.
pub fn sanitize(path: &str) -> (r: String)
    ensures
        r@ == spec_sanitize(path@),
{
    let n = path.unicode_len();
    let mut r = String::new();
    let mut i: usize = 0;
    while i < n
        invariant
            i <= n,
            n == path@.len(),
            r@ =~= spec_sanitize(path@.take(i as int)),
        decreases n - i,
    {
        let c = path.get_char(i);
        if c == '/' || c == '\\' {
            r.append("_");
        } else {
            r.append(path.substring_char(i, i + 1));
        }
        proof {
            reveal_strlit("_");
            assert(path@.take(i + 1).len() == i + 1);
            assert(r@ =~= spec_sanitize(path@.take(i + 1)));
        }
        i = i + 1;
    }
    proof {
        assert(path@.take(n as int) =~= path@);
    }
    r
}

/// `path` without a leading `"./"`.
pub fn strip_dot(path: &str) -> (r: String)
    ensures
        r@ == spec_strip_dot(path@),
{
    proof {
        reveal_strlit("./");
    }
    let n = path.unicode_len();
    if n >= 2 && matches_at_exec(path, 0, "./") {
        proof {
            assert("./"@.len() == 2 && "./"@[0] == '.' && "./"@[1] == '/');
            assert(path@[0int + 0int] == "./"@[0int] && path@[0int + 1int] == "./"@[1int]);
            assert(path@.subrange(2, n as int) =~= path@.skip(2));
        }
        String::from_str(path.substring_char(2, n))
    } else {
        proof {
            if n >= 2 && path@[0] == '.' && path@[1] == '/' {
                assert(matches_at(path@, 0, "./"@));
            }
        }
        String::from_str(path.substring_char(0, n))
    }
}

/// Where the checkpoint backup of `path` lives.
pub fn checkpoint_name(checkpoint_dir: &str, path: &str) -> (r: String)
    ensures
        r@ == spec_checkpoint_name(checkpoint_dir@, path@),
{
    let stripped = strip_dot(path);
    let sane = sanitize(stripped.as_str());
    join_path(checkpoint_dir, sane.as_str())
}

/// Saves what one run needs for rollback, before the run writes anything:
/// copies each existing file in `modified_files` to its backup name inside
/// `rollback_dir`, records the `(original, backup)` pairs (an empty backup
/// marker for a file that does not exist yet), and carries `new_files` so
/// rollback can delete them.
pub fn save_rollback(
    fs: &mut FileMap,
    rollback_dir: &str,
    new_files: Vec<String>,
    modified_files: &Vec<String>,
) -> (r: RollbackConfig)
    ensures
        final(fs)@ == spec_save_map(old(fs)@, rollback_dir@, modified_files.deep_view()),
        r.new_files == new_files,
        r.rollback_files.deep_view() == spec_save_pairs(
            old(fs)@,
            rollback_dir@,
            modified_files.deep_view(),
        ),
{
    let ghost m0 = fs@;
    let ghost filesv = modified_files.deep_view();
    let mut pairs: Vec<(String, String)> = Vec::new();
    let mut t: usize = 0;
    proof {
        assert(filesv.skip(0) =~= filesv);
        assert(pairs.deep_view() =~= Seq::<(Seq<char>, Seq<char>)>::empty());
    }
    while t < modified_files.len()
        invariant
            t <= modified_files@.len(),
            filesv == modified_files.deep_view(),
            filesv.len() == modified_files@.len(),
            spec_save_map(fs@, rollback_dir@, filesv.skip(t as int)) == spec_save_map(
                m0,
                rollback_dir@,
                filesv,
            ),
            pairs.deep_view() + spec_save_pairs(fs@, rollback_dir@, filesv.skip(t as int))
                =~= spec_save_pairs(m0, rollback_dir@, filesv),
        decreases modified_files@.len() - t,
    {
        proof {
            assert(filesv.skip(t as int)[0] == filesv[t as int]);
            assert(filesv[t as int] == modified_files@[t as int]@);
            assert(filesv.skip(t as int).drop_first() =~= filesv.skip(t + 1));
        }
        let ghost pprev = pairs.deep_view();
        let f = &modified_files[t];
        match fs.read(f.as_str()) {
            Some(content) => {
                let b = backup_name(rollback_dir, f.as_str());
                fs.write(b.as_str(), content);
                pairs.push((f.clone(), b));
                proof {
                    assert(pairs.deep_view() =~= pprev.push(
                        (filesv[t as int], spec_backup_name(rollback_dir@, filesv[t as int])),
                    ));
                }
            },
            None => {
                pairs.push((f.clone(), String::new()));
                proof {
                    assert(pairs.deep_view() =~= pprev.push(
                        (filesv[t as int], Seq::<char>::empty()),
                    ));
                }
            },
        }
        proof {
            assert(pairs.deep_view() + spec_save_pairs(fs@, rollback_dir@, filesv.skip(t + 1))
                =~= spec_save_pairs(m0, rollback_dir@, filesv));
        }
        t = t + 1;
    }
    proof {
        assert(filesv.skip(modified_files@.len() as int) =~= Seq::<Seq<char>>::empty());
        assert(pairs.deep_view() =~= spec_save_pairs(m0, rollback_dir@, filesv));
    }
    RollbackConfig { new_files, rollback_files: pairs }
}

/// Undoes the last run: deletes every recorded new file that still exists,
/// copies every existing backup over its original, then deletes the whole
/// backup directory, record included. With no record there is nothing to
/// roll back: the error is reported and nothing changes.
pub fn rollback_last_run(
    fs: &mut FileMap,
    record: Option<&RollbackConfig>,
    rollback_dir: &str,
) -> (r: Result<(), AppError>)
    ensures
        record is None ==> r == Result::<(), AppError>::Err(AppError::NoChangesToRollback)
            && final(fs)@ == old(fs)@,
        record matches Some(rec) ==> r is Ok && final(fs)@ == spec_restore_map(
            spec_delete_map(old(fs)@, rec.new_files.deep_view()),
            rec.rollback_files.deep_view(),
        ).remove_keys(dir_keys(rollback_dir@)),
{
    let rec = match record {
        None => {
            return Err(AppError::NoChangesToRollback);
        },
        Some(rec) => rec,
    };
    let ghost m0 = fs@;
    let ghost newv = rec.new_files.deep_view();
    let mut t: usize = 0;
    proof {
        assert(newv.skip(0) =~= newv);
    }
    while t < rec.new_files.len()
        invariant
            t <= rec.new_files@.len(),
            newv == rec.new_files.deep_view(),
            newv.len() == rec.new_files@.len(),
            spec_delete_map(fs@, newv.skip(t as int)) == spec_delete_map(m0, newv),
        decreases rec.new_files@.len() - t,
    {
        proof {
            assert(newv.skip(t as int)[0] == newv[t as int]);
            assert(newv[t as int] == rec.new_files@[t as int]@);
            assert(newv.skip(t as int).drop_first() =~= newv.skip(t + 1));
        }
        fs.delete(rec.new_files[t].as_str());
        t = t + 1;
    }
    proof {
        assert(newv.skip(rec.new_files@.len() as int) =~= Seq::<Seq<char>>::empty());
    }
    let ghost m1 = fs@;
    let ghost pairsv = rec.rollback_files.deep_view();
    let mut t: usize = 0;
    proof {
        assert(pairsv.skip(0) =~= pairsv);
    }
    while t < rec.rollback_files.len()
        invariant
            t <= rec.rollback_files@.len(),
            pairsv == rec.rollback_files.deep_view(),
            pairsv.len() == rec.rollback_files@.len(),
            spec_restore_map(fs@, pairsv.skip(t as int)) == spec_restore_map(m1, pairsv),
        decreases rec.rollback_files@.len() - t,
    {
        proof {
            assert(pairsv.skip(t as int)[0] == pairsv[t as int]);
            assert(pairsv[t as int].0 == rec.rollback_files@[t as int].0@);
            assert(pairsv[t as int].1 == rec.rollback_files@[t as int].1@);
            assert(pairsv.skip(t as int).drop_first() =~= pairsv.skip(t + 1));
        }
        match fs.read(rec.rollback_files[t].1.as_str()) {
            Some(content) => {
                fs.write(rec.rollback_files[t].0.as_str(), content);
            },
            None => {},
        }
        t = t + 1;
    }
    proof {
        assert(pairsv.skip(rec.rollback_files@.len() as int) =~= Seq::<
            (Seq<char>, Seq<char>),
        >::empty());
    }
    fs.remove_tree(rollback_dir);
    Ok(())
}

/// Rejects a checkpoint request naming a path that does not exist.
pub fn check_paths_exist(fs: &FileMap, paths: &Vec<String>) -> (r: Result<(), AppError>)
    ensures
        r is Ok <==> (forall|i: int|
            0 <= i < paths.deep_view().len() ==> fs@.contains_key(#[trigger] paths.deep_view()[i])),
        r is Err ==> r matches Err(AppError::CheckpointError(_)),
{
    let ghost pv = paths.deep_view();
    let mut t: usize = 0;
    while t < paths.len()
        invariant
            t <= paths@.len(),
            pv == paths.deep_view(),
            pv.len() == paths@.len(),
            forall|i: int| 0 <= i < t ==> fs@.contains_key(#[trigger] pv[i]),
        decreases paths@.len() - t,
    {
        proof {
            assert(pv[t as int] == paths@[t as int]@);
        }
        if !fs.contains(paths[t].as_str()) {
            return Err(AppError::CheckpointError(String::from_str("path does not exist")));
        }
        t = t + 1;
    }
    Ok(())
}

/// Creates a checkpoint of `files`: deletes the previous checkpoint's backup
/// area wholesale, then copies each existing file to its sanitized name
/// inside `checkpoint_dir`, recording the `(original, backup)` pairs.
pub fn checkpoint(
    fs: &mut FileMap,
    checkpoint_dir: &str,
    files: &Vec<String>,
) -> (r: CheckpointConfig)
    ensures
        final(fs)@ == spec_checkpoint_map(
            old(fs)@.remove_keys(dir_keys(checkpoint_dir@)),
            checkpoint_dir@,
            files.deep_view(),
        ),
        r.checkpoint_files.deep_view() == spec_checkpoint_pairs(
            checkpoint_dir@,
            files.deep_view(),
        ),
{
    fs.remove_tree(checkpoint_dir);
    let ghost m0 = fs@;
    let ghost filesv = files.deep_view();
    let mut pairs: Vec<(String, String)> = Vec::new();
    let mut t: usize = 0;
    proof {
        assert(filesv.skip(0) =~= filesv);
        assert(pairs.deep_view() =~= Seq::<(Seq<char>, Seq<char>)>::empty());
    }
    while t < files.len()
        invariant
            t <= files@.len(),
            filesv == files.deep_view(),
            filesv.len() == files@.len(),
            spec_checkpoint_map(fs@, checkpoint_dir@, filesv.skip(t as int))
                == spec_checkpoint_map(m0, checkpoint_dir@, filesv),
            pairs.deep_view() =~= spec_checkpoint_pairs(checkpoint_dir@, filesv.take(t as int)),
        decreases files@.len() - t,
    {
        proof {
            assert(filesv.skip(t as int)[0] == filesv[t as int]);
            assert(filesv[t as int] == files@[t as int]@);
            assert(filesv.skip(t as int).drop_first() =~= filesv.skip(t + 1));
        }
        let ghost pprev = pairs.deep_view();
        let f = &files[t];
        let b = checkpoint_name(checkpoint_dir, f.as_str());
        match fs.read(f.as_str()) {
            Some(content) => {
                fs.write(b.as_str(), content);
            },
            None => {},
        }
        pairs.push((f.clone(), b));
        proof {
            assert(pairs.deep_view() =~= pprev.push(
                (filesv[t as int], spec_checkpoint_name(checkpoint_dir@, filesv[t as int])),
            ));
            assert(filesv.take(t + 1) =~= filesv.take(t as int).push(filesv[t as int]));
            assert(pairs.deep_view() =~= spec_checkpoint_pairs(
                checkpoint_dir@,
                filesv.take(t + 1),
            ));
        }
        t = t + 1;
    }
    proof {
        assert(filesv.skip(files@.len() as int) =~= Seq::<Seq<char>>::empty());
        assert(filesv.take(files@.len() as int) =~= filesv);
    }
    CheckpointConfig { checkpoint_files: pairs }
}

/// Reverts to the recorded checkpoint: copies every existing backup over its
/// original. The record is not consumed, so revert may be repeated. With no
/// record the error is reported and nothing changes.
pub fn revert_checkpoint(fs: &mut FileMap, record: Option<&CheckpointConfig>) -> (r: Result<
    (),
    AppError,
>)
    ensures
        record is None ==> r == Result::<(), AppError>::Err(AppError::NoCheckpointToRevert)
            && final(fs)@ == old(fs)@,
        record matches Some(rec) ==> r is Ok && final(fs)@ == spec_restore_map(
            old(fs)@,
            rec.checkpoint_files.deep_view(),
        ),
{
    let rec = match record {
        None => {
            return Err(AppError::NoCheckpointToRevert);
        },
        Some(rec) => rec,
    };
    let ghost m0 = fs@;
    let ghost pairsv = rec.checkpoint_files.deep_view();
    let mut t: usize = 0;
    proof {
        assert(pairsv.skip(0) =~= pairsv);
    }
    while t < rec.checkpoint_files.len()
        invariant
            t <= rec.checkpoint_files@.len(),
            pairsv == rec.checkpoint_files.deep_view(),
            pairsv.len() == rec.checkpoint_files@.len(),
            spec_restore_map(fs@, pairsv.skip(t as int)) == spec_restore_map(m0, pairsv),
        decreases rec.checkpoint_files@.len() - t,
    {
        proof {
            assert(pairsv.skip(t as int)[0] == pairsv[t as int]);
            assert(pairsv[t as int].0 == rec.checkpoint_files@[t as int].0@);
            assert(pairsv[t as int].1 == rec.checkpoint_files@[t as int].1@);
            assert(pairsv.skip(t as int).drop_first() =~= pairsv.skip(t + 1));
        }
        match fs.read(rec.checkpoint_files[t].1.as_str()) {
            Some(content) => {
                fs.write(rec.checkpoint_files[t].0.as_str(), content);
            },
            None => {},
        }
        t = t + 1;
    }
    proof {
        assert(pairsv.skip(rec.checkpoint_files@.len() as int) =~= Seq::<
            (Seq<char>, Seq<char>),
        >::empty());
    }
    Ok(())
}


/// Checkpointing touches no key other than the checkpoint names of its
/// files.
proof fn lemma_checkpoint_map_frame(
    m: Map<Seq<char>, Seq<char>>,
    dir: Seq<char>,
    files: Seq<Seq<char>>,
    k: Seq<char>,
)
    requires
        forall|t: int| 0 <= t < files.len() ==> k != spec_checkpoint_name(dir, #[trigger] files[t]),
    ensures
        spec_checkpoint_map(m, dir, files).contains_key(k) == m.contains_key(k),
        m.contains_key(k) ==> spec_checkpoint_map(m, dir, files)[k] == m[k],
    decreases files.len(),
{
    if files.len() > 0 {
        let f = files[0];
        let m1 = if m.contains_key(f) {
            m.insert(spec_checkpoint_name(dir, f), m[f])
        } else {
            m
        };
        assert(forall|t: int|
            0 <= t < files.drop_first().len() ==> #[trigger] files.drop_first()[t] == files[t + 1]);
        lemma_checkpoint_map_frame(m1, dir, files.drop_first(), k);
    }
}

/// After checkpointing, the backup of each file holds that file's content at
/// checkpoint time.
proof fn lemma_checkpoint_map_value(
    m: Map<Seq<char>, Seq<char>>,
    dir: Seq<char>,
    files: Seq<Seq<char>>,
    i: int,
)
    requires
        0 <= i < files.len(),
        forall|t: int| 0 <= t < files.len() ==> m.contains_key(#[trigger] files[t]),
        forall|t: int| 0 <= t < files.len() ==> !spec_in_dir(#[trigger] files[t], dir),
        forall|t1: int, t2: int|
            0 <= t1 < t2 < files.len() ==> spec_checkpoint_name(dir, #[trigger] files[t1])
                != spec_checkpoint_name(dir, #[trigger] files[t2]),
    ensures
        spec_checkpoint_map(m, dir, files).contains_key(spec_checkpoint_name(dir, files[i])),
        spec_checkpoint_map(m, dir, files)[spec_checkpoint_name(dir, files[i])] == m[files[i]],
    decreases files.len(),
{
    let f = files[0];
    let cp0 = spec_checkpoint_name(dir, f);
    let m1 = m.insert(cp0, m[f]);
    let rest = files.drop_first();
    assert(forall|t: int| 0 <= t < rest.len() ==> #[trigger] rest[t] == files[t + 1]);
    lemma_checkpoint_name_in_dir(dir, f);
    if i == 0 {
        assert(forall|t: int|
            0 <= t < rest.len() ==> cp0 != spec_checkpoint_name(dir, #[trigger] rest[t]));
        lemma_checkpoint_map_frame(m1, dir, rest, cp0);
    } else {
        assert(forall|t: int| 0 <= t < rest.len() ==> !spec_in_dir(#[trigger] rest[t], dir));
        assert forall|t: int| 0 <= t < rest.len() implies m1.contains_key(#[trigger] rest[t])
            && m1[rest[t]] == m[rest[t]] by {
            assert(!spec_in_dir(rest[t], dir));
            assert(rest[t] != cp0);
        }
        lemma_checkpoint_map_value(m1, dir, rest, i - 1);
    }
}

/// Restoring touches no key other than the originals its pairs name.
proof fn lemma_restore_map_frame(
    m: Map<Seq<char>, Seq<char>>,
    pairs: Seq<(Seq<char>, Seq<char>)>,
    k: Seq<char>,
)
    requires
        forall|t: int| 0 <= t < pairs.len() ==> k != (#[trigger] pairs[t]).0,
    ensures
        spec_restore_map(m, pairs).contains_key(k) == m.contains_key(k),
        m.contains_key(k) ==> spec_restore_map(m, pairs)[k] == m[k],
    decreases pairs.len(),
{
    if pairs.len() > 0 {
        let m1 = if m.contains_key(pairs[0].1) {
            m.insert(pairs[0].0, m[pairs[0].1])
        } else {
            m
        };
        assert(forall|t: int|
            0 <= t < pairs.drop_first().len() ==> #[trigger] pairs.drop_first()[t] == pairs[t + 1]);
        lemma_restore_map_frame(m1, pairs.drop_first(), k);
    }
}

/// Restoring copies each existing backup onto its original, when the
/// originals are distinct and no original doubles as a backup.
proof fn lemma_restore_map_value(
    m: Map<Seq<char>, Seq<char>>,
    pairs: Seq<(Seq<char>, Seq<char>)>,
    i: int,
)
    requires
        0 <= i < pairs.len(),
        m.contains_key(pairs[i].1),
        forall|t1: int, t2: int|
            0 <= t1 < t2 < pairs.len() ==> (#[trigger] pairs[t1]).0 != (#[trigger] pairs[t2]).0,
        forall|t1: int, t2: int|
            0 <= t1 < pairs.len() && 0 <= t2 < pairs.len() ==> (#[trigger] pairs[t1]).0 != (
            #[trigger] pairs[t2]).1,
    ensures
        spec_restore_map(m, pairs).contains_key(pairs[i].0),
        spec_restore_map(m, pairs)[pairs[i].0] == m[pairs[i].1],
    decreases pairs.len(),
{
    let m1 = if m.contains_key(pairs[0].1) {
        m.insert(pairs[0].0, m[pairs[0].1])
    } else {
        m
    };
    let rest = pairs.drop_first();
    assert(forall|t: int| 0 <= t < rest.len() ==> #[trigger] rest[t] == pairs[t + 1]);
    if i == 0 {
        assert(m1.contains_key(pairs[0].0) && m1[pairs[0].0] == m[pairs[0].1]);
        assert(forall|t: int| 0 <= t < rest.len() ==> pairs[0].0 != (#[trigger] rest[t]).0);
        lemma_restore_map_frame(m1, rest, pairs[0].0);
    } else {
        assert(m1.contains_key(pairs[i].1) && m1[pairs[i].1] == m[pairs[i].1]);
        lemma_restore_map_value(m1, rest, i - 1);
    }
}

/// Whether two file sets agree everywhere outside `files`.
pub open spec fn agrees_except(
    m1: Map<Seq<char>, Seq<char>>,
    m2: Map<Seq<char>, Seq<char>>,
    files: Seq<Seq<char>>,
) -> bool {
    forall|k: Seq<char>|
        #![trigger m1.contains_key(k)]
        #![trigger m2.contains_key(k)]
        !files.contains(k) ==> ((m1.contains_key(k) <==> m2.contains_key(k)) && (m1.contains_key(
            k,
        ) && m2.contains_key(k) ==> m1[k] == m2[k]))
}

/// Checkpointing a set of files, then changing only those files, then
/// reverting, restores every one of them to its checkpoint-time content.
/// `m2` is any state that agrees with the checkpointed state outside the
/// checkpointed files themselves.
pub proof fn lemma_checkpoint_revert_restores(
    m0: Map<Seq<char>, Seq<char>>,
    dir: Seq<char>,
    files: Seq<Seq<char>>,
    m2: Map<Seq<char>, Seq<char>>,
)
    requires
        forall|t: int| 0 <= t < files.len() ==> m0.contains_key(#[trigger] files[t]),
        forall|t: int| 0 <= t < files.len() ==> !spec_in_dir(#[trigger] files[t], dir),
        forall|t1: int, t2: int|
            0 <= t1 < t2 < files.len() ==> spec_checkpoint_name(dir, #[trigger] files[t1])
                != spec_checkpoint_name(dir, #[trigger] files[t2]),
        forall|t1: int, t2: int|
            0 <= t1 < t2 < files.len() ==> #[trigger] files[t1] != #[trigger] files[t2],
        agrees_except(
            spec_checkpoint_map(m0.remove_keys(dir_keys(dir)), dir, files),
            m2,
            files,
        ),
    ensures
        forall|t: int|
            0 <= t < files.len() ==> spec_restore_map(
                m2,
                spec_checkpoint_pairs(dir, files),
            ).contains_key(#[trigger] files[t]) && spec_restore_map(
                m2,
                spec_checkpoint_pairs(dir, files),
            )[files[t]] == m0[files[t]],
{
    let md = m0.remove_keys(dir_keys(dir));
    let mc = spec_checkpoint_map(md, dir, files);
    let pairs = spec_checkpoint_pairs(dir, files);
    assert(pairs.len() == files.len());
    assert forall|t: int| 0 <= t < files.len() implies spec_restore_map(m2, pairs).contains_key(
        #[trigger] files[t],
    ) && spec_restore_map(m2, pairs)[files[t]] == m0[files[t]] by {
        let cp = spec_checkpoint_name(dir, files[t]);
        lemma_checkpoint_name_in_dir(dir, files[t]);
        assert(forall|j: int| 0 <= j < files.len() ==> md.contains_key(#[trigger] files[j])
            && md[files[j]] == m0[files[j]]);
        lemma_checkpoint_map_value(md, dir, files, t);
        assert(mc.contains_key(cp) && mc[cp] == m0[files[t]]);
        assert(!files.contains(cp)) by {
            if files.contains(cp) {
                let j = choose|j: int| 0 <= j < files.len() && files[j] == cp;
                assert(!spec_in_dir(files[j], dir));
            }
        }
        assert(m2.contains_key(cp) && m2[cp] == m0[files[t]]);
        assert(forall|j: int| 0 <= j < pairs.len() ==> #[trigger] pairs[j]
            == (files[j], spec_checkpoint_name(dir, files[j])));
        assert(pairs[t].1 == cp && pairs[t].0 == files[t]);
        assert(forall|t1: int, t2: int|
            0 <= t1 < t2 < pairs.len() ==> (#[trigger] pairs[t1]).0 != (#[trigger] pairs[t2]).0);
        assert forall|t1: int, t2: int|
            0 <= t1 < pairs.len() && 0 <= t2 < pairs.len() implies (#[trigger] pairs[t1]).0 != (
        #[trigger] pairs[t2]).1 by {
            lemma_checkpoint_name_in_dir(dir, files[t2]);
        }
        lemma_restore_map_value(m2, pairs, t);
    }
}

/// Creating a checkpoint discards the previous checkpoint's backups: after
/// it, nothing lives inside the checkpoint directory but the new backups.
pub proof fn lemma_checkpoint_discards_previous(
    m0: Map<Seq<char>, Seq<char>>,
    dir: Seq<char>,
    files: Seq<Seq<char>>,
    k: Seq<char>,
)
    requires
        spec_in_dir(k, dir),
        forall|t: int| 0 <= t < files.len() ==> k != spec_checkpoint_name(dir, #[trigger] files[t]),
    ensures
        !spec_checkpoint_map(m0.remove_keys(dir_keys(dir)), dir, files).contains_key(k),
{
    lemma_checkpoint_map_frame(m0.remove_keys(dir_keys(dir)), dir, files, k);
}

/// Rolling back a run that changed file `a` and created file `b` restores
/// `a` byte for byte, removes `b`, and leaves nothing in the rollback
/// directory, the record included.
pub proof fn lemma_rollback_restores_run(
    m0: Map<Seq<char>, Seq<char>>,
    dir: Seq<char>,
    a: Seq<char>,
    b: Seq<char>,
    ca: Seq<char>,
    cb: Seq<char>,
)
    requires
        m0.contains_key(a),
        !m0.contains_key(b),
        !spec_in_dir(a, dir),
        !spec_in_dir(b, dir),
        a != b,
    ensures
        ({
            let saved = spec_save_map(m0, dir, seq![a]);
            let pairs = spec_save_pairs(m0, dir, seq![a]);
            let run = saved.insert(a, ca).insert(b, cb);
            let rolled = spec_restore_map(spec_delete_map(run, seq![b]), pairs).remove_keys(
                dir_keys(dir),
            );
            &&& rolled.contains_key(a)
            &&& rolled[a] == m0[a]
            &&& !rolled.contains_key(b)
            &&& forall|k: Seq<char>| spec_in_dir(k, dir) ==> !rolled.contains_key(k)
        }),
{
    let bn = spec_backup_name(dir, a);
    lemma_backup_in_dir(dir, a);
    assert(bn != a && bn != b);
    let efiles: Seq<Seq<char>> = Seq::empty();
    let epairs: Seq<(Seq<char>, Seq<char>)> = Seq::empty();
    let saved = spec_save_map(m0, dir, seq![a]);
    let pairs = spec_save_pairs(m0, dir, seq![a]);
    let m0b = m0.insert(bn, m0[a]);
    assert(seq![a].drop_first() =~= efiles);
    assert(seq![a][0] == a);
    assert(spec_save_map(m0b, dir, efiles) == m0b);
    assert(saved == m0b);
    assert(spec_save_pairs(m0b, dir, efiles) =~= epairs);
    assert(pairs =~= seq![(a, bn)]);
    let run = saved.insert(a, ca).insert(b, cb);
    let deleted = spec_delete_map(run, seq![b]);
    assert(seq![b].drop_first() =~= efiles);
    assert(spec_delete_map(run.remove(b), efiles) == run.remove(b));
    assert(deleted == run.remove(b));
    assert(deleted.contains_key(bn) && deleted[bn] == m0[a]);
    let restored = spec_restore_map(deleted, pairs);
    assert(pairs.drop_first() =~= epairs);
    assert(pairs[0].0 == a && pairs[0].1 == bn);
    let dins = deleted.insert(a, deleted[bn]);
    assert(spec_restore_map(dins, epairs) == dins);
    assert(restored == dins);
    assert(restored.contains_key(a) && restored[a] == m0[a]);
    assert(!restored.contains_key(b));
}

} // verus!\n