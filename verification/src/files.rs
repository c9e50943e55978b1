//! Selecting the files a run works on: the caller enumerates what is on
//! disk, and this module applies the rules — an ignore list matched by path
//! prefix, and a fixed set of text-file extensions for files found inside a
//! requested directory.

use vstd::prelude::*;

use crate::scan::{matches_at, matches_at_exec};
use crate::snapshot::{file_name, lemma_rfind, rfind, spec_file_name};

verus! {

/// One entry of a recursive directory listing, as the caller enumerated it.
#[derive(Debug, Clone, PartialEq, Eq)]
pub struct DirEntry {
    pub path: String,
    pub is_file: bool,
}

/// The mathematical value of a [`DirEntry`].
#[verifier::ext_equal]
pub struct SpecDirEntry {
    pub path: Seq<char>,
    pub is_file: bool,
}

impl DeepView for DirEntry {
    type V = SpecDirEntry;

    open spec fn deep_view(&self) -> SpecDirEntry {
        SpecDirEntry { path: self.path@, is_file: self.is_file }
    }
}

/// One requested path with what the filesystem says of it: whether it is a
/// file or a directory, and for a directory its recursive contents.
#[derive(Debug, Clone, PartialEq, Eq)]
pub struct PathListing {
    pub path: String,
    pub is_file: bool,
    pub is_dir: bool,
    pub entries: Vec<DirEntry>,
}

/// The mathematical value of a [`PathListing`].
#[verifier::ext_equal]
pub struct SpecPathListing {
    pub path: Seq<char>,
    pub is_file: bool,
    pub is_dir: bool,
    pub entries: Seq<SpecDirEntry>,
}

impl DeepView for PathListing {
    type V = SpecPathListing;

    open spec fn deep_view(&self) -> SpecPathListing {
        SpecPathListing {
            path: self.path@,
            is_file: self.is_file,
            is_dir: self.is_dir,
            entries: self.entries.deep_view(),
        }
    }
}

/// Whether `prefix` is a whole-component prefix of `path`: the empty prefix
/// always is; otherwise `path` continues after `prefix` only at a path
/// separator. Prefixes are given without a trailing separator.
pub open spec fn path_starts_with(path: Seq<char>, prefix: Seq<char>) -> bool {
    prefix.len() == 0 || (matches_at(path, 0, prefix) && (path.len() == prefix.len() || path[
        prefix.len() as int
    ] == '/'))
}

/// Whether some ignore-list entry is a prefix of `path`.
pub open spec fn spec_is_ignored(path: Seq<char>, ignored: Seq<Seq<char>>) -> bool {
    exists|i: int| 0 <= i < ignored.len() && path_starts_with(path, #[trigger] ignored[i])
}

/// The extension of `path`: what follows the last `'.'` of its final
/// component, unless that dot begins the component.
pub open spec fn spec_extension(path: Seq<char>) -> Option<Seq<char>> {
    let f = spec_file_name(path);
    let d = rfind(f, '.');
    if d <= 0 {
        None
    } else {
        Some(f.skip(d + 1))
    }
}

/// `c` folded to lower case when it is an ASCII capital.
pub open spec fn lower_char(c: char) -> char {
    if 'A' <= c <= 'Z' {
        ((c as u8) + 32) as char
    } else {
        c
    }
}

/// `s` with ASCII capitals folded to lower case.
pub open spec fn spec_lower(s: Seq<char>) -> Seq<char> {
    s.map_values(|c: char| lower_char(c))
}

/// Whether `e` (already lower case) is one of the recognized text-file
/// extensions.
pub open spec fn is_text_ext_name(e: Seq<char>) -> bool {
    ||| e == "txt"@
    ||| e == "rs"@
    ||| e == "ts"@
    ||| e == "js"@
    ||| e == "go"@
    ||| e == "json"@
    ||| e == "py"@
    ||| e == "cpp"@
    ||| e == "c"@
    ||| e == "h"@
    ||| e == "hpp"@
    ||| e == "css"@
    ||| e == "html"@
    ||| e == "md"@
    ||| e == "yaml"@
    ||| e == "yml"@
    ||| e == "toml"@
    ||| e == "xml"@
    ||| e == "tsx"@
}

/// Whether `path` names a recognized text file, by its extension, case
/// folded.
pub open spec fn spec_is_text_file(path: Seq<char>) -> bool {
    match spec_extension(path) {
        Some(e) => is_text_ext_name(spec_lower(e)),
        None => false,
    }
}

/// Whether `prefix` is a whole-component prefix of `path`.
pub fn starts_with_component(path: &str, prefix: &str) -> (r: bool)
    ensures
        r == path_starts_with(path@, prefix@),
{
    let n = path.unicode_len();
    let m = prefix.unicode_len();
    if m == 0 {
        return true;
    }
    if !matches_at_exec(path, 0, prefix) {
        return false;
    }
    n == m || path.get_char(m) == '/'
}

/// Whether some ignore-list entry is a prefix of `path`.
pub fn is_ignored(path: &str, ignored: &Vec<String>) -> (r: bool)
    ensures
        r == spec_is_ignored(path@, ignored.deep_view()),
{
    let ghost ig = ignored.deep_view();
    let mut i: usize = 0;
    while i < ignored.len()
        invariant
            i <= ignored@.len(),
            ig == ignored.deep_view(),
            ig.len() == ignored@.len(),
            forall|t: int| 0 <= t < i ==> !path_starts_with(path@, #[trigger] ig[t]),
        decreases ignored@.len() - i,
    {
        proof {
            assert(ig[i as int] == ignored@[i as int]@);
        }
        if starts_with_component(path, ignored[i].as_str()) {
            return true;
        }
        i = i + 1;
    }
    false
}

/// `c` folded to lower case when it is an ASCII capital.
fn lower_char_exec(c: char) -> (r: char)
    ensures
        r == lower_char(c),
{
    if c >= 'A' && c <= 'Z' {
        ((c as u8) + 32) as char
    } else {
        c
    }
}

/// Whether `s`, case folded, equals the (lower-case) `lit`.
fn eq_lower(s: &str, lit: &str) -> (r: bool)
    ensures
        r == (spec_lower(s@) == lit@),
{
    let n = s.unicode_len();
    if n != lit.unicode_len() {
        return false;
    }
    let mut k: usize = 0;
    while k < n
        invariant
            k <= n,
            n == s@.len(),
            n == lit@.len(),
            forall|t: int| 0 <= t < k ==> lower_char(s@[t]) == lit@[t],
        decreases n - k,
    {
        if lower_char_exec(s.get_char(k)) != lit.get_char(k) {
            assert(spec_lower(s@)[k as int] != lit@[k as int]);
            return false;
        }
        k = k + 1;
    }
    proof {
        assert(spec_lower(s@) =~= lit@);
    }
    true
}

/// Whether `path` names a recognized text file, by its extension, case
/// folded.
pub fn has_text_extension(path: &str) -> (r: bool)
    ensures
        r == spec_is_text_file(path@),
{
    let f = file_name(path);
    let n = f.as_str().unicode_len();
    proof {
        lemma_rfind(f@, '.');
    }
    let mut i = n;
    while i > 0
        invariant
            i <= n,
            n == f@.len(),
            f@ == spec_file_name(path@),
            forall|k: int| i <= k < n ==> f@[k] != '.',
        decreases i,
    {
        if f.as_str().get_char(i - 1) == '.' {
            proof {
                lemma_rfind(f@, '.');
                assert(rfind(f@, '.') == i - 1);
            }
            if i - 1 == 0 {
                return false;
            }
            let ext = f.as_str().substring_char(i, n);
            proof {
                assert(ext@ == f@.skip(i as int));
            }
            return eq_lower(ext, "txt") || eq_lower(ext, "rs") || eq_lower(ext, "ts")
                || eq_lower(ext, "js") || eq_lower(ext, "go") || eq_lower(ext, "json")
                || eq_lower(ext, "py") || eq_lower(ext, "cpp") || eq_lower(ext, "c") || eq_lower(
                ext,
                "h",
            ) || eq_lower(ext, "hpp") || eq_lower(ext, "css") || eq_lower(ext, "html")
                || eq_lower(ext, "md") || eq_lower(ext, "yaml") || eq_lower(ext, "yml")
                || eq_lower(ext, "toml") || eq_lower(ext, "xml") || eq_lower(ext, "tsx");
        }
        i = i - 1;
    }
    proof {
        lemma_rfind(f@, '.');
        assert(rfind(f@, '.') == -1);
    }
    false
}

/// The files inside one requested directory that the run works on: the text
/// files that the ignore list does not exclude, in listing order.
pub open spec fn spec_selected_dir(
    entries: Seq<SpecDirEntry>,
    ignored: Seq<Seq<char>>,
) -> Seq<Seq<char>>
    decreases entries.len(),
{
    if entries.len() == 0 {
        Seq::empty()
    } else {
        let rest = spec_selected_dir(entries.drop_first(), ignored);
        let e = entries[0];
        if e.is_file && !spec_is_ignored(e.path, ignored) && spec_is_text_file(e.path) {
            seq![e.path] + rest
        } else {
            rest
        }
    }
}

/// The files a run works on, for the whole request: a requested file kept
/// unless ignored, a requested directory expanded into its unignored text
/// files, anything else dropped.
pub open spec fn spec_files_to_press(
    listing: Seq<SpecPathListing>,
    ignored: Seq<Seq<char>>,
) -> Seq<Seq<char>>
    decreases listing.len(),
{
    if listing.len() == 0 {
        Seq::empty()
    } else {
        let rest = spec_files_to_press(listing.drop_first(), ignored);
        let pl = listing[0];
        if pl.is_file && !spec_is_ignored(pl.path, ignored) {
            seq![pl.path] + rest
        } else if pl.is_dir {
            spec_selected_dir(pl.entries, ignored) + rest
        } else {
            rest
        }
    }
}

/// Selects the files to process from what the caller found on disk,
/// filtering out ignored paths; a requested directory contributes its text
/// files.
pub fn get_files_to_press(listing: &Vec<PathListing>, ignore_paths: &Vec<String>) -> (r: Vec<
    String,
>)
    ensures
        r.deep_view() == spec_files_to_press(listing.deep_view(), ignore_paths.deep_view()),
{
    let ghost lv = listing.deep_view();
    let ghost ig = ignore_paths.deep_view();
    let mut out: Vec<String> = Vec::new();
    let mut i: usize = 0;
    proof {
        assert(lv.skip(0) =~= lv);
        assert(out.deep_view() =~= Seq::<Seq<char>>::empty());
    }
    while i < listing.len()
        invariant
            i <= listing@.len(),
            lv == listing.deep_view(),
            ig == ignore_paths.deep_view(),
            lv.len() == listing@.len(),
            out.deep_view() + spec_files_to_press(lv.skip(i as int), ig) =~= spec_files_to_press(
                lv,
                ig,
            ),
        decreases listing@.len() - i,
    {
        proof {
            assert(lv.skip(i as int)[0] == lv[i as int]);
            assert(lv[i as int] == listing@[i as int].deep_view());
            assert(lv.skip(i as int).drop_first() =~= lv.skip(i + 1));
        }
        let pl = &listing[i];
        let ghost oprev = out.deep_view();
        if pl.is_file && !is_ignored(pl.path.as_str(), ignore_paths) {
            out.push(pl.path.clone());
            proof {
                assert(out.deep_view() =~= oprev.push(lv[i as int].path));
            }
        } else if pl.is_dir {
            let ghost ev = pl.entries.deep_view();
            let mut t: usize = 0;
            proof {
                assert(ev.skip(0) =~= ev);
            }
            while t < pl.entries.len()
                invariant
                    t <= pl.entries@.len(),
                    i < listing@.len(),
                    lv == listing.deep_view(),
                    ig == ignore_paths.deep_view(),
                    ev == listing@[i as int].entries.deep_view(),
                    ev.len() == listing@[i as int].entries@.len(),
                    pl == &listing[i as int],
                    out.deep_view() + spec_selected_dir(ev.skip(t as int), ig) =~= oprev
                        + spec_selected_dir(ev, ig),
                decreases pl.entries@.len() - t,
            {
                proof {
                    assert(ev.skip(t as int)[0] == ev[t as int]);
                    assert(ev[t as int] == listing@[i as int].entries@[t as int].deep_view());
                    assert(ev.skip(t as int).drop_first() =~= ev.skip(t + 1));
                }
                let e = &pl.entries[t];
                let ghost eprev = out.deep_view();
                if e.is_file && !is_ignored(e.path.as_str(), ignore_paths) && has_text_extension(
                    e.path.as_str(),
                ) {
                    out.push(e.path.clone());
                    proof {
                        assert(out.deep_view() =~= eprev.push(ev[t as int].path));
                    }
                }
                t = t + 1;
            }
            proof {
                assert(ev.skip(pl.entries@.len() as int) =~= Seq::<SpecDirEntry>::empty());
                assert(out.deep_view() =~= oprev + spec_selected_dir(ev, ig));
            }
        }
        proof {
            assert(out.deep_view() + spec_files_to_press(lv.skip(i + 1), ig) =~= spec_files_to_press(
                lv,
                ig,
            ));
        }
        i = i + 1;
    }
    proof {
        assert(lv.skip(listing@.len() as int) =~= Seq::<SpecPathListing>::empty());
        assert(out.deep_view() =~= spec_files_to_press(lv, ig));
    }
    out
}

} // verus!
