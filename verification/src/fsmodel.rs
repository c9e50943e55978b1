//! An in-memory model of the files a run touches: a map from path to
//! content. The snapshot managers are specified and proved against this
//! model, and the scenario tests run against it; a caller that works on a
//! real tree performs the same reads and writes against disk.

use vstd::prelude::*;

use crate::scan::{matches_at, matches_at_exec};

verus! {

/// A set of files: each entry is a path and its content; a later entry for
/// the same path supersedes an earlier one.
pub struct FileMap {
    entries: Vec<(String, String)>,
}

/// The map an entry list denotes: later entries win.
pub open spec fn map_of(entries: Seq<(String, String)>) -> Map<Seq<char>, Seq<char>>
    decreases entries.len(),
{
    if entries.len() == 0 {
        Map::empty()
    } else {
        map_of(entries.drop_last()).insert(entries.last().0@, entries.last().1@)
    }
}

impl View for FileMap {
    type V = Map<Seq<char>, Seq<char>>;

    closed spec fn view(&self) -> Map<Seq<char>, Seq<char>> {
        map_of(self.entries@)
    }
}

/// Whether `key` lies inside directory `dir`: `dir` is a proper prefix
/// followed by a path separator.
pub open spec fn spec_in_dir(key: Seq<char>, dir: Seq<char>) -> bool {
    key.len() > dir.len() && matches_at(key, 0, dir) && key[dir.len() as int] == '/'
}

/// The keys inside directory `dir`.
pub open spec fn dir_keys(dir: Seq<char>) -> Set<Seq<char>> {
    Set::new(|k: Seq<char>| spec_in_dir(k, dir))
}

/// Whether `key` lies inside directory `dir`.
pub fn in_dir(key: &str, dir: &str) -> (r: bool)
    ensures
        r == spec_in_dir(key@, dir@),
{
    let n = key.unicode_len();
    let m = dir.unicode_len();
    n > m && matches_at_exec(key, 0, dir) && key.get_char(m) == '/'
}

impl FileMap {
    /// An empty file set.
    pub fn new() -> (r: FileMap)
        ensures
            r@ == Map::<Seq<char>, Seq<char>>::empty(),
    {
        FileMap { entries: Vec::new() }
    }

    /// Whether a file exists at `path`.
    pub fn contains(&self, path: &str) -> (r: bool)
        ensures
            r == self@.contains_key(path@),
    {
        let w = String::from_str(path);
        let mut i = self.entries.len();
        proof {
            assert(self.entries@.take(self.entries@.len() as int) =~= self.entries@);
        }
        while i > 0
            invariant
                i <= self.entries@.len(),
                w@ == path@,
                self@.contains_key(path@) == map_of(self.entries@.take(i as int)).contains_key(
                    path@,
                ),
            decreases i,
        {
            proof {
                assert(self.entries@.take(i as int).drop_last() =~= self.entries@.take(i - 1));
                assert(self.entries@.take(i as int).last() == self.entries@[i - 1]);
            }
            if self.entries[i - 1].0.eq(&w) {
                return true;
            }
            i = i - 1;
        }
        proof {
            assert(self.entries@.take(0) =~= Seq::<(String, String)>::empty());
        }
        false
    }

    /// The content of the file at `path`, when one exists.
    pub fn read(&self, path: &str) -> (r: Option<String>)
        ensures
            match r {
                Some(c) => self@.contains_key(path@) && c@ == self@[path@],
                None => !self@.contains_key(path@),
            },
    {
        let w = String::from_str(path);
        let mut i = self.entries.len();
        proof {
            assert(self.entries@.take(self.entries@.len() as int) =~= self.entries@);
        }
        while i > 0
            invariant
                i <= self.entries@.len(),
                w@ == path@,
                self@.contains_key(path@) == map_of(self.entries@.take(i as int)).contains_key(
                    path@,
                ),
                self@.contains_key(path@) ==> self@[path@] == map_of(
                    self.entries@.take(i as int),
                )[path@],
            decreases i,
        {
            proof {
                assert(self.entries@.take(i as int).drop_last() =~= self.entries@.take(i - 1));
                assert(self.entries@.take(i as int).last() == self.entries@[i - 1]);
            }
            if self.entries[i - 1].0.eq(&w) {
                return Some(self.entries[i - 1].1.clone());
            }
            i = i - 1;
        }
        proof {
            assert(self.entries@.take(0) =~= Seq::<(String, String)>::empty());
        }
        None
    }

    /// Writes `content` to `path`, creating the file or replacing what was
    /// there.
    pub fn write(&mut self, path: &str, content: String)
        ensures
            final(self)@ == old(self)@.insert(path@, content@),
    {
        let ghost prev = self.entries@;
        self.entries.push((String::from_str(path), content));
        proof {
            assert(self.entries@.drop_last() =~= prev);
        }
    }

    /// Deletes the file at `path`; deleting a missing file changes nothing.
    pub fn delete(&mut self, path: &str)
        ensures
            final(self)@ == old(self)@.remove(path@),
    {
        let w = String::from_str(path);
        let ghost all = self.entries@;
        let mut kept: Vec<(String, String)> = Vec::new();
        let mut i: usize = 0;
        proof {
            assert(all.take(0) =~= Seq::<(String, String)>::empty());
            assert(map_of(kept@) =~= map_of(all.take(0)).remove(path@));
        }
        while i < self.entries.len()
            invariant
                i <= self.entries@.len(),
                all == self.entries@,
                w@ == path@,
                map_of(kept@) =~= map_of(all.take(i as int)).remove(path@),
            decreases self.entries@.len() - i,
        {
            proof {
                assert(all.take(i + 1).drop_last() =~= all.take(i as int));
                assert(all.take(i + 1).last() == all[i as int]);
            }
            let ghost kprev = kept@;
            if !self.entries[i].0.eq(&w) {
                kept.push((self.entries[i].0.clone(), self.entries[i].1.clone()));
                proof {
                    assert(kept@.drop_last() =~= kprev);
                    assert(map_of(kept@) =~= map_of(all.take(i + 1)).remove(path@));
                }
            } else {
                proof {
                    assert(map_of(all.take(i + 1)).remove(path@) =~= map_of(
                        all.take(i as int),
                    ).remove(path@));
                }
            }
            i = i + 1;
        }
        proof {
            assert(all.take(all.len() as int) =~= all);
        }
        self.entries = kept;
    }

    /// Deletes every file inside directory `dir`, as removing the directory
    /// tree does.
    pub fn remove_tree(&mut self, dir: &str)
        ensures
            final(self)@ == old(self)@.remove_keys(dir_keys(dir@)),
    {
        let ghost all = self.entries@;
        let mut kept: Vec<(String, String)> = Vec::new();
        let mut i: usize = 0;
        proof {
            assert(all.take(0) =~= Seq::<(String, String)>::empty());
            assert(map_of(kept@) =~= map_of(all.take(0)).remove_keys(dir_keys(dir@)));
        }
        while i < self.entries.len()
            invariant
                i <= self.entries@.len(),
                all == self.entries@,
                map_of(kept@) =~= map_of(all.take(i as int)).remove_keys(dir_keys(dir@)),
            decreases self.entries@.len() - i,
        {
            proof {
                assert(all.take(i + 1).drop_last() =~= all.take(i as int));
                assert(all.take(i + 1).last() == all[i as int]);
            }
            let ghost kprev = kept@;
            if !in_dir(self.entries[i].0.as_str(), dir) {
                kept.push((self.entries[i].0.clone(), self.entries[i].1.clone()));
                proof {
                    assert(kept@.drop_last() =~= kprev);
                    assert(map_of(kept@) =~= map_of(all.take(i + 1)).remove_keys(dir_keys(dir@)));
                }
            } else {
                proof {
                    assert(map_of(all.take(i + 1)).remove_keys(dir_keys(dir@)) =~= map_of(
                        all.take(i as int),
                    ).remove_keys(dir_keys(dir@)));
                }
            }
            i = i + 1;
        }
        proof {
            assert(all.take(all.len() as int) =~= all);
        }
        self.entries = kept;
    }
}

} // verus!
