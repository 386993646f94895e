//! An in-memory model of the slice of the filesystem that the marketplace
//! operations touch: a set of regular files with text content and a set of
//! directories.
//!
//! Every mutation pipeline in this crate is specified and verified against
//! this model. A caller working against a real disk loads the relevant files
//! and directories into an [`Fs`], runs the pipeline, and writes the changed
//! entries back.

use vstd::prelude::*;

use crate::paths::{is_under, str_eq, strictly_under, under, under_set};

verus! {

/// One regular file: a path and its text content.
pub struct FsFile {
    pub path: String,
    pub data: String,
}

/// The filesystem model: files with contents, and directories.
pub struct Fs {
    pub files: Vec<FsFile>,
    pub dirs: Vec<String>,
}

/// The files of a sequence of entries, as a map from path to content.
/// Later entries win, matching how the operations below keep paths unique.
pub open spec fn file_map_of(s: Seq<FsFile>) -> Map<Seq<char>, Seq<char>>
    decreases s.len(),
{
    if s.len() == 0 {
        Map::empty()
    } else {
        file_map_of(s.drop_last()).insert(s.last().path@, s.last().data@)
    }
}

pub open spec fn dir_set_of(s: Seq<String>) -> Set<Seq<char>>
    decreases s.len(),
{
    if s.len() == 0 {
        Set::empty()
    } else {
        dir_set_of(s.drop_last()).insert(s.last()@)
    }
}

pub open spec fn files_unique(s: Seq<FsFile>) -> bool {
    forall|i: int, j: int| 0 <= i < j < s.len() ==> s[i].path@ != s[j].path@
}

pub open spec fn dirs_unique(s: Seq<String>) -> bool {
    forall|i: int, j: int| 0 <= i < j < s.len() ==> s[i]@ != s[j]@
}

proof fn lemma_file_map_contains_at(s: Seq<FsFile>, i: int)
    requires
        0 <= i < s.len(),
    ensures
        file_map_of(s).contains_key(s[i].path@),
    decreases s.len(),
{
    if i < s.len() - 1 {
        lemma_file_map_contains_at(s.drop_last(), i);
    }
}

proof fn lemma_file_map_value_at(s: Seq<FsFile>, i: int)
    requires
        0 <= i < s.len(),
        forall|j: int| i < j < s.len() ==> s[j].path@ != s[i].path@,
    ensures
        file_map_of(s).contains_key(s[i].path@),
        file_map_of(s)[s[i].path@] == s[i].data@,
    decreases s.len(),
{
    if i < s.len() - 1 {
        lemma_file_map_value_at(s.drop_last(), i);
    }
}

proof fn lemma_file_map_absent(s: Seq<FsFile>, p: Seq<char>)
    requires
        forall|i: int| 0 <= i < s.len() ==> s[i].path@ != p,
    ensures
        !file_map_of(s).contains_key(p),
    decreases s.len(),
{
    if s.len() > 0 {
        lemma_file_map_absent(s.drop_last(), p);
    }
}

/// Every key of the map names some entry of the sequence.
proof fn lemma_file_map_key_has_index(s: Seq<FsFile>, p: Seq<char>)
    requires
        file_map_of(s).contains_key(p),
    ensures
        exists|i: int| 0 <= i < s.len() && s[i].path@ == p,
    decreases s.len(),
{
    if s.len() > 0 && s.last().path@ != p {
        lemma_file_map_key_has_index(s.drop_last(), p);
    }
}

proof fn lemma_file_map_remove_idx(s: Seq<FsFile>, i: int)
    requires
        files_unique(s),
        0 <= i < s.len(),
    ensures
        file_map_of(s.remove(i)) == file_map_of(s).remove(s[i].path@),
        files_unique(s.remove(i)),
    decreases s.len(),
{
    assert forall|a: int, b: int| 0 <= a < b < s.remove(i).len() implies s.remove(i)[a].path@
        != s.remove(i)[b].path@ by {
        assert(s.remove(i)[a] == if a < i {
            s[a]
        } else {
            s[a + 1]
        });
        assert(s.remove(i)[b] == if b < i {
            s[b]
        } else {
            s[b + 1]
        });
    }
    if i == s.len() - 1 {
        assert(s.remove(i) =~= s.drop_last());
        lemma_file_map_absent(s.drop_last(), s[i].path@);
        assert(file_map_of(s.drop_last()) =~= file_map_of(s).remove(s[i].path@));
    } else {
        let dl = s.drop_last();
        assert(s.remove(i).drop_last() =~= dl.remove(i));
        assert(s.remove(i).last() == s.last());
        lemma_file_map_remove_idx(dl, i);
        assert(file_map_of(s.remove(i)) =~= file_map_of(s).remove(s[i].path@));
    }
}

proof fn lemma_dir_set_contains_at(s: Seq<String>, i: int)
    requires
        0 <= i < s.len(),
    ensures
        dir_set_of(s).contains(s[i]@),
    decreases s.len(),
{
    if i < s.len() - 1 {
        lemma_dir_set_contains_at(s.drop_last(), i);
    }
}

proof fn lemma_dir_set_absent(s: Seq<String>, p: Seq<char>)
    requires
        forall|i: int| 0 <= i < s.len() ==> s[i]@ != p,
    ensures
        !dir_set_of(s).contains(p),
    decreases s.len(),
{
    if s.len() > 0 {
        lemma_dir_set_absent(s.drop_last(), p);
    }
}

proof fn lemma_dir_set_elem_has_index(s: Seq<String>, p: Seq<char>)
    requires
        dir_set_of(s).contains(p),
    ensures
        exists|i: int| 0 <= i < s.len() && s[i]@ == p,
    decreases s.len(),
{
    if s.len() > 0 && s.last()@ != p {
        lemma_dir_set_elem_has_index(s.drop_last(), p);
    }
}

impl Fs {
    /// The files as a map from path to content.
    pub open spec fn file_map(self) -> Map<Seq<char>, Seq<char>> {
        file_map_of(self.files@)
    }

    /// The directory paths.
    pub open spec fn dir_set(self) -> Set<Seq<char>> {
        dir_set_of(self.dirs@)
    }

    /// Paths occur at most once in either list.
    pub open spec fn wf(self) -> bool {
        files_unique(self.files@) && dirs_unique(self.dirs@)
    }

    pub fn new() -> (r: Fs)
        ensures
            r.wf(),
            r.file_map() == Map::<Seq<char>, Seq<char>>::empty(),
            r.dir_set() == Set::<Seq<char>>::empty(),
    {
        Fs { files: Vec::new(), dirs: Vec::new() }
    }

    pub fn has_file(&self, path: &str) -> (r: bool)
        requires
            self.wf(),
        ensures
            r == self.file_map().contains_key(path@),
    {
        let n = self.files.len();
        let mut i: usize = 0;
        while i < n
            invariant
                n == self.files@.len(),
                i <= n,
                forall|j: int| 0 <= j < i ==> self.files@[j].path@ != path@,
            decreases n - i,
        {
            if str_eq(self.files[i].path.as_str(), path) {
                proof {
                    lemma_file_map_contains_at(self.files@, i as int);
                }
                return true;
            }
            i += 1;
        }
        proof {
            lemma_file_map_absent(self.files@, path@);
        }
        false
    }

    /// Reads a file's content, or `None` when no file exists at `path`.
    pub fn read_file(&self, path: &str) -> (r: Option<String>)
        requires
            self.wf(),
        ensures
            match r {
                Some(d) => self.file_map().contains_key(path@) && d@ == self.file_map()[path@],
                None => !self.file_map().contains_key(path@),
            },
    {
        let n = self.files.len();
        let mut i: usize = 0;
        while i < n
            invariant
                self.wf(),
                n == self.files@.len(),
                i <= n,
                forall|j: int| 0 <= j < i ==> self.files@[j].path@ != path@,
            decreases n - i,
        {
            if str_eq(self.files[i].path.as_str(), path) {
                proof {
                    lemma_file_map_value_at(self.files@, i as int);
                }
                return Some(self.files[i].data.clone());
            }
            i += 1;
        }
        proof {
            lemma_file_map_absent(self.files@, path@);
        }
        None
    }

    /// Removes the file at `path` if one exists.
    pub fn remove_file(&mut self, path: &str)
        requires
            old(self).wf(),
        ensures
            final(self).wf(),
            final(self).file_map() == old(self).file_map().remove(path@),
            final(self).dirs == old(self).dirs,
            forall|i: int| 0 <= i < final(self).files@.len() ==> final(self).files@[i].path@ != path@,
    {
        let n = self.files.len();
        let mut i: usize = 0;
        while i < n
            invariant
                self == old(self),
                self.wf(),
                n == self.files@.len(),
                i <= n,
                forall|j: int| 0 <= j < i ==> self.files@[j].path@ != path@,
            decreases n - i,
        {
            if str_eq(self.files[i].path.as_str(), path) {
                proof {
                    lemma_file_map_remove_idx(self.files@, i as int);
                }
                self.files.remove(i);
                proof {
                    lemma_file_map_absent(self.files@, path@);
                    assert forall|k: int| 0 <= k < self.files@.len() implies self.files@[k].path@
                        != path@ by {
                        if self.files@[k].path@ == path@ {
                            lemma_file_map_contains_at(self.files@, k);
                        }
                    }
                }
                return;
            }
            i += 1;
        }
        proof {
            lemma_file_map_absent(self.files@, path@);
            assert(old(self).file_map().remove(path@) =~= old(self).file_map());
        }
    }

    /// Writes `data` to `path`, replacing any existing file there.
    pub fn write_file(&mut self, path: &str, data: String)
        requires
            old(self).wf(),
        ensures
            final(self).wf(),
            final(self).file_map() == old(self).file_map().insert(path@, data@),
            final(self).dirs == old(self).dirs,
    {
        self.remove_file(path);
        let ghost mid = self.files@;
        self.files.push(FsFile { path: path.to_owned(), data });
        proof {
            assert(self.files@.drop_last() =~= mid);
            assert(self.file_map() =~= old(self).file_map().insert(path@, data@));
            assert forall|a: int, b: int| 0 <= a < b < self.files@.len() implies self.files@[a].path@
                != self.files@[b].path@ by {
                if b == self.files@.len() - 1 {
                    assert(self.files@[a] == mid[a]);
                }
            }
        }
    }

    pub fn has_dir(&self, path: &str) -> (r: bool)
        requires
            self.wf(),
        ensures
            r == self.dir_set().contains(path@),
    {
        let n = self.dirs.len();
        let mut i: usize = 0;
        while i < n
            invariant
                n == self.dirs@.len(),
                i <= n,
                forall|j: int| 0 <= j < i ==> self.dirs@[j]@ != path@,
            decreases n - i,
        {
            if str_eq(self.dirs[i].as_str(), path) {
                proof {
                    lemma_dir_set_contains_at(self.dirs@, i as int);
                }
                return true;
            }
            i += 1;
        }
        proof {
            lemma_dir_set_absent(self.dirs@, path@);
        }
        false
    }

    /// Records a directory at `path`. Idempotent.
    pub fn mkdir(&mut self, path: &str)
        requires
            old(self).wf(),
        ensures
            final(self).wf(),
            final(self).dir_set() == old(self).dir_set().insert(path@),
            final(self).files == old(self).files,
    {
        if self.has_dir(path) {
            proof {
                assert(self.dir_set() =~= old(self).dir_set().insert(path@));
            }
            return;
        }
        let ghost pre = self.dirs@;
        self.dirs.push(path.to_owned());
        proof {
            assert(self.dirs@.drop_last() =~= pre);
            assert forall|a: int, b: int| 0 <= a < b < self.dirs@.len() implies self.dirs@[a]@
                != self.dirs@[b]@ by {
                if b == self.dirs@.len() - 1 {
                    assert(self.dirs@[a] == pre[a]);
                    if pre[a]@ == path@ {
                        lemma_dir_set_contains_at(pre, a);
                    }
                }
            }
        }
    }

    /// Removes the directory at `path` with everything at or below it,
    /// files and directories alike.
    pub fn remove_dir_all(&mut self, path: &str)
        requires
            old(self).wf(),
        ensures
            final(self).wf(),
            final(self).file_map() == old(self).file_map().remove_keys(under_set(path@)),
            final(self).dir_set() == old(self).dir_set().difference(under_set(path@)),
    {
        let ghost olds = self.files@;
        let n = self.files.len();
        let mut kept: Vec<FsFile> = Vec::new();
        let mut i: usize = 0;
        while i < n
            invariant
                files_unique(olds),
                n == olds.len(),
                self.files@ == olds,
                i <= n,
                file_map_of(kept@) == file_map_of(olds.subrange(0, i as int)).remove_keys(
                    under_set(path@),
                ),
                forall|j: int| #![trigger kept@[j]] 0 <= j < kept@.len() ==> exists|k: int|
                    0 <= k < i && kept@[j] == #[trigger] olds[k],
                files_unique(kept@),
            decreases n - i,
        {
            let ghost prefix = olds.subrange(0, i as int);
            let ghost prefix1 = olds.subrange(0, i as int + 1);
            proof {
                assert(prefix1.drop_last() =~= prefix);
            }
            if !is_under(self.files[i].path.as_str(), path) {
                let ghost keptpre = kept@;
                let f = &self.files[i];
                kept.push(FsFile { path: f.path.clone(), data: f.data.clone() });
                proof {
                    assert(kept@.drop_last() =~= keptpre);
                    assert(kept@.last().path@ == olds[i as int].path@);
                    assert(file_map_of(kept@) =~= file_map_of(prefix1).remove_keys(
                        under_set(path@),
                    ));
                    assert forall|a: int, b: int| 0 <= a < b < kept@.len() implies kept@[a].path@
                        != kept@[b].path@ by {
                        if b == kept@.len() - 1 {
                            let k = choose|k: int| 0 <= k < i && keptpre[a] == olds[k];
                            assert(kept@[a] == olds[k]);
                        }
                    }
                    assert forall|j: int| #![trigger kept@[j]] 0 <= j < kept@.len() implies exists|k: int|
                        0 <= k < i + 1 && kept@[j] == #[trigger] olds[k] by {
                        if j < kept@.len() - 1 {
                            let k = choose|k: int| 0 <= k < i && keptpre[j] == olds[k];
                            assert(kept@[j] == olds[k]);
                        } else {
                            assert(kept@[j] == olds[i as int]);
                        }
                    }
                }
            } else {
                proof {
                    assert(file_map_of(kept@) =~= file_map_of(prefix1).remove_keys(
                        under_set(path@),
                    ));
                }
            }
            i += 1;
        }
        proof {
            assert(olds.subrange(0, n as int) =~= olds);
        }
        self.files = kept;

        let ghost oldd = self.dirs@;
        let nd = self.dirs.len();
        let mut keptd: Vec<String> = Vec::new();
        let mut i: usize = 0;
        while i < nd
            invariant
                dirs_unique(oldd),
                nd == oldd.len(),
                self.dirs@ == oldd,
                i <= nd,
                dir_set_of(keptd@) == dir_set_of(oldd.subrange(0, i as int)).difference(
                    under_set(path@),
                ),
                forall|j: int| #![trigger keptd@[j]] 0 <= j < keptd@.len() ==> exists|k: int|
                    0 <= k < i && keptd@[j] == #[trigger] oldd[k],
                dirs_unique(keptd@),
            decreases nd - i,
        {
            let ghost prefix = oldd.subrange(0, i as int);
            let ghost prefix1 = oldd.subrange(0, i as int + 1);
            proof {
                assert(prefix1.drop_last() =~= prefix);
            }
            if !is_under(self.dirs[i].as_str(), path) {
                let ghost keptpre = keptd@;
                keptd.push(self.dirs[i].clone());
                proof {
                    assert(keptd@.drop_last() =~= keptpre);
                    assert(keptd@.last()@ == oldd[i as int]@);
                    assert(dir_set_of(keptd@) =~= dir_set_of(prefix1).difference(
                        under_set(path@),
                    ));
                    assert forall|a: int, b: int| 0 <= a < b < keptd@.len() implies keptd@[a]@
                        != keptd@[b]@ by {
                        if b == keptd@.len() - 1 {
                            let k = choose|k: int| 0 <= k < i && keptpre[a] == oldd[k];
                            assert(keptd@[a] == oldd[k]);
                        }
                    }
                    assert forall|j: int| #![trigger keptd@[j]] 0 <= j < keptd@.len() implies exists|k: int|
                        0 <= k < i + 1 && keptd@[j] == #[trigger] oldd[k] by {
                        if j < keptd@.len() - 1 {
                            let k = choose|k: int| 0 <= k < i && keptpre[j] == oldd[k];
                            assert(keptd@[j] == oldd[k]);
                        } else {
                            assert(keptd@[j] == oldd[i as int]);
                        }
                    }
                }
            } else {
                proof {
                    assert(dir_set_of(keptd@) =~= dir_set_of(prefix1).difference(
                        under_set(path@),
                    ));
                }
            }
            i += 1;
        }
        proof {
            assert(oldd.subrange(0, nd as int) =~= oldd);
        }
        self.dirs = keptd;
    }
}


/// The key `k0` at or below `src`, moved to sit at the same place below `dst`.
pub open spec fn retarget(k0: Seq<char>, src: Seq<char>, dst: Seq<char>) -> Seq<char> {
    dst + k0.skip(src.len() as int)
}

/// The files at or below `src` in `m`, as they land at or below `dst`.
pub open spec fn copied_files(
    m: Map<Seq<char>, Seq<char>>,
    src: Seq<char>,
    dst: Seq<char>,
) -> Map<Seq<char>, Seq<char>> {
    Map::new(
        |k: Seq<char>| under(k, dst) && m.contains_key(src + k.skip(dst.len() as int)),
        |k: Seq<char>| m[src + k.skip(dst.len() as int)],
    )
}

/// The directories at or below `src` in `d`, as they land at or below `dst`.
pub open spec fn copied_dirs(d: Set<Seq<char>>, src: Seq<char>, dst: Seq<char>) -> Set<Seq<char>> {
    Set::new(|k: Seq<char>| under(k, dst) && d.contains(src + k.skip(dst.len() as int)))
}

/// A retargeted key lies at or below `dst`, and the move is invertible.
proof fn lemma_retarget_under(k0: Seq<char>, src: Seq<char>, dst: Seq<char>)
    requires
        under(k0, src),
    ensures
        under(retarget(k0, src, dst), dst),
        src + retarget(k0, src, dst).skip(dst.len() as int) =~= k0,
{
    if k0 == src {
        assert(retarget(k0, src, dst) =~= dst);
    } else {
        assert(strictly_under(k0, src));
        let r = retarget(k0, src, dst);
        assert(r[dst.len() as int] == k0[src.len() as int]);
        assert(r.subrange(0, dst.len() as int) =~= dst);
    }
}

/// The path/content pairs of a sequence of entries.
pub open spec fn pairs_of(s: Seq<FsFile>) -> Seq<(Seq<char>, Seq<char>)> {
    Seq::new(s.len(), |i: int| (s[i].path@, s[i].data@))
}

/// The map of a sequence of path/content pairs, later pairs winning.
pub open spec fn map_of_pairs(s: Seq<(Seq<char>, Seq<char>)>) -> Map<Seq<char>, Seq<char>>
    decreases s.len(),
{
    if s.len() == 0 {
        Map::empty()
    } else {
        map_of_pairs(s.drop_last()).insert(s.last().0, s.last().1)
    }
}

proof fn lemma_file_map_is_map_of_pairs(s: Seq<FsFile>)
    ensures
        file_map_of(s) == map_of_pairs(pairs_of(s)),
    decreases s.len(),
{
    if s.len() > 0 {
        lemma_file_map_is_map_of_pairs(s.drop_last());
        assert(pairs_of(s).drop_last() =~= pairs_of(s.drop_last()));
        assert(file_map_of(s) =~= map_of_pairs(pairs_of(s)));
    }
}

/// The pairs that copying collects from `olds`: every entry at or below
/// `src`, retargeted to `dst`, in order.
pub open spec fn moved_pairs(
    olds: Seq<FsFile>,
    src: Seq<char>,
    dst: Seq<char>,
) -> Seq<(Seq<char>, Seq<char>)>
    decreases olds.len(),
{
    if olds.len() == 0 {
        Seq::empty()
    } else {
        let rest = moved_pairs(olds.drop_last(), src, dst);
        if under(olds.last().path@, src) {
            rest.push((retarget(olds.last().path@, src, dst), olds.last().data@))
        } else {
            rest
        }
    }
}

/// The directory paths that copying collects from `oldd`.
pub open spec fn moved_dir_seq(oldd: Seq<String>, src: Seq<char>, dst: Seq<char>) -> Seq<Seq<char>>
    decreases oldd.len(),
{
    if oldd.len() == 0 {
        Seq::empty()
    } else {
        let rest = moved_dir_seq(oldd.drop_last(), src, dst);
        if under(oldd.last()@, src) {
            rest.push(retarget(oldd.last()@, src, dst))
        } else {
            rest
        }
    }
}

pub open spec fn set_of_seqs(s: Seq<Seq<char>>) -> Set<Seq<char>>
    decreases s.len(),
{
    if s.len() == 0 {
        Set::empty()
    } else {
        set_of_seqs(s.drop_last()).insert(s.last())
    }
}

proof fn lemma_dir_set_is_set_of_seqs(s: Seq<String>)
    ensures
        dir_set_of(s) == set_of_seqs(Seq::new(s.len(), |i: int| s[i]@)),
    decreases s.len(),
{
    if s.len() > 0 {
        lemma_dir_set_is_set_of_seqs(s.drop_last());
        assert(Seq::new(s.len(), |i: int| s[i]@).drop_last() =~= Seq::new(
            s.drop_last().len(),
            |i: int| s.drop_last()[i]@,
        ));
        assert(dir_set_of(s) =~= set_of_seqs(Seq::new(s.len(), |i: int| s[i]@)));
    }
}

/// A key of the shape `src + suffix` drawn from a key at or below `dst` is
/// itself at or below `src`.
proof fn lemma_inverse_under(k: Seq<char>, src: Seq<char>, dst: Seq<char>)
    requires
        under(k, dst),
    ensures
        under(src + k.skip(dst.len() as int), src),
        retarget(src + k.skip(dst.len() as int), src, dst) =~= k,
{
    let k0 = src + k.skip(dst.len() as int);
    if k == dst {
        assert(k0 =~= src);
    } else {
        assert(strictly_under(k, dst));
        assert(k0.subrange(0, src.len() as int) =~= src);
        assert(k0[src.len() as int] == k[dst.len() as int]);
    }
    assert(k0.skip(src.len() as int) =~= k.skip(dst.len() as int));
}

/// The collected copies, as a map, are exactly the copied slice of the
/// original file map.
proof fn lemma_moved_pairs_map(olds: Seq<FsFile>, src: Seq<char>, dst: Seq<char>)
    ensures
        map_of_pairs(moved_pairs(olds, src, dst)) == copied_files(file_map_of(olds), src, dst),
    decreases olds.len(),
{
    if olds.len() == 0 {
        assert(map_of_pairs(moved_pairs(olds, src, dst)) =~= copied_files(
            file_map_of(olds),
            src,
            dst,
        ));
    } else {
        lemma_moved_pairs_map(olds.drop_last(), src, dst);
        let f = olds.last();
        let a = file_map_of(olds.drop_last());
        if under(f.path@, src) {
            lemma_retarget_under(f.path@, src, dst);
            assert(moved_pairs(olds, src, dst).drop_last() =~= moved_pairs(
                olds.drop_last(),
                src,
                dst,
            ));
            assert(moved_pairs(olds, src, dst).last() == (retarget(f.path@, src, dst), f.data@));
            assert forall|k: Seq<char>| #[trigger] copied_files(
                file_map_of(olds),
                src,
                dst,
            ).dom().contains(k) == copied_files(a, src, dst).insert(
                retarget(f.path@, src, dst),
                f.data@,
            ).dom().contains(k) && (copied_files(file_map_of(olds), src, dst).dom().contains(k)
                ==> copied_files(file_map_of(olds), src, dst)[k] == copied_files(
                a,
                src,
                dst,
            ).insert(retarget(f.path@, src, dst), f.data@)[k]) by {
                if under(k, dst) {
                    lemma_inverse_under(k, src, dst);
                    if src + k.skip(dst.len() as int) == f.path@ {
                        assert(k =~= retarget(f.path@, src, dst));
                    }
                }
            }
            assert(copied_files(file_map_of(olds), src, dst) =~= copied_files(
                a,
                src,
                dst,
            ).insert(retarget(f.path@, src, dst), f.data@));
            assert(map_of_pairs(moved_pairs(olds, src, dst)) =~= copied_files(
                file_map_of(olds),
                src,
                dst,
            ));
        } else {
            assert forall|k: Seq<char>|
                #[trigger] copied_files(file_map_of(olds), src, dst).dom().contains(k)
                    == copied_files(a, src, dst).dom().contains(k) && (copied_files(
                    file_map_of(olds),
                    src,
                    dst,
                ).dom().contains(k) ==> copied_files(file_map_of(olds), src, dst)[k]
                    == copied_files(a, src, dst)[k]) by {
                if under(k, dst) {
                    lemma_inverse_under(k, src, dst);
                }
            }
            assert(copied_files(file_map_of(olds), src, dst) =~= copied_files(a, src, dst));
            assert(moved_pairs(olds, src, dst) == moved_pairs(olds.drop_last(), src, dst));
        }
    }
}

/// The collected directory copies, as a set, are exactly the copied slice of
/// the original directory set.
proof fn lemma_moved_dir_seq_set(oldd: Seq<String>, src: Seq<char>, dst: Seq<char>)
    ensures
        set_of_seqs(moved_dir_seq(oldd, src, dst)) == copied_dirs(dir_set_of(oldd), src, dst),
    decreases oldd.len(),
{
    if oldd.len() == 0 {
        assert(set_of_seqs(moved_dir_seq(oldd, src, dst)) =~= copied_dirs(
            dir_set_of(oldd),
            src,
            dst,
        ));
    } else {
        lemma_moved_dir_seq_set(oldd.drop_last(), src, dst);
        let f = oldd.last()@;
        let a = dir_set_of(oldd.drop_last());
        if under(f, src) {
            lemma_retarget_under(f, src, dst);
            assert(moved_dir_seq(oldd, src, dst).drop_last() =~= moved_dir_seq(
                oldd.drop_last(),
                src,
                dst,
            ));
            assert(moved_dir_seq(oldd, src, dst).last() == retarget(f, src, dst));
            assert forall|k: Seq<char>| #[trigger] copied_dirs(
                dir_set_of(oldd),
                src,
                dst,
            ).contains(k) == copied_dirs(a, src, dst).insert(
                retarget(f, src, dst),
            ).contains(k) by {
                if under(k, dst) {
                    lemma_inverse_under(k, src, dst);
                    if src + k.skip(dst.len() as int) == f {
                        assert(k =~= retarget(f, src, dst));
                    }
                }
            }
            assert(copied_dirs(dir_set_of(oldd), src, dst) =~= copied_dirs(a, src, dst).insert(
                retarget(f, src, dst),
            ));
            assert(set_of_seqs(moved_dir_seq(oldd, src, dst)) =~= copied_dirs(
                dir_set_of(oldd),
                src,
                dst,
            ));
        } else {
            assert forall|k: Seq<char>| #[trigger] copied_dirs(
                dir_set_of(oldd),
                src,
                dst,
            ).contains(k) == copied_dirs(a, src, dst).contains(k) by {
                if under(k, dst) {
                    lemma_inverse_under(k, src, dst);
                }
            }
            assert(copied_dirs(dir_set_of(oldd), src, dst) =~= copied_dirs(a, src, dst));
            assert(moved_dir_seq(oldd, src, dst) == moved_dir_seq(oldd.drop_last(), src, dst));
        }
    }
}

impl Fs {
    /// Gathers the files at or below `src`, retargeted to `dst`.
    #[verifier::loop_isolation(false)]
    #[verifier::rlimit(30)]
    fn collect_moved_files(&self, src: &str, dst: &str) -> (moved: Vec<FsFile>)
        requires
            self.wf(),
        ensures
            pairs_of(moved@) == moved_pairs(self.files@, src@, dst@),
    {
        let ghost olds = self.files@;
        let src_len = src.unicode_len();
        let mut moved: Vec<FsFile> = Vec::new();
        let n = self.files.len();
        let mut i: usize = 0;
        while i < n
            invariant
                i <= n,
                pairs_of(moved@) == moved_pairs(olds.subrange(0, i as int), src@, dst@),
            decreases n - i,
        {
            let ghost movedpre = moved@;
            proof {
                assert(olds.subrange(0, i as int + 1).drop_last() =~= olds.subrange(0, i as int));
            }
            if is_under(self.files[i].path.as_str(), src) {
                let p = &self.files[i].path;
                let suffix = p.as_str().substring_char(src_len, p.as_str().unicode_len());
                let mut target = dst.to_owned();
                target.append(suffix);
                proof {
                    assert(target@ =~= retarget(olds[i as int].path@, src@, dst@));
                }
                moved.push(FsFile { path: target, data: self.files[i].data.clone() });
                proof {
                    assert(pairs_of(moved@) =~= pairs_of(movedpre).push(
                        (retarget(olds[i as int].path@, src@, dst@), olds[i as int].data@),
                    ));
                }
            }
            i += 1;
        }
        proof {
            assert(olds.subrange(0, n as int) =~= olds);
        }
        moved
    }

    /// Gathers the directories at or below `src`, retargeted to `dst`.
    #[verifier::loop_isolation(false)]
    #[verifier::rlimit(30)]
    fn collect_moved_dirs(&self, src: &str, dst: &str) -> (moved: Vec<String>)
        requires
            self.wf(),
        ensures
            Seq::new(moved@.len(), |i: int| moved@[i]@) == moved_dir_seq(self.dirs@, src@, dst@),
    {
        let ghost oldd = self.dirs@;
        let src_len = src.unicode_len();
        let mut moved: Vec<String> = Vec::new();
        let n = self.dirs.len();
        let mut i: usize = 0;
        while i < n
            invariant
                i <= n,
                Seq::new(moved@.len(), |k: int| moved@[k]@) == moved_dir_seq(
                    oldd.subrange(0, i as int),
                    src@,
                    dst@,
                ),
            decreases n - i,
        {
            let ghost movedpre = moved@;
            proof {
                assert(oldd.subrange(0, i as int + 1).drop_last() =~= oldd.subrange(0, i as int));
            }
            if is_under(self.dirs[i].as_str(), src) {
                let p = &self.dirs[i];
                let suffix = p.as_str().substring_char(src_len, p.as_str().unicode_len());
                let mut target = dst.to_owned();
                target.append(suffix);
                proof {
                    assert(target@ =~= retarget(oldd[i as int]@, src@, dst@));
                }
                moved.push(target);
                proof {
                    assert(Seq::new(moved@.len(), |k: int| moved@[k]@) =~= Seq::new(
                        movedpre.len(),
                        |k: int| movedpre[k]@,
                    ).push(retarget(oldd[i as int]@, src@, dst@)));
                }
            } else {
                proof {
                    assert(Seq::new(moved@.len(), |k: int| moved@[k]@) =~= moved_dir_seq(
                        oldd.subrange(0, i as int + 1),
                        src@,
                        dst@,
                    ));
                }
            }
            i += 1;
        }
        proof {
            assert(oldd.subrange(0, n as int) =~= oldd);
        }
        moved
    }

    /// Copies everything at or below `src` to sit at or below `dst`, wiping
    /// whatever was at or below `dst` first, and records `dst` itself as a
    /// directory.
    #[verifier::loop_isolation(false)]
    #[verifier::rlimit(60)]
    pub fn copy_tree(&mut self, src: &str, dst: &str)
        requires
            old(self).wf(),
        ensures
            final(self).wf(),
            final(self).file_map() == old(self).file_map().remove_keys(
                under_set(dst@),
            ).union_prefer_right(copied_files(old(self).file_map(), src@, dst@)),
            final(self).dir_set() == old(self).dir_set().difference(under_set(dst@)).union(
                copied_dirs(old(self).dir_set(), src@, dst@),
            ).insert(dst@),
    {
        let ghost m0 = self.file_map();
        let ghost d0 = self.dir_set();
        let ghost olds = self.files@;
        let ghost oldd = self.dirs@;

        let moved = self.collect_moved_files(src, dst);
        let movedd = self.collect_moved_dirs(src, dst);
        self.remove_dir_all(dst);
        let ghost mr = self.file_map();
        let ghost dr = self.dir_set();

        let mn = moved.len();
        let mut j: usize = 0;
        while j < mn
            invariant
                j <= mn,
                self.wf(),
                self.dir_set() == dr,
                self.file_map() == mr.union_prefer_right(
                    map_of_pairs(pairs_of(moved@).subrange(0, j as int)),
                ),
            decreases mn - j,
        {
            proof {
                assert(pairs_of(moved@).subrange(0, j as int + 1).drop_last() =~= pairs_of(
                    moved@,
                ).subrange(0, j as int));
            }
            let path = moved[j].path.clone();
            let data = moved[j].data.clone();
            self.write_file(path.as_str(), data);
            proof {
                assert(self.file_map() =~= mr.union_prefer_right(
                    map_of_pairs(pairs_of(moved@).subrange(0, j as int + 1)),
                ));
            }
            j += 1;
        }
        proof {
            assert(pairs_of(moved@).subrange(0, mn as int) =~= pairs_of(moved@));
            lemma_moved_pairs_map(olds, src@, dst@);
            assert(self.file_map() =~= m0.remove_keys(under_set(dst@)).union_prefer_right(
                copied_files(m0, src@, dst@),
            ));
        }

        let ghost dviews = Seq::new(movedd@.len(), |i: int| movedd@[i]@);
        let dmn = movedd.len();
        let mut j: usize = 0;
        while j < dmn
            invariant
                j <= dmn,
                self.wf(),
                self.file_map() == m0.remove_keys(under_set(dst@)).union_prefer_right(
                    copied_files(m0, src@, dst@),
                ),
                self.dir_set() == dr.union(set_of_seqs(dviews.subrange(0, j as int))),
            decreases dmn - j,
        {
            proof {
                assert(dviews.subrange(0, j as int + 1).drop_last() =~= dviews.subrange(
                    0,
                    j as int,
                ));
                assert(dviews.subrange(0, j as int + 1).last() == movedd@[j as int]@);
            }
            let d = movedd[j].clone();
            self.mkdir(d.as_str());
            proof {
                assert(self.dir_set() =~= dr.union(
                    set_of_seqs(dviews.subrange(0, j as int + 1)),
                ));
            }
            j += 1;
        }
        proof {
            assert(dviews.subrange(0, dmn as int) =~= dviews);
            lemma_moved_dir_seq_set(oldd, src@, dst@);
        }
        self.mkdir(dst);
        proof {
            assert(self.dir_set() =~= d0.difference(under_set(dst@)).union(
                copied_dirs(d0, src@, dst@),
            ).insert(dst@));
        }
    }
}

impl Fs {
    /// The names of the immediate child directories of `parent`: every `n`
    /// with `parent/n` a directory, each listed once, in the order the
    /// directories were recorded.
    #[verifier::loop_isolation(false)]
    #[verifier::rlimit(30)]
    pub fn subdir_names(&self, parent: &str) -> (r: Vec<String>)
        requires
            self.wf(),
        ensures
            forall|j: int| #![trigger r@[j]] 0 <= j < r@.len() ==> is_child_name(
                self.dir_set(),
                parent@,
                r@[j]@,
            ),
            forall|n: Seq<char>| is_child_name(self.dir_set(), parent@, n) ==> exists|j: int|
                0 <= j < r@.len() && r@[j]@ == n,
            forall|a: int, b: int| 0 <= a < b < r@.len() ==> r@[a]@ != r@[b]@,
    {
        let plen = parent.unicode_len();
        let n = self.dirs.len();
        let mut out: Vec<String> = Vec::new();
        let mut i: usize = 0;
        while i < n
            invariant
                i <= n,
                forall|j: int| #![trigger out@[j]] 0 <= j < out@.len() ==> is_child_name(
                    self.dir_set(),
                    parent@,
                    out@[j]@,
                ),
                forall|k: int| #![trigger self.dirs@[k]] 0 <= k < i && is_child_dir(
                    parent@,
                    self.dirs@[k]@,
                ) ==> exists|j: int| 0 <= j < out@.len() && out@[j]@ == child_name_of(
                    parent@,
                    self.dirs@[k]@,
                ),
                forall|a: int, b: int| 0 <= a < b < out@.len() ==> out@[a]@ != out@[b]@,
            decreases n - i,
        {
            let ghost outpre = out@;
            let d = &self.dirs[i];
            let dlen = d.as_str().unicode_len();
            if dlen > 0 && plen < dlen - 1 && is_under(d.as_str(), parent) {
                let name = d.as_str().substring_char(plen + 1, dlen).to_owned();
                proof {
                    assert(name@ =~= child_name_of(parent@, self.dirs@[i as int]@));
                }
                let mut clean = true;
                let nlen = name.as_str().unicode_len();
                let mut c: usize = 0;
                while c < nlen
                    invariant
                        c <= nlen,
                        nlen == name@.len(),
                        clean == forall|x: int| 0 <= x < c ==> name@[x] != '/',
                    decreases nlen - c,
                {
                    if name.as_str().get_char(c) == '/' {
                        clean = false;
                    }
                    c += 1;
                }
                if clean {
                    proof {
                        lemma_dir_set_contains_at(self.dirs@, i as int);
                        assert(parent@ + seq!['/'] + name@ =~= self.dirs@[i as int]@);
                        assert(is_child_name(self.dir_set(), parent@, name@));
                    }
                    if !contains_string(&out, name.as_str()) {
                        out.push(name);
                        proof {
                            assert(out@.drop_last() =~= outpre);
                            assert forall|a: int, b: int| 0 <= a < b < out@.len() implies out@[a]@
                                != out@[b]@ by {
                                if b == out@.len() - 1 {
                                    assert(out@[a] == outpre[a]);
                                }
                            }
                            assert forall|k: int|
                                #![trigger self.dirs@[k]]
                                0 <= k < i + 1 && is_child_dir(
                                    parent@,
                                    self.dirs@[k]@,
                                ) implies exists|j: int|
                                0 <= j < out@.len() && out@[j]@ == child_name_of(
                                    parent@,
                                    self.dirs@[k]@,
                                ) by {
                                if k < i {
                                    let j = choose|j: int|
                                        0 <= j < outpre.len() && outpre[j]@ == child_name_of(
                                            parent@,
                                            self.dirs@[k]@,
                                        );
                                    assert(out@[j] == outpre[j]);
                                } else {
                                    assert(out@[out@.len() - 1]@ == child_name_of(
                                        parent@,
                                        self.dirs@[k]@,
                                    ));
                                }
                            }
                        }
                    } else {
                        proof {
                            assert(exists|j: int|
                                0 <= j < out@.len() && out@[j]@ == child_name_of(
                                    parent@,
                                    self.dirs@[i as int]@,
                                ));
                        }
                    }
                } else {
                    proof {
                        assert(!is_child_dir(parent@, self.dirs@[i as int]@)) by {
                            let dd = self.dirs@[i as int]@;
                            let x = choose|x: int| 0 <= x < name@.len() && name@[x] == '/';
                            assert(dd[plen + 1 + x] == '/');
                        }
                    }
                }
            } else {
                proof {
                    assert(!is_child_dir(parent@, self.dirs@[i as int]@));
                }
            }
            i += 1;
        }
        proof {
            assert forall|nm: Seq<char>| is_child_name(self.dir_set(), parent@, nm) implies exists|
                j: int,
            | 0 <= j < out@.len() && out@[j]@ == nm by {
                lemma_dir_set_elem_has_index(self.dirs@, parent@ + seq!['/'] + nm);
                let k = choose|k: int|
                    0 <= k < self.dirs@.len() && self.dirs@[k]@ == parent@ + seq!['/'] + nm;
                assert(is_child_dir(parent@, self.dirs@[k]@)) by {
                    let d = self.dirs@[k]@;
                    assert(d.subrange(0, parent@.len() as int) =~= parent@);
                    assert(forall|x: int|
                        0 <= x < nm.len() ==> d[parent@.len() + 1 + x] == nm[x]);
                }
                assert(child_name_of(parent@, self.dirs@[k]@) =~= nm);
            }
        }
        out
    }
}

/// `d` is a directory path exactly one level below `parent`.
pub open spec fn is_child_dir(parent: Seq<char>, d: Seq<char>) -> bool {
    strictly_under(d, parent) && d.len() > parent.len() + 1 && forall|x: int|
        parent.len() + 1 <= x < d.len() ==> d[x] != '/'
}

/// The name of `d` below `parent`.
pub open spec fn child_name_of(parent: Seq<char>, d: Seq<char>) -> Seq<char> {
    d.skip(parent.len() as int + 1)
}

/// `n` names an immediate child directory of `parent` in `dirs`.
pub open spec fn is_child_name(dirs: Set<Seq<char>>, parent: Seq<char>, n: Seq<char>) -> bool {
    dirs.contains(parent + seq!['/'] + n) && n.len() > 0 && forall|x: int|
        0 <= x < n.len() ==> n[x] != '/'
}

/// Whether `name` occurs in `v`.
pub fn contains_string(v: &Vec<String>, name: &str) -> (r: bool)
    ensures
        r == exists|i: int| 0 <= i < v@.len() && v@[i]@ == name@,
{
    let n = v.len();
    let mut i: usize = 0;
    while i < n
        invariant
            i <= n,
            n == v@.len(),
            forall|j: int| 0 <= j < i ==> v@[j]@ != name@,
        decreases n - i,
    {
        if str_eq(v[i].as_str(), name) {
            return true;
        }
        i += 1;
    }
    false
}

} // verus!
