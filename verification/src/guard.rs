//! The scoped backup guard: the unit of failure-atomicity for one file.
//!
//! Acquiring a guard copies the guarded file to a timestamped sibling backup
//! before any mutation begins. On success the caller commits the guard, which
//! deletes the backup; on any failure path the caller releases it instead,
//! which copies the backup back over the original and then deletes it. A
//! guard over a file that does not exist takes no backup and both paths leave
//! the filesystem untouched.
//!
//! The teardown is an explicit call on every exit path rather than an
//! implicit destructor, so each pipeline names its rollback points.

use vstd::prelude::*;

use crate::fsm::Fs;
use crate::strnum::{dec_spec, u64_to_string};

verus! {

/// The backup path for `p` taken at `t` seconds since the epoch.
pub open spec fn backup_name(p: Seq<char>, t: u64) -> Seq<char> {
    p + seq!['.', 'b', 'a', 'k', '.'] + dec_spec(t as nat)
}

/// A guard over one file. See the module documentation.
pub struct AtomicGuard {
    original_path: String,
    backup_path: Option<String>,
}

impl AtomicGuard {
    /// The guarded path.
    pub closed spec fn original_view(self) -> Seq<char> {
        self.original_path@
    }

    /// The backup path, if a backup was taken.
    pub closed spec fn backup_view(self) -> Option<Seq<char>> {
        match self.backup_path {
            Some(b) => Some(b@),
            None => None,
        }
    }

    /// Acquires a guard over `path`, copying the current content (if any) to
    /// the backup path derived from `now_secs`.
    pub fn new(fs: &mut Fs, path: &str, now_secs: u64) -> (g: AtomicGuard)
        requires
            old(fs).wf(),
        ensures
            final(fs).wf(),
            g.original_view() == path@,
            final(fs).dir_set() == old(fs).dir_set(),
            old(fs).file_map().contains_key(path@) ==> {
                &&& g.backup_view() == Some(backup_name(path@, now_secs))
                &&& final(fs).file_map() == old(fs).file_map().insert(
                    backup_name(path@, now_secs),
                    old(fs).file_map()[path@],
                )
            },
            !old(fs).file_map().contains_key(path@) ==> {
                &&& g.backup_view() is None
                &&& final(fs).file_map() == old(fs).file_map()
            },
    {
        let data = fs.read_file(path);
        match data {
            Some(content) => {
                let mut bak = path.to_owned();
                bak.append(".bak.");
                let num = u64_to_string(now_secs);
                bak.append(num.as_str());
                proof {
                    reveal_strlit(".bak.");
                    assert(bak@ =~= backup_name(path@, now_secs));
                }
                fs.write_file(bak.as_str(), content);
                AtomicGuard { original_path: path.to_owned(), backup_path: Some(bak) }
            },
            None => AtomicGuard { original_path: path.to_owned(), backup_path: None },
        }
    }

    pub fn original_path(&self) -> (r: &String)
        ensures
            r@ == self.original_view(),
    {
        &self.original_path
    }

    pub fn backup_path(&self) -> (r: Option<&String>)
        ensures
            match r {
                Some(b) => self.backup_view() == Some(b@),
                None => self.backup_view() is None,
            },
    {
        match &self.backup_path {
            Some(b) => Some(b),
            None => None,
        }
    }

    /// Commits the mutation: the backup is deleted and the guarded file keeps
    /// whatever content it has now.
    pub fn commit(self, fs: &mut Fs)
        requires
            old(fs).wf(),
        ensures
            final(fs).wf(),
            final(fs).dir_set() == old(fs).dir_set(),
            match self.backup_view() {
                Some(b) => final(fs).file_map() == old(fs).file_map().remove(b),
                None => final(fs).file_map() == old(fs).file_map(),
            },
    {
        match self.backup_path {
            Some(b) => {
                fs.remove_file(b.as_str());
            },
            None => {
                proof {
                    assert(fs.file_map() =~= old(fs).file_map());
                }
            },
        }
    }

    /// Releases the guard without committing: the backup content (if a backup
    /// was taken and still exists) is copied back over the original path and
    /// the backup is deleted.
    pub fn release(self, fs: &mut Fs)
        requires
            old(fs).wf(),
        ensures
            final(fs).wf(),
            final(fs).dir_set() == old(fs).dir_set(),
            match self.backup_view() {
                Some(b) => {
                    if old(fs).file_map().contains_key(b) {
                        final(fs).file_map() == old(fs).file_map().insert(
                            self.original_view(),
                            old(fs).file_map()[b],
                        ).remove(b)
                    } else {
                        final(fs).file_map() == old(fs).file_map()
                    }
                },
                None => final(fs).file_map() == old(fs).file_map(),
            },
    {
        match self.backup_path {
            Some(b) => {
                let saved = fs.read_file(b.as_str());
                match saved {
                    Some(content) => {
                        fs.write_file(self.original_path.as_str(), content);
                        fs.remove_file(b.as_str());
                    },
                    None => {
                        proof {
                            assert(fs.file_map() =~= old(fs).file_map());
                        }
                    },
                }
            },
            None => {
                proof {
                    assert(fs.file_map() =~= old(fs).file_map());
                }
            },
        }
    }
}

/// Releasing an uncommitted guard restores the guarded file to its exact
/// pre-acquire content and removes the backup, whatever happened to the
/// guarded file in between, as long as the backup copy itself was left alone.
///
/// `m0` is the file map before acquire, `m1` after acquire, `m2` after the
/// interim mutation, and `m3` after release.
pub proof fn lemma_uncommitted_guard_restores(
    m0: Map<Seq<char>, Seq<char>>,
    m1: Map<Seq<char>, Seq<char>>,
    m2: Map<Seq<char>, Seq<char>>,
    m3: Map<Seq<char>, Seq<char>>,
    p: Seq<char>,
    bak: Seq<char>,
)
    requires
        bak != p,
        m0.contains_key(p),
        m1 == m0.insert(bak, m0[p]),
        m2.contains_key(bak) && m2[bak] == m1[bak],
        m3 == m2.insert(p, m2[bak]).remove(bak),
    ensures
        m3.contains_key(p) && m3[p] == m0[p],
        !m3.contains_key(bak),
{
}

/// Committing a guard keeps the guarded file in its mutated state and leaves
/// no backup behind.
///
/// `m0` is the file map before acquire, `m1` after acquire, `m2` after the
/// interim mutation, and `m3` after commit.
pub proof fn lemma_committed_guard_keeps_mutation(
    m0: Map<Seq<char>, Seq<char>>,
    m1: Map<Seq<char>, Seq<char>>,
    m2: Map<Seq<char>, Seq<char>>,
    m3: Map<Seq<char>, Seq<char>>,
    p: Seq<char>,
    bak: Seq<char>,
)
    requires
        bak != p,
        m0.contains_key(p),
        m1 == m0.insert(bak, m0[p]),
        m3 == m2.remove(bak),
    ensures
        m2.contains_key(p) ==> m3.contains_key(p) && m3[p] == m2[p],
        !m3.contains_key(bak),
{
}

/// A backup path never collides with the path it backs up.
pub proof fn lemma_backup_name_differs(p: Seq<char>, t: u64)
    ensures
        backup_name(p, t) != p,
        backup_name(p, t).len() > p.len(),
{
    crate::strnum::lemma_dec_digits(t as nat);
}

} // verus!
