//! Pruning orphaned plugin directories: directories under the plugin root
//! that no registry entry's source names. The registry manifest is read but
//! never written.

use vstd::prelude::*;

use crate::config::MarketplaceConfig;
use crate::errors::SoukError;
use crate::fsm::Fs;
use crate::remove::{dirs_after_deletes, files_after_deletes};
use crate::validation::{orphan_list_ok, views_of};

verus! {

/// The result of a prune pass: the orphaned directories found and, when the
/// pass applies, those deleted.
pub struct PruneResult {
    pub orphaned: Vec<String>,
    pub deleted: Vec<String>,
    pub warnings: Vec<String>,
}

/// The delete fold only removes files: a key that survives it kept its
/// content.
proof fn lemma_deletes_only_remove(
    m: Map<Seq<char>, Seq<char>>,
    targets: Seq<Seq<char>>,
    k: Seq<char>,
)
    ensures
        files_after_deletes(m, targets).contains_key(k) ==> m.contains_key(k)
            && files_after_deletes(m, targets)[k] == m[k],
    decreases targets.len(),
{
    if targets.len() > 0 {
        lemma_deletes_only_remove(m, targets.drop_last(), k);
    }
}

/// Prunes the directories under the plugin root that no registry entry's
/// source basename names.
///
/// With `apply` false the pass only reports the orphans and changes nothing.
/// With `apply` true every orphaned directory is deleted, in order; in this
/// model no deletion fails, so every orphan is deleted and no warning is
/// raised. The registry manifest is never written: a manifest that survives
/// the pass holds exactly its old content.
#[verifier::loop_isolation(false)]
pub fn prune_plugins(fs: &mut Fs, apply: bool, config: &MarketplaceConfig) -> (r: Result<
    PruneResult,
    SoukError,
>)
    requires
        old(fs).wf(),
    ensures
        final(fs).wf(),
        match r {
            Ok(res) => {
                &&& orphan_list_ok(
                    old(fs).dir_set(),
                    config.plugin_root_abs@,
                    config.marketplace@.plugins,
                    views_of(res.orphaned@),
                )
                &&& res.warnings@.len() == 0
                &&& (!apply ==> *final(fs) == *old(fs) && res.deleted@.len() == 0)
                &&& (apply ==> {
                    &&& views_of(res.deleted@) == views_of(res.orphaned@)
                    &&& final(fs).file_map() == files_after_deletes(
                        old(fs).file_map(),
                        views_of(res.orphaned@),
                    )
                    &&& final(fs).dir_set() == dirs_after_deletes(
                        old(fs).dir_set(),
                        views_of(res.orphaned@),
                    )
                })
            },
            Err(e) => *final(fs) == *old(fs) && e is Io,
        },
        final(fs).file_map().contains_key(config.marketplace_path@) ==> old(fs).file_map().contains_key(config.marketplace_path@) && final(fs).file_map()[config.marketplace_path@] == old(fs).file_map()[config.marketplace_path@],
{
    let ghost m0 = fs.file_map();
    let ghost d0 = fs.dir_set();
    let orphaned = match crate::validation::find_orphaned_dirs(fs, config) {
        Ok(v) => v,
        Err(e) => {
            return Err(e);
        },
    };
    if !apply {
        return Ok(PruneResult { orphaned, deleted: Vec::new(), warnings: Vec::new() });
    }

    let ghost tv = views_of(orphaned@);
    let dn = orphaned.len();
    let mut deleted: Vec<String> = Vec::new();
    let mut i: usize = 0;
    proof {
        assert(tv.subrange(0, 0) =~= Seq::<Seq<char>>::empty());
        assert(views_of(deleted@) =~= tv.subrange(0, 0));
    }
    while i < dn
        invariant
            i <= dn,
            dn == orphaned@.len(),
            dn == tv.len(),
            fs.wf(),
            fs.file_map() == files_after_deletes(m0, tv.subrange(0, i as int)),
            fs.dir_set() == dirs_after_deletes(d0, tv.subrange(0, i as int)),
            views_of(deleted@) =~= tv.subrange(0, i as int),
        decreases dn - i,
    {
        proof {
            assert(tv.subrange(0, i as int + 1).drop_last() =~= tv.subrange(0, i as int));
            assert(tv.subrange(0, i as int + 1).last() == tv[i as int]);
            assert(tv[i as int] == orphaned@[i as int]@);
        }
        let ghost dpre = deleted@;
        fs.remove_dir_all(orphaned[i].as_str());
        deleted.push(orphaned[i].clone());
        proof {
            assert(views_of(deleted@).drop_last() =~= views_of(dpre));
            assert(views_of(deleted@) =~= tv.subrange(0, i as int + 1));
        }
        i += 1;
    }
    proof {
        assert(tv.subrange(0, dn as int) =~= tv);
        lemma_deletes_only_remove(m0, tv, config.marketplace_path@);
    }
    Ok(PruneResult { orphaned, deleted, warnings: Vec::new() })
}

} // verus!
