//! The Remove pipeline: take entries out of the registry and optionally
//! delete their directories.
//!
//! All requested names must exist before anything is touched, and an external
//! directory is refused without the override flag before any guard is
//! acquired. The manifest mutation is guarded: on a post-write validation
//! failure the manifest reverts to its prior bytes. Directory deletion runs
//! only after a successful commit, so a failure there can never roll back the
//! registry change.

use vstd::prelude::*;

use crate::config::MarketplaceConfig;
use crate::errors::SoukError;
use crate::fsm::Fs;
use crate::guard::{backup_name, AtomicGuard};
use crate::paths::{under, under_set};
use crate::types::{market_file_text, EntryView, Marketplace, MarketView, PluginEntry};
use crate::version::{bump_patch_spec, semver_triple};

verus! {

/// The result of a remove operation: the names taken out of the registry and
/// any non-fatal warnings.
pub struct RemoveResult {
    pub removed: Vec<String>,
    pub warnings: Vec<String>,
}

/// Whether `name` occurs in `names`.
pub open spec fn in_names(names: Seq<Seq<char>>, name: Seq<char>) -> bool {
    exists|i: int| 0 <= i < names.len() && names[i] == name
}

pub open spec fn name_views(names: Seq<String>) -> Seq<Seq<char>> {
    Seq::new(names.len(), |i: int| names[i]@)
}

/// The entries that survive removing `names`.
pub open spec fn without_names(ps: Seq<EntryView>, names: Seq<Seq<char>>) -> Seq<EntryView>
    decreases ps.len(),
{
    if ps.len() == 0 {
        Seq::empty()
    } else if in_names(names, ps.last().name) {
        without_names(ps.drop_last(), names)
    } else {
        without_names(ps.drop_last(), names).push(ps.last())
    }
}

/// The document after removing `names` and bumping the patch version.
pub open spec fn removed_doc(d: MarketView, names: Seq<Seq<char>>) -> MarketView {
    MarketView {
        version: bump_patch_spec(semver_triple(d.version)->Some_0),
        plugin_root: d.plugin_root,
        plugins: without_names(d.plugins, names),
    }
}

/// The directories the pipeline deletes after a successful commit: the
/// resolved paths of the requested entries that exist as directories.
pub open spec fn delete_targets_spec(
    d0: Set<Seq<char>>,
    plugins: Seq<EntryView>,
    names: Seq<Seq<char>>,
    project_root: Seq<char>,
    root: Seq<char>,
) -> Seq<Seq<char>>
    decreases names.len(),
{
    if names.len() == 0 {
        Seq::empty()
    } else {
        let rest = delete_targets_spec(d0, plugins, names.drop_last(), project_root, root);
        match crate::resolution::first_named(plugins, names.last()) {
            Some(e) => {
                let p = crate::resolution::resolve_source_spec(e.source, project_root, root);
                if d0.contains(p) {
                    rest.push(p)
                } else {
                    rest
                }
            },
            None => rest,
        }
    }
}

/// The file map after deleting every target subtree, in order.
pub open spec fn files_after_deletes(
    m: Map<Seq<char>, Seq<char>>,
    targets: Seq<Seq<char>>,
) -> Map<Seq<char>, Seq<char>>
    decreases targets.len(),
{
    if targets.len() == 0 {
        m
    } else {
        files_after_deletes(m, targets.drop_last()).remove_keys(under_set(targets.last()))
    }
}

pub open spec fn dirs_after_deletes(d: Set<Seq<char>>, targets: Seq<Seq<char>>) -> Set<Seq<char>>
    decreases targets.len(),
{
    if targets.len() == 0 {
        d
    } else {
        dirs_after_deletes(d, targets.drop_last()).difference(under_set(targets.last()))
    }
}

/// Some requested name resolves to an existing directory outside the plugin
/// root.
pub open spec fn unauthorized_delete(
    d0: Set<Seq<char>>,
    plugins: Seq<EntryView>,
    names: Seq<Seq<char>>,
    project_root: Seq<char>,
    root: Seq<char>,
) -> bool {
    exists|i: int|
        #![trigger names[i]]
        0 <= i < names.len() && match crate::resolution::first_named(plugins, names[i]) {
            Some(e) => {
                let p = crate::resolution::resolve_source_spec(e.source, project_root, root);
                d0.contains(p) && !under(p, root)
            },
            None => false,
        }
}

/// Removes the named plugins from the registry.
///
/// Fails without touching anything when a name does not exist in the loaded
/// snapshot, or when `delete_files` is set without `allow_external_delete`
/// and some target directory lies outside the plugin root. Otherwise the
/// manifest is re-read from the filesystem, the entries are removed, the
/// patch version is bumped, and the result is written back under a guard:
/// the write survives exactly when the new registry state passes validation.
/// Requested directories are deleted only after the guard commits.
#[verifier::loop_isolation(false)]
#[verifier::rlimit(100)]
pub fn remove_plugins(
    fs: &mut Fs,
    names: &Vec<String>,
    delete_files: bool,
    allow_external_delete: bool,
    config: &MarketplaceConfig,
    now_secs: u64,
) -> (r: Result<RemoveResult, SoukError>)
    requires
        old(fs).wf(),
        !under(config.marketplace_path@, config.plugin_root_abs@),
    ensures
        final(fs).wf(),
        ({
            let m0 = old(fs).file_map();
            let d0 = old(fs).dir_set();
            let mp = config.marketplace_path@;
            let bak = backup_name(mp, now_secs);
            let nv = name_views(names@);
            let targets = if delete_files {
                delete_targets_spec(
                    d0,
                    config.marketplace@.plugins,
                    nv,
                    config.project_root@,
                    config.plugin_root_abs@,
                )
            } else {
                Seq::empty()
            };
            match r {
                Ok(res) => {
                    &&& (names@.len() == 0 ==> *final(fs) == *old(fs) && res.removed@.len() == 0
                        && res.warnings@.len() == 0)
                    &&& (names@.len() > 0 ==> {
                        let d = crate::config::doc_at(m0, mp)->Some_0;
                        let newdoc = removed_doc(d, nv);
                        &&& crate::config::doc_at(m0, mp) is Some
                        &&& name_views(res.removed@) == nv
                        &&& res.warnings@.len() == 0
                        &&& final(fs).file_map() == files_after_deletes(
                            m0.insert(mp, market_file_text(newdoc)).remove(bak),
                            targets,
                        )
                        &&& final(fs).dir_set() == dirs_after_deletes(d0, targets)
                    })
                },
                Err(e) => {
                    &&& ((e is PluginNotFound || e is Other) ==> *final(fs) == *old(fs))
                    &&& ((e is Io || e is Json || e is Semver || e is AtomicRollback) ==> {
                        &&& final(fs).dir_set() == d0
                        &&& (forall|k: Seq<char>|
                            k != mp && k != bak ==> #[trigger] final(fs).file_map().contains_key(
                                k,
                            ) == m0.contains_key(k) && (m0.contains_key(k)
                                ==> final(fs).file_map()[k] == m0[k]))
                        &&& final(fs).file_map().contains_key(bak) == (!m0.contains_key(mp)
                            && m0.contains_key(bak))
                        &&& final(fs).file_map().contains_key(mp) == m0.contains_key(mp)
                        &&& (m0.contains_key(mp) ==> final(fs).file_map()[mp] == m0[mp])
                    })
                },
            }
        }),
        names@.len() == 0 ==> r is Ok,
        ({
            let nv = name_views(names@);
            (names@.len() > 0 && exists|j: int|
                0 <= j < nv.len() && crate::resolution::first_named(
                    config.marketplace@.plugins,
                    #[trigger] nv[j],
                ) is None) ==> (r matches Err(SoukError::PluginNotFound(_)) && *final(fs) == *old(
                fs,
            ))
        }),
        ({
            let nv = name_views(names@);
            (names@.len() > 0 && (forall|j: int|
                0 <= j < nv.len() ==> crate::resolution::first_named(
                    config.marketplace@.plugins,
                    #[trigger] nv[j],
                ) is Some) && delete_files && !allow_external_delete && unauthorized_delete(
                old(fs).dir_set(),
                config.marketplace@.plugins,
                nv,
                config.project_root@,
                config.plugin_root_abs@,
            )) ==> (r matches Err(SoukError::Other(_)) && *final(fs) == *old(fs))
        }),
        ({
            let m0 = old(fs).file_map();
            let d0 = old(fs).dir_set();
            let mp = config.marketplace_path@;
            let nv = name_views(names@);
            let d = crate::config::doc_at(m0, mp)->Some_0;
            (
            names@.len() > 0 && (forall|j: int|
                0 <= j < nv.len() ==> crate::resolution::first_named(
                    config.marketplace@.plugins,
                    #[trigger] nv[j],
                ) is Some) && (delete_files ==> allow_external_delete || !unauthorized_delete(
                d0,
                config.marketplace@.plugins,
                nv,
                config.project_root@,
                config.plugin_root_abs@,
            )) && crate::config::doc_at(m0, mp) is Some && (semver_triple(d.version) matches Some(
                t,
            ) && t.2 < u64::MAX) && !crate::validation::registry_errors(
                m0,
                d0,
                config.project_root@,
                config.plugin_root_abs@,
                removed_doc(d, nv),
                true,
            )) ==> r is Ok
        }),
{
    let ghost m0 = fs.file_map();
    let ghost d0 = fs.dir_set();
    let ghost nv = name_views(names@);
    if names.len() == 0 {
        return Ok(RemoveResult { removed: Vec::new(), warnings: Vec::new() });
    }

    // Every requested name must already exist in the snapshot.
    let n = names.len();
    let mut i: usize = 0;
    while i < n
        invariant
            i <= n,
            n == names@.len(),
            forall|j: int| 0 <= j < i ==> crate::resolution::first_named(
                config.marketplace@.plugins,
                #[trigger] nv[j],
            ) is Some,
        decreases n - i,
    {
        proof {
            assert(nv[i as int] == names@[i as int]@);
        }
        match crate::resolution::find_entry_index(&config.marketplace, names[i].as_str()) {
            Some(_) => {},
            None => {
                return Err(SoukError::PluginNotFound(names[i].clone()));
            },
        }
        i += 1;
    }

    // Resolve and authorize the delete targets before any mutation.
    let mut delete_targets: Vec<String> = Vec::new();
    if delete_files {
        let mut i: usize = 0;
        while i < n
            invariant
                i <= n,
                n == names@.len(),
                fs == old(fs),
                fs.wf(),
                forall|j: int| 0 <= j < names@.len() ==> crate::resolution::first_named(
                    config.marketplace@.plugins,
                    #[trigger] nv[j],
                ) is Some,
                Seq::new(delete_targets@.len(), |k: int| delete_targets@[k]@)
                    == delete_targets_spec(
                    d0,
                    config.marketplace@.plugins,
                    nv.subrange(0, i as int),
                    config.project_root@,
                    config.plugin_root_abs@,
                ),
                forall|j: int| #![trigger nv[j]] 0 <= j < i ==> !(match crate::resolution::first_named(
                    config.marketplace@.plugins,
                    nv[j],
                ) {
                    Some(e) => {
                        let p = crate::resolution::resolve_source_spec(
                            e.source,
                            config.project_root@,
                            config.plugin_root_abs@,
                        );
                        d0.contains(p) && !under(p, config.plugin_root_abs@)
                            && !allow_external_delete
                    },
                    None => false,
                }),
            decreases n - i,
        {
            proof {
                assert(nv.subrange(0, i as int + 1).drop_last() =~= nv.subrange(0, i as int));
                assert(nv.subrange(0, i as int + 1).last() == nv[i as int]);
            }
            proof {
                assert(nv[i as int] == names@[i as int]@);
            }
            let idx = match crate::resolution::find_entry_index(
                &config.marketplace,
                names[i].as_str(),
            ) {
                Some(idx) => idx,
                None => {
                    proof {
                        assert(false);
                    }
                    return Err(SoukError::PluginNotFound(names[i].clone()));
                },
            };
            let resolved = match crate::resolution::resolve_source(
                config.marketplace.plugins[idx].source.as_str(),
                config,
            ) {
                Ok(p) => p,
                Err(e) => {
                    proof {
                        assert(false);
                    }
                    return Err(e);
                },
            };
            if fs.has_dir(resolved.as_str()) {
                let internal = crate::paths::is_under(
                    resolved.as_str(),
                    config.plugin_root_abs.as_str(),
                );
                if !internal && !allow_external_delete {
                    proof {
                        assert(unauthorized_delete(
                            d0,
                            config.marketplace@.plugins,
                            nv,
                            config.project_root@,
                            config.plugin_root_abs@,
                        ));
                    }
                    let mut msg = "Refusing to delete '".to_owned();
                    msg.append(resolved.as_str());
                    msg.append("': path is outside pluginRoot (");
                    msg.append(config.plugin_root_abs.as_str());
                    msg.append("). Use --allow-external-delete to override.");
                    return Err(SoukError::Other(msg));
                }
                let ghost pre = delete_targets@;
                delete_targets.push(resolved);
                proof {
                    assert(Seq::new(delete_targets@.len(), |k: int| delete_targets@[k]@)
                        =~= Seq::new(pre.len(), |k: int| pre[k]@).push(
                        delete_targets@.last()@,
                    ));
                }
            }
            i += 1;
        }
        proof {
            assert(nv.subrange(0, n as int) =~= nv);
        }
    }

    // Guarded manifest mutation: re-read, remove, bump, write, validate.
    let mp_path = config.marketplace_path.as_str();
    let guard = AtomicGuard::new(fs, mp_path, now_secs);
    let doc = match crate::config::load_marketplace_doc(fs, mp_path) {
        Ok(doc) => doc,
        Err(e) => {
            proof {
                crate::guard::lemma_backup_name_differs(mp_path@, now_secs);
                assert(crate::config::doc_at(fs.file_map(), mp_path@) == crate::config::doc_at(
                    m0,
                    mp_path@,
                ));
            }
            guard.release(fs);
            return Err(e);
        },
    };
    proof {
        crate::guard::lemma_backup_name_differs(mp_path@, now_secs);
        assert(crate::config::doc_at(m0, mp_path@) == Some(doc@));
    }

    let mut removed: Vec<String> = Vec::new();
    let mut kept: Vec<PluginEntry> = Vec::new();
    let mut rest = doc.plugins;
    while rest.len() > 0
        invariant
            without_names(doc@.plugins, nv) =~= Seq::new(kept@.len(), |k: int| kept@[k]@)
                + without_names(Seq::new(rest@.len(), |k: int| rest@[k]@), nv),
        decreases rest@.len(),
    {
        let ghost restpre = rest@;
        let ghost keptpre = kept@;
        let e = rest.remove(0);
        proof {
            assert(Seq::new(restpre.len(), |k: int| restpre[k]@).drop_first() =~= Seq::new(
                rest@.len(),
                |k: int| rest@[k]@,
            ));
        }
        if contains_name_vec(names, e.name.as_str()) {
            proof {
                lemma_without_names_first(
                    Seq::new(restpre.len(), |k: int| restpre[k]@),
                    nv,
                    true,
                );
            }
        } else {
            proof {
                lemma_without_names_first(
                    Seq::new(restpre.len(), |k: int| restpre[k]@),
                    nv,
                    false,
                );
            }
            kept.push(e);
            proof {
                assert(Seq::new(kept@.len(), |k: int| kept@[k]@) =~= Seq::new(
                    keptpre.len(),
                    |k: int| keptpre[k]@,
                ).push(kept@.last()@));
            }
        }
    }
    proof {
        assert(Seq::new(rest@.len(), |k: int| rest@[k]@) =~= Seq::<EntryView>::empty());
        assert(without_names(doc@.plugins, nv) =~= Seq::new(kept@.len(), |k: int| kept@[k]@));
    }
    let mut i: usize = 0;
    while i < n
        invariant
            i <= n,
            n == names@.len(),
            name_views(removed@) =~= nv.subrange(0, i as int),
        decreases n - i,
    {
        proof {
            assert(nv.subrange(0, i as int + 1).drop_last() =~= nv.subrange(0, i as int));
        }
        removed.push(names[i].clone());
        proof {
            assert(name_views(removed@) =~= nv.subrange(0, i as int + 1));
        }
        i += 1;
    }
    proof {
        assert(nv.subrange(0, n as int) =~= nv);
    }

    let new_version = match crate::version::bump_patch(doc.version.as_str()) {
        Ok(v) => v,
        Err(e) => {
            guard.release(fs);
            return Err(SoukError::Semver(doc.version.clone()));
        },
    };
    let newdoc = Marketplace {
        version: new_version,
        plugin_root: doc.plugin_root,
        plugins: kept,
    };
    proof {
        assert(newdoc@ =~= removed_doc(doc@, nv));
    }
    let content = crate::types::render_marketplace_file(&newdoc);
    fs.write_file(mp_path, content);

    // Final validation of the new state; roll back on failure.
    let check_config = MarketplaceConfig {
        marketplace_path: config.marketplace_path.clone(),
        project_root: config.project_root.clone(),
        plugin_root_abs: config.plugin_root_abs.clone(),
        marketplace: newdoc,
    };
    let validation = crate::validation::validate_marketplace(fs, &check_config, true);
    if validation.has_errors() {
        guard.release(fs);
        return Err(SoukError::AtomicRollback("Validation failed after remove".to_owned()));
    }
    guard.commit(fs);
    proof {
        assert(fs.file_map() =~= m0.insert(mp_path@, market_file_text(removed_doc(doc@, nv))).remove(
            backup_name(mp_path@, now_secs),
        ));
    }

    // Post-commit directory deletion; in this model it cannot fail.
    let ghost m1 = fs.file_map();
    let dn = delete_targets.len();
    let ghost tv = Seq::new(delete_targets@.len(), |k: int| delete_targets@[k]@);
    let mut i: usize = 0;
    while i < dn
        invariant
            i <= dn,
            dn == delete_targets@.len(),
            fs.wf(),
            fs.file_map() == files_after_deletes(m1, tv.subrange(0, i as int)),
            fs.dir_set() == dirs_after_deletes(d0, tv.subrange(0, i as int)),
        decreases dn - i,
    {
        proof {
            assert(tv.subrange(0, i as int + 1).drop_last() =~= tv.subrange(0, i as int));
        }
        fs.remove_dir_all(delete_targets[i].as_str());
        i += 1;
    }
    proof {
        assert(tv.subrange(0, dn as int) =~= tv);
    }
    Ok(RemoveResult { removed, warnings: Vec::new() })
}

/// How removal treats the head entry of a list.
pub proof fn lemma_without_names_first_pub(ps: Seq<EntryView>, names: Seq<Seq<char>>, dropped: bool)
    requires
        ps.len() > 0,
        dropped == in_names(names, ps[0].name),
    ensures
        dropped ==> without_names(ps, names) == without_names(ps.drop_first(), names),
        !dropped ==> without_names(ps, names) == seq![ps[0]] + without_names(
            ps.drop_first(),
            names,
        ),
{
    lemma_without_names_first(ps, names, dropped);
}

proof fn lemma_without_names_first(ps: Seq<EntryView>, names: Seq<Seq<char>>, dropped: bool)
    requires
        ps.len() > 0,
        dropped == in_names(names, ps[0].name),
    ensures
        dropped ==> without_names(ps, names) == without_names(ps.drop_first(), names),
        !dropped ==> without_names(ps, names) == seq![ps[0]] + without_names(
            ps.drop_first(),
            names,
        ),
    decreases ps.len(),
{
    if ps.len() == 1 {
        assert(ps.drop_first() =~= Seq::<EntryView>::empty());
        assert(ps.drop_last() =~= Seq::<EntryView>::empty());
        assert(without_names(Seq::<EntryView>::empty(), names) =~= Seq::<EntryView>::empty());
        assert(ps.last() == ps[0]);
        if !dropped {
            assert(without_names(ps, names) == without_names(ps.drop_last(), names).push(
                ps.last(),
            ));
            assert(without_names(ps, names) =~= seq![ps[0]] + without_names(
                ps.drop_first(),
                names,
            ));
        }
    } else {
        lemma_without_names_first(ps.drop_last(), names, dropped);
        assert(ps.drop_last()[0] == ps[0]);
        assert(ps.drop_first().drop_last() =~= ps.drop_last().drop_first());
        assert(ps.drop_first().last() == ps.last());
        if in_names(names, ps.last().name) {
            assert(without_names(ps, names) == without_names(ps.drop_last(), names));
        } else {
            if !dropped {
                assert(without_names(ps, names) =~= seq![ps[0]] + without_names(
                    ps.drop_first(),
                    names,
                ));
            }
        }
    }
}

/// Whether `name` occurs in `names`.
fn contains_name_vec(names: &Vec<String>, name: &str) -> (r: bool)
    ensures
        r == in_names(name_views(names@), name@),
{
    let n = names.len();
    let mut i: usize = 0;
    while i < n
        invariant
            i <= n,
            n == names@.len(),
            forall|j: int| 0 <= j < i ==> names@[j]@ != name@,
        decreases n - i,
    {
        if crate::paths::str_eq(names[i].as_str(), name) {
            proof {
                assert(name_views(names@)[i as int] == name@);
            }
            return true;
        }
        i += 1;
    }
    proof {
        assert forall|j: int| 0 <= j < name_views(names@).len() implies #[trigger] name_views(
            names@,
        )[j] != name@ by {
            assert(names@[j]@ != name@);
        }
    }
    false
}

/// Deletes one plugin directory, refusing a directory outside the plugin
/// root unless the override is given.
pub fn delete_plugin_dir(
    fs: &mut Fs,
    source: &str,
    allow_external_delete: bool,
    config: &MarketplaceConfig,
) -> (r: Result<(), SoukError>)
    requires
        old(fs).wf(),
    ensures
        final(fs).wf(),
        ({
            let p = crate::resolution::resolve_source_spec(
                source@,
                config.project_root@,
                config.plugin_root_abs@,
            );
            match r {
                Ok(_) => {
                    &&& (old(fs).dir_set().contains(p) ==> (under(p, config.plugin_root_abs@)
                        || allow_external_delete) && final(fs).file_map() == old(
                        fs,
                    ).file_map().remove_keys(under_set(p)) && final(fs).dir_set() == old(
                        fs,
                    ).dir_set().difference(under_set(p)))
                    &&& (!old(fs).dir_set().contains(p) ==> *final(fs) == *old(fs))
                },
                Err(e) => {
                    &&& *final(fs) == *old(fs)
                    &&& old(fs).dir_set().contains(p)
                    &&& !under(p, config.plugin_root_abs@)
                    &&& !allow_external_delete
                    &&& e is Other
                },
            }
        }),
{
    let resolved = match crate::resolution::resolve_source(source, config) {
        Ok(p) => p,
        Err(e) => {
            proof {
                assert(false);
            }
            return Err(e);
        },
    };
    if fs.has_dir(resolved.as_str()) {
        let internal = crate::paths::is_under(resolved.as_str(), config.plugin_root_abs.as_str());
        if !internal && !allow_external_delete {
            let mut msg = "Refusing to delete '".to_owned();
            msg.append(resolved.as_str());
            msg.append("': path is outside pluginRoot (");
            msg.append(config.plugin_root_abs.as_str());
            msg.append("). Use --allow-external-delete to override.");
            return Err(SoukError::Other(msg));
        }
        fs.remove_dir_all(resolved.as_str());
    }
    Ok(())
}

} // verus!
