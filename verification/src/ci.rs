//! Pre-commit and pre-push validation, driven by the list of staged paths.
//!
//! Detecting which paths are staged is the caller's job (it takes running
//! the version-control tool); the decisions about what those paths mean and
//! what to validate are made here.

use vstd::prelude::*;

use crate::config::MarketplaceConfig;
use crate::errors::{some_error, ValidationResult};
use crate::fsm::Fs;
use crate::paths::has_prefix;

verus! {

/// Leading separators stripped.
pub open spec fn drop_slashes(s: Seq<char>) -> Seq<char>
    decreases s.len(),
{
    if s.len() > 0 && s[0] == '/' {
        drop_slashes(s.drop_first())
    } else {
        s
    }
}

/// The plugin directory name a staged path names, when it lies under the
/// plugin root prefix: the first component after the prefix, if non-empty.
#[verifier::opaque]
pub open spec fn staged_plugin(line: Seq<char>, prefix: Seq<char>) -> Option<Seq<char>> {
    if has_prefix(line, prefix) {
        let name = crate::resolution::first_component(
            drop_slashes(line.skip(prefix.len() as int)),
        );
        if name.len() > 0 {
            Some(name)
        } else {
            None
        }
    } else {
        None
    }
}

/// Parses one staged path against the plugin-root prefix.
#[verifier::loop_isolation(false)]
#[verifier::rlimit(60)]
fn staged_plugin_of(line: &str, prefix: &str) -> (r: Option<String>)
    ensures
        match r {
            Some(nm) => staged_plugin(line@, prefix@) == Some(nm@),
            None => staged_plugin(line@, prefix@) is None,
        },
{
    proof {
        reveal(staged_plugin);
    }
    if !crate::paths::starts_with(line, prefix) {
        return None;
    }
    let llen = line.unicode_len();
    let plen = prefix.unicode_len();
    let mut start = plen;
    while start < llen && line.get_char(start) == '/'
        invariant
            plen <= start <= llen,
            llen == line@.len(),
            drop_slashes(line@.skip(plen as int)) == drop_slashes(line@.skip(start as int)),
        decreases llen - start,
    {
        proof {
            assert(line@.skip(start as int).drop_first() =~= line@.skip(start as int + 1));
        }
        start += 1;
    }
    proof {
        if start < llen {
            assert(drop_slashes(line@.skip(start as int)) == line@.skip(start as int));
        } else {
            assert(line@.skip(start as int) =~= Seq::<char>::empty());
        }
    }
    let mut end = start;
    while end < llen && line.get_char(end) != '/'
        invariant
            start <= end <= llen,
            llen == line@.len(),
            forall|x: int| start <= x < end ==> line@[x] != '/',
        decreases llen - end,
    {
        end += 1;
    }
    if end > start {
        let name = line.substring_char(start, end).to_owned();
        proof {
            crate::resolution::lemma_first_component_at_pub(line@.skip(start as int), end - start);
            assert(name@ =~= line@.skip(start as int).subrange(0, end - start));
        }
        Some(name)
    } else {
        proof {
            if start < llen {
                assert(line@[start as int] == '/');
                assert(crate::resolution::first_component(line@.skip(start as int)) =~= Seq::<
                    char,
                >::empty());
            } else {
                assert(crate::resolution::first_component(line@.skip(start as int)).len() == 0);
            }
        }
        None
    }
}

/// The plugin directory names with staged changes: every name a staged path
/// under the plugin root prefix points at, each once.
#[verifier::loop_isolation(false)]
#[verifier::rlimit(100)]
pub fn changed_plugins_from_staged(staged: &Vec<String>, prefix: &str) -> (r: Vec<String>)
    ensures
        forall|k: int| #![trigger staged@[k]] 0 <= k < staged@.len() ==> (match staged_plugin(
            staged@[k]@,
            prefix@,
        ) {
            Some(nm) => exists|j: int| 0 <= j < r@.len() && r@[j]@ == nm,
            None => true,
        }),
        forall|a: int, b: int| 0 <= a < b < r@.len() ==> r@[a]@ != r@[b]@,
{
    let n = staged.len();
    let mut out: Vec<String> = Vec::new();
    let mut i: usize = 0;
    while i < n
        invariant
            i <= n,
            n == staged@.len(),
            forall|k: int| #![trigger staged@[k]] 0 <= k < i ==> (match staged_plugin(
                staged@[k]@,
                prefix@,
            ) {
                Some(nm) => exists|j: int| 0 <= j < out@.len() && out@[j]@ == nm,
                None => true,
            }),
            forall|a: int, b: int| 0 <= a < b < out@.len() ==> out@[a]@ != out@[b]@,
        decreases n - i,
    {
        let ghost outpre = out@;
        match staged_plugin_of(staged[i].as_str(), prefix) {
            Some(name) => {
                if !crate::fsm::contains_string(&out, name.as_str()) {
                    out.push(name);
                    proof {
                        assert(out@.drop_last() =~= outpre);
                        assert forall|a: int, b: int| 0 <= a < b < out@.len() implies out@[a]@
                            != out@[b]@ by {
                            if b == out@.len() - 1 {
                                assert(out@[a] == outpre[a]);
                            }
                        }
                        assert forall|k: int| #![trigger staged@[k]] 0 <= k < i + 1 implies (
                        match staged_plugin(staged@[k]@, prefix@) {
                            Some(nm) => exists|j: int| 0 <= j < out@.len() && out@[j]@ == nm,
                            None => true,
                        }) by {
                            if k < i {
                                match staged_plugin(staged@[k]@, prefix@) {
                                    Some(nm) => {
                                        let j = choose|j: int|
                                            0 <= j < outpre.len() && outpre[j]@ == nm;
                                        assert(out@[j] == outpre[j]);
                                    },
                                    None => {},
                                }
                            } else {
                                assert(out@[out@.len() - 1]@ == staged_plugin(
                                    staged@[k]@,
                                    prefix@,
                                )->Some_0);
                            }
                        }
                    }
                }
            },
            None => {},
        }
        i += 1;
    }
    out
}

/// Whether some staged path names the registry manifest.
pub fn staged_names_marketplace(staged: &Vec<String>) -> (r: bool)
    ensures
        r == exists|k: int|
            0 <= k < staged@.len() && crate::hooks::contains_sub_spec(
                #[trigger] staged@[k]@,
                "marketplace.json"@,
            ),
{
    let n = staged.len();
    let mut i: usize = 0;
    while i < n
        invariant
            i <= n,
            n == staged@.len(),
            forall|k: int| 0 <= k < i ==> !crate::hooks::contains_sub_spec(
                #[trigger] staged@[k]@,
                "marketplace.json"@,
            ),
        decreases n - i,
    {
        if crate::hooks::contains_sub(staged[i].as_str(), "marketplace.json") {
            return true;
        }
        i += 1;
    }
    false
}

/// Pre-commit validation: validates exactly the plugins with staged changes,
/// and the registry structure (plugins skipped) when the manifest itself is
/// staged. The caller supplies the staged paths.
#[verifier::loop_isolation(false)]
#[verifier::rlimit(60)]
pub fn run_pre_commit(fs: &Fs, config: &MarketplaceConfig, staged: &Vec<String>) -> (r:
    ValidationResult)
    requires
        fs.wf(),
    ensures
        some_error(r@) ==> (exists|nm: Seq<char>|
            crate::errors::some_error(
                crate::validation::plugin_diags(
                    fs.file_map(),
                    fs.dir_set(),
                    config.plugin_root_abs@ + seq!['/'] + nm,
                ),
            )) || crate::validation::registry_errors(
            fs.file_map(),
            fs.dir_set(),
            config.project_root@,
            config.plugin_root_abs@,
            config.marketplace@,
            true,
        ),
{
    let mut result = ValidationResult::new();
    let norm = config.marketplace.normalized_plugin_root();
    let nlen = norm.as_str().unicode_len();
    let prefix = if nlen >= 2 && norm.as_str().get_char(0) == '.' && norm.as_str().get_char(1)
        == '/' {
        norm.as_str().substring_char(2, nlen).to_owned()
    } else {
        norm
    };
    let changed = changed_plugins_from_staged(staged, prefix.as_str());
    let cn = changed.len();
    let mut i: usize = 0;
    while i < cn
        invariant
            i <= cn,
            cn == changed@.len(),
            some_error(result@) ==> exists|nm: Seq<char>|
                crate::errors::some_error(
                    crate::validation::plugin_diags(
                        fs.file_map(),
                        fs.dir_set(),
                        config.plugin_root_abs@ + seq!['/'] + nm,
                    ),
                ),
        decreases cn - i,
    {
        let plugin_path = crate::paths::join(
            config.plugin_root_abs.as_str(),
            changed[i].as_str(),
        );
        if fs.has_dir(plugin_path.as_str()) {
            let sub = crate::validation::validate_plugin(fs, plugin_path.as_str());
            let ghost before = result@;
            let ghost subv = sub@;
            result.merge(sub);
            proof {
                crate::errors::lemma_some_error_concat(before, subv);
            }
        }
        i += 1;
    }
    if staged_names_marketplace(staged) {
        let sub = crate::validation::validate_marketplace(fs, config, true);
        let ghost before = result@;
        let ghost subv = sub@;
        result.merge(sub);
        proof {
            crate::errors::lemma_some_error_concat(before, subv);
        }
    }
    result
}

/// Pre-push validation: the full registry validation, plugins included.
pub fn run_pre_push(fs: &Fs, config: &MarketplaceConfig) -> (r: ValidationResult)
    requires
        fs.wf(),
    ensures
        some_error(r@) == crate::validation::registry_errors(
            fs.file_map(),
            fs.dir_set(),
            config.project_root@,
            config.plugin_root_abs@,
            config.marketplace@,
            false,
        ),
{
    crate::validation::validate_marketplace(fs, config, false)
}

} // verus!
