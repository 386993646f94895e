//! The Add pipeline: plan first, then execute.
//!
//! Planning is pure: it resolves each input to a plugin directory, validates
//! it, classifies it as internal or external, and applies the conflict
//! policy against the names already registered. Execution copies external
//! plugins into the plugin root, then mutates the manifest under a guard:
//! the manifest write survives exactly when the new registry state passes
//! validation, while completed directory copies deliberately survive a
//! manifest rollback.

use vstd::prelude::*;

use crate::config::MarketplaceConfig;
use crate::errors::SoukError;
use crate::fsm::{copied_dirs, copied_files, Fs};
use crate::guard::{backup_name, AtomicGuard};
use crate::paths::{under, under_set};
use crate::resolution::{plugin_path_to_source, resolve_plugin};
use crate::types::{market_file_text, EntryView, Marketplace, MarketView, PluginEntry};
use crate::validation::{plugin_diags, plugin_json_of};
use crate::version::{bump_patch_spec, name_taken, semver_triple, suffixed_name};

verus! {

/// How a name conflict is resolved for one planned entry.
pub enum ConflictResolution {
    /// Leave this plugin out of execution.
    Skip,
    /// Replace the existing same-named entry.
    Replace,
    /// Register under this fresh name instead.
    Rename(String),
}

/// The conflict policy, parsed once from the caller's policy string.
#[derive(Clone, Copy, PartialEq, Eq, Structural, Debug)]
pub enum ConflictStrategy {
    Abort,
    Skip,
    Replace,
    Rename,
}

/// Parses a policy string.
pub fn parse_strategy(strategy: &str) -> (r: Option<ConflictStrategy>)
    ensures
        r == strategy_spec(strategy@),
{
    if crate::paths::str_eq(strategy, "abort") {
        Some(ConflictStrategy::Abort)
    } else if crate::paths::str_eq(strategy, "skip") {
        Some(ConflictStrategy::Skip)
    } else if crate::paths::str_eq(strategy, "replace") {
        Some(ConflictStrategy::Replace)
    } else if crate::paths::str_eq(strategy, "rename") {
        Some(ConflictStrategy::Rename)
    } else {
        None
    }
}

pub open spec fn strategy_spec(s: Seq<char>) -> Option<ConflictStrategy> {
    if s == "abort"@ {
        Some(ConflictStrategy::Abort)
    } else if s == "skip"@ {
        Some(ConflictStrategy::Skip)
    } else if s == "replace"@ {
        Some(ConflictStrategy::Replace)
    } else if s == "rename"@ {
        Some(ConflictStrategy::Rename)
    } else {
        None
    }
}

/// One planned addition.
pub struct AddAction {
    /// The resolved plugin directory.
    pub plugin_path: String,
    /// The plugin's name from its manifest.
    pub plugin_name: String,
    /// The source value to store in the registry.
    pub source: String,
    /// Whether the plugin lives outside the plugin root.
    pub is_external: bool,
    /// The conflict resolution, when the name is already registered.
    pub conflict: Option<ConflictResolution>,
}

/// The full plan produced by the planning phase: a value with no side
/// effects, alive only between planning and execution.
pub struct AddPlan {
    pub actions: Vec<AddAction>,
}

pub struct ActionView {
    pub plugin_path: Seq<char>,
    pub plugin_name: Seq<char>,
    pub source: Seq<char>,
    pub is_external: bool,
    pub conflict: Option<ConflictView>,
}

pub enum ConflictView {
    Skip,
    Replace,
    Rename(Seq<char>),
}

impl View for AddAction {
    type V = ActionView;

    open spec fn view(&self) -> ActionView {
        ActionView {
            plugin_path: self.plugin_path@,
            plugin_name: self.plugin_name@,
            source: self.source@,
            is_external: self.is_external,
            conflict: match self.conflict {
                None => None,
                Some(ConflictResolution::Skip) => Some(ConflictView::Skip),
                Some(ConflictResolution::Replace) => Some(ConflictView::Replace),
                Some(ConflictResolution::Rename(n)) => Some(ConflictView::Rename(n@)),
            },
        }
    }
}

/// What planning one input yields, with the registered-name set fixed up
/// front: a collectable resolution or validation failure, a hard failure
/// that stops the whole plan, an abort conflict, or a planned action (whose
/// rename target, when any, is chosen by the unique-name search).
pub enum PlanOutcome {
    /// The input cannot be resolved or its plugin fails validation; planning
    /// reports it together with the other failures.
    Fail,
    /// The plugin manifest cannot be read or parsed, or names no plugin;
    /// planning stops at once.
    Hard,
    /// A name conflict under the abort policy, with the conflicting name.
    Abort(Seq<char>),
    /// A planned action; a `Rename` conflict carries no name here, the
    /// planned action's clause pins it separately.
    Act(ActionView),
}

/// The outcome of planning one input.
pub open spec fn plan_outcome(
    files: Map<Seq<char>, Seq<char>>,
    dirs: Set<Seq<char>>,
    ps: Seq<EntryView>,
    existing: Seq<Seq<char>>,
    project_root: Seq<char>,
    root: Seq<char>,
    input: Seq<char>,
    strat: ConflictStrategy,
    no_copy: bool,
) -> PlanOutcome {
    match crate::resolution::resolve_plugin_spec(dirs, ps, input, project_root, root) {
        None => PlanOutcome::Fail,
        Some(path) => {
            if !files.contains_key(plugin_json_of(path)) {
                PlanOutcome::Hard
            } else {
                match crate::json::json_parse(files[plugin_json_of(path)]) {
                    None => PlanOutcome::Hard,
                    Some(v) => match crate::types::manifest_of_json(v) {
                        None => PlanOutcome::Hard,
                        Some(mf) => match mf.name {
                            None => PlanOutcome::Hard,
                            Some(name) => {
                                if crate::errors::some_error(plugin_diags(files, dirs, path)) {
                                    PlanOutcome::Fail
                                } else {
                                    let st = crate::resolution::path_to_source_spec(path, root);
                                    let is_external = !st.1;
                                    let final_source = if is_external && !no_copy {
                                        name
                                    } else {
                                        st.0
                                    };
                                    if !crate::remove::in_names(existing, name) {
                                        PlanOutcome::Act(
                                            ActionView {
                                                plugin_path: path,
                                                plugin_name: name,
                                                source: final_source,
                                                is_external,
                                                conflict: None,
                                            },
                                        )
                                    } else {
                                        match strat {
                                            ConflictStrategy::Abort => PlanOutcome::Abort(name),
                                            ConflictStrategy::Skip => PlanOutcome::Act(
                                                ActionView {
                                                    plugin_path: path,
                                                    plugin_name: name,
                                                    source: final_source,
                                                    is_external,
                                                    conflict: Some(ConflictView::Skip),
                                                },
                                            ),
                                            ConflictStrategy::Replace => PlanOutcome::Act(
                                                ActionView {
                                                    plugin_path: path,
                                                    plugin_name: name,
                                                    source: final_source,
                                                    is_external,
                                                    conflict: Some(ConflictView::Replace),
                                                },
                                            ),
                                            ConflictStrategy::Rename => PlanOutcome::Act(
                                                ActionView {
                                                    plugin_path: path,
                                                    plugin_name: name,
                                                    source: final_source,
                                                    is_external,
                                                    conflict: Some(
                                                        ConflictView::Rename(Seq::empty()),
                                                    ),
                                                },
                                            ),
                                        }
                                    }
                                }
                            },
                        },
                    },
                }
            }
        },
    }
}

/// An action matches an outcome, up to the rename target: the target itself
/// must be the first free suffixed candidate for the plugin's name.
pub open spec fn action_matches(a: ActionView, o: PlanOutcome, existing: Seq<Seq<char>>) -> bool {
    match o {
        PlanOutcome::Act(av) => {
            &&& a.plugin_path == av.plugin_path
            &&& a.plugin_name == av.plugin_name
            &&& a.source == av.source
            &&& a.is_external == av.is_external
            &&& (match (a.conflict, av.conflict) {
                (None, None) => true,
                (Some(ConflictView::Skip), Some(ConflictView::Skip)) => true,
                (Some(ConflictView::Replace), Some(ConflictView::Replace)) => true,
                (Some(ConflictView::Rename(n)), Some(ConflictView::Rename(_))) => {
                    &&& !crate::remove::in_names(existing, n)
                    &&& exists|k: nat|
                        2 <= k && n == suffixed_name(a.plugin_name, k) && forall|j: nat|
                            2 <= j < k ==> crate::remove::in_names(
                                existing,
                                suffixed_name(a.plugin_name, j),
                            )
                },
                _ => false,
            })
        },
        _ => false,
    }
}

/// The names of the entries, as the existing-name set for conflict checks.
pub fn names_of(m: &Marketplace) -> (r: Vec<String>)
    ensures
        r@.len() == m.plugins@.len(),
        forall|i: int| #![trigger r@[i]] 0 <= i < r@.len() ==> r@[i]@ == m@.plugins[i].name,
{
    let n = m.plugins.len();
    let mut out: Vec<String> = Vec::new();
    let mut i: usize = 0;
    while i < n
        invariant
            i <= n,
            n == m.plugins@.len(),
            out@.len() == i,
            forall|j: int| #![trigger out@[j]] 0 <= j < i ==> out@[j]@ == m@.plugins[j].name,
        decreases n - i,
    {
        out.push(m.plugins[i].name.clone());
        i += 1;
    }
    out
}

/// The outcome of planning input `i`, against the loaded snapshot.
pub open spec fn input_outcome(
    fs: Fs,
    config: MarketplaceConfig,
    inputs: Seq<String>,
    strat: ConflictStrategy,
    no_copy: bool,
    i: int,
) -> PlanOutcome {
    plan_outcome(
        fs.file_map(),
        fs.dir_set(),
        config.marketplace@.plugins,
        existing_names(config),
        config.project_root@,
        config.plugin_root_abs@,
        inputs[i]@,
        strat,
        no_copy,
    )
}

/// The registered names the conflict policy runs against.
pub open spec fn existing_names(config: MarketplaceConfig) -> Seq<Seq<char>> {
    Seq::new(config.marketplace@.plugins.len(), |i: int| config.marketplace@.plugins[i].name)
}

/// What the collected failure report names for input `i`: the input text when
/// it did not resolve, the resolved directory otherwise.
pub open spec fn fail_token(
    fs: Fs,
    config: MarketplaceConfig,
    inputs: Seq<String>,
    i: int,
) -> Seq<char> {
    match crate::resolution::resolve_plugin_spec(
        fs.dir_set(),
        config.marketplace@.plugins,
        inputs[i]@,
        config.project_root@,
        config.plugin_root_abs@,
    ) {
        Some(p) => p,
        None => inputs[i]@,
    }
}

/// A pattern standing at a known offset is contained.
proof fn lemma_contains_at(s: Seq<char>, off: int, pat: Seq<char>)
    requires
        0 <= off,
        off + pat.len() <= s.len(),
        s.subrange(off, off + pat.len() as int) == pat,
    ensures
        crate::hooks::contains_sub_spec(s, pat),
{
}

/// Containment survives appending on the right.
proof fn lemma_contains_append(a: Seq<char>, b: Seq<char>, pat: Seq<char>)
    requires
        crate::hooks::contains_sub_spec(a, pat),
    ensures
        crate::hooks::contains_sub_spec(a + b, pat),
{
    let i = choose|i: int|
        0 <= i <= a.len() - pat.len() && #[trigger] a.subrange(i, i + pat.len() as int) == pat;
    assert((a + b).subrange(i, i + pat.len() as int) =~= a.subrange(i, i + pat.len() as int));
}

/// Containment is transitive through an intermediate piece.
proof fn lemma_contains_trans(s: Seq<char>, mid: Seq<char>, pat: Seq<char>)
    requires
        crate::hooks::contains_sub_spec(s, mid),
        crate::hooks::contains_sub_spec(mid, pat),
    ensures
        crate::hooks::contains_sub_spec(s, pat),
{
    let i1 = choose|i: int|
        0 <= i <= s.len() - mid.len() && #[trigger] s.subrange(i, i + mid.len() as int) == mid;
    let i2 = choose|i: int|
        0 <= i <= mid.len() - pat.len() && #[trigger] mid.subrange(i, i + pat.len() as int)
            == pat;
    assert(s.subrange(i1 + i2, i1 + i2 + pat.len() as int) =~= pat) by {
        assert forall|k: int| 0 <= k < pat.len() implies s.subrange(
            i1 + i2,
            i1 + i2 + pat.len() as int,
        )[k] == pat[k] by {
            assert(s.subrange(i1, i1 + mid.len() as int)[i2 + k] == mid[i2 + k]);
            assert(mid.subrange(i2, i2 + pat.len() as int)[k] == pat[k]);
        }
    }
    lemma_contains_at(s, i1 + i2, pat);
}

/// Plans the add operation without touching the filesystem.
///
/// Resolves each input to a plugin directory, reads its manifest, validates
/// the plugin, classifies it, and resolves name conflicts against the
/// already-registered names under the given policy. Resolution and
/// validation failures are collected across all inputs and reported together
/// in one message; an abort conflict or an unreadable manifest fails the
/// plan at once.
#[verifier::loop_isolation(false)]
#[verifier::rlimit(100)]
pub fn plan_add(
    fs: &Fs,
    inputs: &Vec<String>,
    config: &MarketplaceConfig,
    strategy: &str,
    no_copy: bool,
) -> (r: Result<AddPlan, SoukError>)
    requires
        fs.wf(),
        config.marketplace@.plugins.len() < usize::MAX - 2,
    ensures
        ({
            let strat = strategy_spec(strategy@)->Some_0;
            strategy_spec(strategy@) is Some ==> match r {
                Ok(plan) => {
                    &&& plan.actions@.len() == inputs@.len()
                    &&& forall|i: int| #![trigger plan.actions@[i]] 0 <= i < inputs@.len()
                        ==> action_matches(
                        plan.actions@[i]@,
                        input_outcome(*fs, *config, inputs@, strat, no_copy, i),
                        existing_names(*config),
                    )
                },
                Err(e) => {
                    &&& (e matches SoukError::PluginAlreadyExists(n) ==> exists|i: int|
                        0 <= i < inputs@.len() && #[trigger] input_outcome(
                            *fs,
                            *config,
                            inputs@,
                            strat,
                            no_copy,
                            i,
                        ) == PlanOutcome::Abort(n@))
                    &&& exists|i: int|
                        0 <= i < inputs@.len() && !(#[trigger] input_outcome(
                            *fs,
                            *config,
                            inputs@,
                            strat,
                            no_copy,
                            i,
                        ) is Act)
                },
            }
        }),
        ({
            let strat = strategy_spec(strategy@)->Some_0;
            (strategy_spec(strategy@) is Some && exists|i: int|
                0 <= i < inputs@.len() && #[trigger] input_outcome(
                    *fs,
                    *config,
                    inputs@,
                    strat,
                    no_copy,
                    i,
                ) is Abort && (forall|j: int|
                    0 <= j < i ==> !(#[trigger] input_outcome(
                        *fs,
                        *config,
                        inputs@,
                        strat,
                        no_copy,
                        j,
                    ) is Hard))) ==> (r matches Err(SoukError::PluginAlreadyExists(_)))
        }),
        ({
            let strat = strategy_spec(strategy@)->Some_0;
            (strategy_spec(strategy@) is Some && (forall|i: int|
                0 <= i < inputs@.len() ==> !(#[trigger] input_outcome(
                    *fs,
                    *config,
                    inputs@,
                    strat,
                    no_copy,
                    i,
                ) is Hard) && !(input_outcome(*fs, *config, inputs@, strat, no_copy, i) is Abort))
                && (exists|i: int|
                0 <= i < inputs@.len() && #[trigger] input_outcome(
                    *fs,
                    *config,
                    inputs@,
                    strat,
                    no_copy,
                    i,
                ) is Fail)) ==> (r matches Err(SoukError::Other(_)))
        }),
        ({
            let strat = strategy_spec(strategy@)->Some_0;
            (strategy_spec(strategy@) is Some && (forall|i: int|
                0 <= i < inputs@.len() ==> !(#[trigger] input_outcome(
                    *fs,
                    *config,
                    inputs@,
                    strat,
                    no_copy,
                    i,
                ) is Hard) && !(input_outcome(*fs, *config, inputs@, strat, no_copy, i) is Abort))
                && (exists|i: int|
                0 <= i < inputs@.len() && #[trigger] input_outcome(
                    *fs,
                    *config,
                    inputs@,
                    strat,
                    no_copy,
                    i,
                ) is Fail)) ==> (r matches Err(SoukError::Other(m)) && (forall|i: int|
                0 <= i < inputs@.len() && #[trigger] input_outcome(
                    *fs,
                    *config,
                    inputs@,
                    strat,
                    no_copy,
                    i,
                ) is Fail ==> crate::hooks::contains_sub_spec(
                    m@,
                    fail_token(*fs, *config, inputs@, i),
                )))
        }),
        strategy_spec(strategy@) is None && inputs@.len() > 0 ==> r is Err,
{
    let strat = match parse_strategy(strategy) {
        Some(s) => s,
        None => {
            if inputs.len() > 0 {
                let mut msg = "Invalid conflict strategy: ".to_owned();
                msg.append(strategy);
                return Err(SoukError::Other(msg));
            } else {
                return Ok(AddPlan { actions: Vec::new() });
            }
        },
    };
    let ghost existing_spec = existing_names(*config);
    let existing = names_of(&config.marketplace);
    proof {
        assert(Seq::new(existing@.len(), |k: int| existing@[k]@) =~= existing_spec);
    }
    let n = inputs.len();
    let mut actions: Vec<AddAction> = Vec::new();
    let mut failure_msgs: Vec<String> = Vec::new();
    let mut i: usize = 0;
    while i < n
        invariant
            i <= n,
            n == inputs@.len(),
            Seq::new(existing@.len(), |k: int| existing@[k]@) == existing_spec,
            existing@.len() < usize::MAX - 2,
            forall|j: int|
                0 <= j < i ==> (#[trigger] input_outcome(
                    *fs,
                    *config,
                    inputs@,
                    strat,
                    no_copy,
                    j,
                ) is Act || input_outcome(*fs, *config, inputs@, strat, no_copy, j) is Fail),
            (failure_msgs@.len() > 0) == (exists|j: int|
                0 <= j < i && #[trigger] input_outcome(
                    *fs,
                    *config,
                    inputs@,
                    strat,
                    no_copy,
                    j,
                ) is Fail),
            forall|j: int|
                0 <= j < i && #[trigger] input_outcome(
                    *fs,
                    *config,
                    inputs@,
                    strat,
                    no_copy,
                    j,
                ) is Fail ==> exists|m: int|
                    #![trigger failure_msgs@[m]]
                    0 <= m < failure_msgs@.len() && crate::hooks::contains_sub_spec(
                        failure_msgs@[m]@,
                        fail_token(*fs, *config, inputs@, j),
                    ),
            failure_msgs@.len() == 0 ==> actions@.len() == i,
            forall|j: int| #![trigger actions@[j]] failure_msgs@.len() == 0 && 0 <= j < i
                ==> action_matches(
                actions@[j]@,
                input_outcome(*fs, *config, inputs@, strat, no_copy, j),
                existing_spec,
            ),
        decreases n - i,
    {
        let ghost o = input_outcome(*fs, *config, inputs@, strat, no_copy, i as int);
        let input = &inputs[i];
        let plugin_path = match resolve_plugin(fs, input.as_str(), Some(config)) {
            Ok(p) => p,
            Err(_) => {
                proof {
                    assert(o is Fail);
                }
                let mut msg = "Plugin not found: ".to_owned();
                msg.append(input.as_str());
                let ghost mv = msg@;
                let ghost fpre = failure_msgs@;
                failure_msgs.push(msg);
                proof {
                    assert(fail_token(*fs, *config, inputs@, i as int) == inputs@[i as int]@);
                    let lit = "Plugin not found: "@;
                    assert(mv.subrange(lit.len() as int, lit.len() + input@.len() as int)
                        =~= input@);
                    lemma_contains_at(mv, lit.len() as int, input@);
                    assert(failure_msgs@[fpre.len() as int]@ == mv);
                    assert forall|j: int|
                        0 <= j < i + 1 && #[trigger] input_outcome(
                            *fs,
                            *config,
                            inputs@,
                            strat,
                            no_copy,
                            j,
                        ) is Fail implies exists|m: int|
                            #![trigger failure_msgs@[m]]
                            0 <= m < failure_msgs@.len() && crate::hooks::contains_sub_spec(
                                failure_msgs@[m]@,
                                fail_token(*fs, *config, inputs@, j),
                            ) by {
                        if j < i {
                            let m = choose|m: int|
                                #![trigger fpre[m]]
                                0 <= m < fpre.len() && crate::hooks::contains_sub_spec(
                                    fpre[m]@,
                                    fail_token(*fs, *config, inputs@, j),
                                );
                            assert(failure_msgs@[m] == fpre[m]);
                        } else {
                            assert(crate::hooks::contains_sub_spec(
                                failure_msgs@[fpre.len() as int]@,
                                fail_token(*fs, *config, inputs@, j),
                            ));
                        }
                    }
                }
                i += 1;
                continue ;
            },
        };
        let pj = crate::paths::join(
            crate::paths::join(plugin_path.as_str(), ".plugin-meta").as_str(),
            "plugin.json",
        );
        proof {
            assert(pj@ == plugin_json_of(plugin_path@));
        }
        let content = match fs.read_file(pj.as_str()) {
            Some(c) => c,
            None => {
                proof {
                    hard_exit_facts(*fs, *config, inputs@, strat, no_copy, i as int);
                }
                let mut msg = "Cannot read plugin.json at ".to_owned();
                msg.append(pj.as_str());
                return Err(SoukError::Other(msg));
            },
        };
        let manifest = match crate::json::parse_json(content.as_str()) {
            Some(v) => match crate::types::extract_manifest(&v) {
                Some(mf) => mf,
                None => {
                    proof {
                        hard_exit_facts(*fs, *config, inputs@, strat, no_copy, i as int);
                    }
                    return Err(SoukError::Json(pj));
                },
            },
            None => {
                proof {
                    hard_exit_facts(*fs, *config, inputs@, strat, no_copy, i as int);
                }
                return Err(SoukError::Json(pj));
            },
        };
        let plugin_name = match manifest.name_str() {
            Some(nm) => nm.clone(),
            None => {
                proof {
                    hard_exit_facts(*fs, *config, inputs@, strat, no_copy, i as int);
                }
                let mut msg = "Plugin has no name in plugin.json: ".to_owned();
                msg.append(plugin_path.as_str());
                return Err(SoukError::Other(msg));
            },
        };
        let validation = crate::validation::validate_plugin(fs, plugin_path.as_str());
        if validation.has_errors() {
            proof {
                assert(o is Fail);
            }
            let mut msg = "Plugin validation failed: ".to_owned();
            msg.append(plugin_name.as_str());
            msg.append(" (");
            msg.append(plugin_path.as_str());
            msg.append(")");
            let ghost mv = msg@;
            let ghost fpre = failure_msgs@;
            failure_msgs.push(msg);
            proof {
                assert(fail_token(*fs, *config, inputs@, i as int) == plugin_path@);
                let off = "Plugin validation failed: "@.len() + plugin_name@.len()
                    + " ("@.len() as int;
                assert(mv.subrange(off, off + plugin_path@.len() as int) =~= plugin_path@);
                lemma_contains_at(mv, off, plugin_path@);
                assert(failure_msgs@[fpre.len() as int]@ == mv);
                assert forall|j: int|
                    0 <= j < i + 1 && #[trigger] input_outcome(
                        *fs,
                        *config,
                        inputs@,
                        strat,
                        no_copy,
                        j,
                    ) is Fail implies exists|m: int|
                        #![trigger failure_msgs@[m]]
                        0 <= m < failure_msgs@.len() && crate::hooks::contains_sub_spec(
                            failure_msgs@[m]@,
                            fail_token(*fs, *config, inputs@, j),
                        ) by {
                    if j < i {
                        let m = choose|m: int|
                            #![trigger fpre[m]]
                            0 <= m < fpre.len() && crate::hooks::contains_sub_spec(
                                fpre[m]@,
                                fail_token(*fs, *config, inputs@, j),
                            );
                        assert(failure_msgs@[m] == fpre[m]);
                    } else {
                        assert(crate::hooks::contains_sub_spec(
                            failure_msgs@[fpre.len() as int]@,
                            fail_token(*fs, *config, inputs@, j),
                        ));
                    }
                }
            }
            i += 1;
            continue ;
        }
        let (source, is_internal) = plugin_path_to_source(plugin_path.as_str(), config);
        let is_external = !is_internal;
        let final_source = if is_external && !no_copy {
            plugin_name.clone()
        } else {
            source
        };
        let conflict: Option<ConflictResolution> = if crate::fsm::contains_string(
            &existing,
            plugin_name.as_str(),
        ) {
            proof {
                let jw = choose|jw: int| 0 <= jw < existing@.len() && existing@[jw]@ == plugin_name@;
                assert(existing_spec[jw] == plugin_name@);
                assert(crate::remove::in_names(existing_spec, plugin_name@));
            }
            match strat {
                ConflictStrategy::Abort => {
                    proof {
                        assert(o == PlanOutcome::Abort(plugin_name@));
                    }
                    return Err(SoukError::PluginAlreadyExists(plugin_name));
                },
                ConflictStrategy::Skip => Some(ConflictResolution::Skip),
                ConflictStrategy::Replace => Some(ConflictResolution::Replace),
                ConflictStrategy::Rename => {
                    proof {
                        assert forall|x: Seq<char>| #[trigger] name_taken(x, existing@)
                            == crate::remove::in_names(existing_spec, x) by {
                            if name_taken(x, existing@) {
                                let j = choose|j: int|
                                    0 <= j < existing@.len() && existing@[j]@ == x;
                                assert(existing_spec[j] == x);
                            }
                            if crate::remove::in_names(existing_spec, x) {
                                let j = choose|j: int|
                                    0 <= j < existing_spec.len() && existing_spec[j] == x;
                                assert(existing@[j]@ == x);
                            }
                        }
                    }
                    let new_name = crate::version::generate_unique_name(
                        plugin_name.as_str(),
                        &existing,
                    );
                    proof {
                        assert(name_taken(plugin_name@, existing@));
                        let k = choose|k: nat|
                            2 <= k && new_name@ == suffixed_name(plugin_name@, k) && forall|j: nat|
                                2 <= j < k ==> name_taken(
                                    suffixed_name(plugin_name@, j),
                                    existing@,
                                );
                        assert(!crate::remove::in_names(existing_spec, new_name@));
                        assert forall|j: nat| 2 <= j < k implies crate::remove::in_names(
                            existing_spec,
                            suffixed_name(plugin_name@, j),
                        ) by {
                            assert(name_taken(suffixed_name(plugin_name@, j), existing@));
                        }
                        assert(2 <= k && new_name@ == suffixed_name(plugin_name@, k) && forall|
                            j: nat,
                        |
                            2 <= j < k ==> crate::remove::in_names(
                                existing_spec,
                                suffixed_name(plugin_name@, j),
                            ));
                    }
                    Some(ConflictResolution::Rename(new_name))
                },
            }
        } else {
            proof {
                if crate::remove::in_names(existing_spec, plugin_name@) {
                    let j = choose|j: int|
                        0 <= j < existing_spec.len() && existing_spec[j] == plugin_name@;
                    assert(existing@[j]@ == plugin_name@);
                }
            }
            None
        };
        let action = AddAction {
            plugin_path,
            plugin_name,
            source: final_source,
            is_external,
            conflict,
        };
        proof {
            assert(action_matches(action@, o, existing_spec));
        }
        actions.push(action);
        i += 1;
    }
    if failure_msgs.len() > 0 {
        let mut msg = "".to_owned();
        let fm = failure_msgs.len();
        let mut j: usize = 0;
        while j < fm
            invariant
                j <= fm,
                fm == failure_msgs@.len(),
                forall|m: int|
                    #![trigger failure_msgs@[m]]
                    0 <= m < j ==> crate::hooks::contains_sub_spec(msg@, failure_msgs@[m]@),
            decreases fm - j,
        {
            let ghost mpre = msg@;
            if j > 0 {
                msg.append("; ");
            }
            let ghost mmid = msg@;
            msg.append(failure_msgs[j].as_str());
            proof {
                assert(msg@ == mmid + failure_msgs@[j as int]@);
                assert(msg@.subrange(
                    mmid.len() as int,
                    mmid.len() + failure_msgs@[j as int]@.len() as int,
                ) =~= failure_msgs@[j as int]@);
                lemma_contains_at(msg@, mmid.len() as int, failure_msgs@[j as int]@);
                assert forall|m: int|
                    #![trigger failure_msgs@[m]]
                    0 <= m < j + 1 implies crate::hooks::contains_sub_spec(
                    msg@,
                    failure_msgs@[m]@,
                ) by {
                    if m < j {
                        lemma_contains_append(mpre, msg@.skip(mpre.len() as int), failure_msgs@[m]@);
                        assert(mpre + msg@.skip(mpre.len() as int) =~= msg@);
                    }
                }
            }
            j += 1;
        }
        proof {
            assert forall|iq: int|
                0 <= iq < inputs@.len() && #[trigger] input_outcome(
                    *fs,
                    *config,
                    inputs@,
                    strat,
                    no_copy,
                    iq,
                ) is Fail implies crate::hooks::contains_sub_spec(
                msg@,
                fail_token(*fs, *config, inputs@, iq),
            ) by {
                let m = choose|m: int|
                    #![trigger failure_msgs@[m]]
                    0 <= m < failure_msgs@.len() && crate::hooks::contains_sub_spec(
                        failure_msgs@[m]@,
                        fail_token(*fs, *config, inputs@, iq),
                    );
                lemma_contains_trans(msg@, failure_msgs@[m]@, fail_token(*fs, *config, inputs@, iq));
            }
        }
        return Err(SoukError::Other(msg));
    }
    proof {
        assert(actions@.len() == inputs@.len());
    }
    Ok(AddPlan { actions })
}

/// At a hard planning failure, no earlier input was a hard failure or an
/// abort, so nothing later is owed.
proof fn hard_exit_facts(
    fs: Fs,
    config: MarketplaceConfig,
    inputs: Seq<String>,
    strat: ConflictStrategy,
    no_copy: bool,
    i: int,
)
    requires
        0 <= i < inputs.len(),
        input_outcome(fs, config, inputs, strat, no_copy, i) is Hard,
        forall|j: int|
            0 <= j < i ==> (#[trigger] input_outcome(fs, config, inputs, strat, no_copy, j) is Act
                || input_outcome(fs, config, inputs, strat, no_copy, j) is Fail),
    ensures
        exists|j: int|
            0 <= j < inputs.len() && !(#[trigger] input_outcome(
                fs,
                config,
                inputs,
                strat,
                no_copy,
                j,
            ) is Act),
        !(exists|a: int|
            0 <= a < inputs.len() && #[trigger] input_outcome(
                fs,
                config,
                inputs,
                strat,
                no_copy,
                a,
            ) is Abort && (forall|j: int|
                0 <= j < a ==> !(#[trigger] input_outcome(
                    fs,
                    config,
                    inputs,
                    strat,
                    no_copy,
                    j,
                ) is Hard))),
        !(forall|j: int|
            0 <= j < inputs.len() ==> !(#[trigger] input_outcome(
                fs,
                config,
                inputs,
                strat,
                no_copy,
                j,
            ) is Hard) && !(input_outcome(fs, config, inputs, strat, no_copy, j) is Abort)),
{
    assert(!(input_outcome(fs, config, inputs, strat, no_copy, i) is Act));
    if exists|a: int|
        0 <= a < inputs.len() && #[trigger] input_outcome(
            fs,
            config,
            inputs,
            strat,
            no_copy,
            a,
        ) is Abort && (forall|j: int|
            0 <= j < a ==> !(#[trigger] input_outcome(fs, config, inputs, strat, no_copy, j)
                is Hard)) {
        let a = choose|a: int|
            0 <= a < inputs.len() && #[trigger] input_outcome(
                fs,
                config,
                inputs,
                strat,
                no_copy,
                a,
            ) is Abort && (forall|j: int|
                0 <= j < a ==> !(#[trigger] input_outcome(fs, config, inputs, strat, no_copy, j)
                    is Hard));
        if a < i {
            assert(input_outcome(fs, config, inputs, strat, no_copy, a) is Act || input_outcome(
                fs,
                config,
                inputs,
                strat,
                no_copy,
                a,
            ) is Fail);
        } else if a == i {
        } else {
            assert(!(input_outcome(fs, config, inputs, strat, no_copy, i) is Hard));
        }
    }
}

/// Whether an action takes part in execution.
pub open spec fn is_skipped(a: ActionView) -> bool {
    a.conflict == Some(ConflictView::Skip)
}

/// The name an action registers: the rename target when one was planned,
/// the plugin's own name otherwise.
pub open spec fn registered_name(a: ActionView) -> Seq<char> {
    match a.conflict {
        Some(ConflictView::Rename(n)) => n,
        _ => a.plugin_name,
    }
}

/// The names execution reports, in order, skipped entries left out.
pub open spec fn added_names(acts: Seq<ActionView>) -> Seq<Seq<char>>
    decreases acts.len(),
{
    if acts.len() == 0 {
        Seq::empty()
    } else if is_skipped(acts.last()) {
        added_names(acts.drop_last())
    } else {
        added_names(acts.drop_last()).push(registered_name(acts.last()))
    }
}

/// Whether execution copies this action's directory into the plugin root.
pub open spec fn copies_dir(a: ActionView) -> bool {
    !is_skipped(a) && a.is_external && !(a.source.len() >= 1 && a.source[0] == '/')
}

/// Where a copied action lands.
pub open spec fn copy_dst(a: ActionView, root: Seq<char>) -> Seq<char> {
    root + seq!['/'] + registered_name_or_source(a)
}

/// The directory name a copied action lands under: the rename target when
/// one was planned, the source otherwise.
pub open spec fn registered_name_or_source(a: ActionView) -> Seq<char> {
    match a.conflict {
        Some(ConflictView::Rename(n)) => n,
        _ => a.source,
    }
}

/// The file map after the copy phase.
pub open spec fn copy_fold_files(
    m: Map<Seq<char>, Seq<char>>,
    acts: Seq<ActionView>,
    root: Seq<char>,
) -> Map<Seq<char>, Seq<char>>
    decreases acts.len(),
{
    if acts.len() == 0 {
        m
    } else {
        let prev = copy_fold_files(m, acts.drop_last(), root);
        let a = acts.last();
        if copies_dir(a) {
            prev.remove_keys(under_set(copy_dst(a, root))).union_prefer_right(
                copied_files(prev, a.plugin_path, copy_dst(a, root)),
            )
        } else {
            prev
        }
    }
}

/// The directory set after the copy phase.
pub open spec fn copy_fold_dirs(
    d: Set<Seq<char>>,
    acts: Seq<ActionView>,
    root: Seq<char>,
) -> Set<Seq<char>>
    decreases acts.len(),
{
    if acts.len() == 0 {
        d
    } else {
        let prev = copy_fold_dirs(d, acts.drop_last(), root);
        let a = acts.last();
        if copies_dir(a) {
            prev.difference(under_set(copy_dst(a, root))).union(
                copied_dirs(prev, a.plugin_path, copy_dst(a, root)),
            ).insert(copy_dst(a, root))
        } else {
            prev
        }
    }
}

/// The copy phase only touches keys below the plugin root.
pub proof fn lemma_copy_fold_preserves(
    m: Map<Seq<char>, Seq<char>>,
    d: Set<Seq<char>>,
    acts: Seq<ActionView>,
    root: Seq<char>,
    k: Seq<char>,
)
    requires
        !under(k, root),
    ensures
        copy_fold_files(m, acts, root).contains_key(k) == m.contains_key(k),
        m.contains_key(k) ==> copy_fold_files(m, acts, root)[k] == m[k],
    decreases acts.len(),
{
    if acts.len() > 0 {
        lemma_copy_fold_preserves(m, d, acts.drop_last(), root, k);
        let a = acts.last();
        if copies_dir(a) {
            if under(k, copy_dst(a, root)) {
                assert(under(copy_dst(a, root), root)) by {
                    assert(copy_dst(a, root)[root.len() as int] == '/');
                    assert(copy_dst(a, root).subrange(0, root.len() as int) =~= root);
                }
                crate::paths::lemma_under_trans(k, copy_dst(a, root), root);
            }
        }
    }
}

/// The keyword list of the plugin manifest at `path` in file map `m`, when
/// the manifest is there and parses.
pub open spec fn tags_at(m: Map<Seq<char>, Seq<char>>, path: Seq<char>) -> Option<Seq<Seq<char>>> {
    if m.contains_key(plugin_json_of(path)) {
        match crate::json::json_parse(m[plugin_json_of(path)]) {
            Some(v) => match crate::types::manifest_of_json(v) {
                Some(mf) => Some(mf.keywords),
                None => None,
            },
            None => None,
        }
    } else {
        None
    }
}

/// One action's effect on the entry list: a replace removes the old
/// same-named entry first; a renamed entry registers the new name as both
/// name and source; tags come from the plugin's live manifest.
pub open spec fn apply_action(
    ps: Seq<EntryView>,
    a: ActionView,
    tags: Seq<Seq<char>>,
) -> Seq<EntryView> {
    match a.conflict {
        Some(ConflictView::Skip) => ps,
        Some(ConflictView::Replace) => crate::remove::without_names(
            ps,
            seq![a.plugin_name],
        ).push(EntryView { name: a.plugin_name, source: a.source, tags }),
        Some(ConflictView::Rename(n)) => ps.push(EntryView { name: n, source: n, tags }),
        None => ps.push(EntryView { name: a.plugin_name, source: a.source, tags }),
    }
}

/// The entry list after applying every action in order, with tags read from
/// the post-copy filesystem.
pub open spec fn apply_actions(
    ps: Seq<EntryView>,
    acts: Seq<ActionView>,
    m: Map<Seq<char>, Seq<char>>,
) -> Seq<EntryView>
    decreases acts.len(),
{
    if acts.len() == 0 {
        ps
    } else {
        let prev = apply_actions(ps, acts.drop_last(), m);
        if is_skipped(acts.last()) {
            prev
        } else {
            apply_action(prev, acts.last(), tags_at(m, acts.last().plugin_path)->Some_0)
        }
    }
}

/// The document the manifest holds after a successful add.
pub open spec fn added_doc(
    d: MarketView,
    acts: Seq<ActionView>,
    m: Map<Seq<char>, Seq<char>>,
) -> MarketView {
    MarketView {
        version: bump_patch_spec(semver_triple(d.version)->Some_0),
        plugin_root: d.plugin_root,
        plugins: apply_actions(d.plugins, acts, m),
    }
}

/// With nothing effective, nothing is reported.
proof fn lemma_added_names_all_skipped(acts: Seq<ActionView>)
    requires
        forall|i: int| 0 <= i < acts.len() ==> is_skipped(#[trigger] acts[i]),
    ensures
        added_names(acts) == Seq::<Seq<char>>::empty(),
    decreases acts.len(),
{
    if acts.len() > 0 {
        lemma_added_names_all_skipped(acts.drop_last());
    }
}

/// Whether the copy phase hits a pre-existing target that is not a replace:
/// the hard error that stops execution before the manifest is touched, with
/// every earlier copy already applied.
pub open spec fn copy_conflict(
    m0: Map<Seq<char>, Seq<char>>,
    d0: Set<Seq<char>>,
    acts: Seq<ActionView>,
    root: Seq<char>,
) -> bool
    decreases acts.len(),
{
    if acts.len() == 0 {
        false
    } else {
        ||| copy_conflict(m0, d0, acts.drop_last(), root)
        ||| {
            let a = acts.last();
            let pm = copy_fold_files(m0, acts.drop_last(), root);
            let pd = copy_fold_dirs(d0, acts.drop_last(), root);
            copies_dir(a) && (pd.contains(copy_dst(a, root)) || pm.contains_key(
                copy_dst(a, root),
            )) && !(a.conflict == Some(ConflictView::Replace))
        }
    }
}

/// A conflict in a prefix is a conflict of the whole plan.
proof fn lemma_copy_conflict_extend(
    m0: Map<Seq<char>, Seq<char>>,
    d0: Set<Seq<char>>,
    acts: Seq<ActionView>,
    root: Seq<char>,
    k: int,
)
    requires
        0 <= k <= acts.len(),
        copy_conflict(m0, d0, acts.subrange(0, k), root),
    ensures
        copy_conflict(m0, d0, acts, root),
    decreases acts.len() - k,
{
    if k < acts.len() {
        assert(acts.subrange(0, k + 1).drop_last() =~= acts.subrange(0, k));
        lemma_copy_conflict_extend(m0, d0, acts, root, k + 1);
    } else {
        assert(acts.subrange(0, k) =~= acts);
    }
}

pub open spec fn any_effective(acts: Seq<ActionView>) -> bool {
    exists|i: int| 0 <= i < acts.len() && !is_skipped(#[trigger] acts[i])
}

pub open spec fn plan_views(p: AddPlan) -> Seq<ActionView> {
    Seq::new(p.actions@.len(), |i: int| p.actions@[i]@)
}

/// Executes an add plan.
///
/// With `dry_run` set, nothing is touched and the names that would be
/// registered — rename targets included — are reported. Otherwise external
/// plugins are copied under the plugin root first; only then is the manifest
/// re-read, extended by the planned entries with their live keywords, patch
/// version bumped, and written back under a guard. The write survives exactly
/// when the new registry state passes validation; completed copies survive a
/// rollback.
#[verifier::loop_isolation(false)]
#[verifier::rlimit(100)]
pub fn execute_add(
    fs: &mut Fs,
    plan: &AddPlan,
    config: &MarketplaceConfig,
    dry_run: bool,
    now_secs: u64,
) -> (r: Result<Vec<String>, SoukError>)
    requires
        old(fs).wf(),
        !under(config.marketplace_path@, config.plugin_root_abs@),
    ensures
        final(fs).wf(),
        ({
            let m0 = old(fs).file_map();
            let d0 = old(fs).dir_set();
            let mp = config.marketplace_path@;
            let root = config.plugin_root_abs@;
            let bak = backup_name(mp, now_secs);
            let acts = plan_views(*plan);
            &&& (r is Ok ==> crate::remove::name_views(r->Ok_0@) == added_names(acts))
            &&& (!any_effective(acts) ==> r is Ok && *final(fs) == *old(fs))
            &&& (dry_run ==> r is Ok && *final(fs) == *old(fs))
            &&& (!dry_run && any_effective(acts) ==> {
                let m1 = copy_fold_files(m0, acts, root);
                let d1 = copy_fold_dirs(d0, acts, root);
                match r {
                    Ok(_) => {
                        let d = crate::config::doc_at(m1, mp)->Some_0;
                        &&& crate::config::doc_at(m1, mp) is Some
                        &&& final(fs).file_map() == m1.insert(
                            mp,
                            market_file_text(added_doc(d, acts, m1)),
                        ).remove(bak)
                        &&& final(fs).dir_set() == d1
                    },
                    Err(_) => {
                        &&& final(fs).file_map().contains_key(mp) == m0.contains_key(mp)
                        &&& (m0.contains_key(mp) ==> final(fs).file_map()[mp] == m0[mp])
                    },
                }
            })
            &&& (!dry_run && any_effective(acts) && copy_conflict(m0, d0, acts, root) ==> r
                matches Err(SoukError::Other(_)))
            &&& (!dry_run && any_effective(acts) && !copy_conflict(m0, d0, acts, root) ==> {
                let m1 = copy_fold_files(m0, acts, root);
                let d = crate::config::doc_at(m1, mp)->Some_0;
                (
                crate::config::doc_at(m1, mp) is Some && (semver_triple(d.version) matches Some(t)
                    && t.2 < u64::MAX) && (forall|i: int|
                    #![trigger acts[i]]
                    0 <= i < acts.len() && !is_skipped(acts[i]) ==> tags_at(
                        m1,
                        acts[i].plugin_path,
                    ) is Some) && !crate::validation::registry_errors(
                    m1,
                    copy_fold_dirs(d0, acts, root),
                    config.project_root@,
                    root,
                    added_doc(d, acts, m1),
                    true,
                )) ==> r is Ok
            })
            &&& (!dry_run && any_effective(acts) && !copy_conflict(m0, d0, acts, root) ==> {
                let m1 = copy_fold_files(m0, acts, root);
                let d = crate::config::doc_at(m1, mp)->Some_0;
                (
                crate::config::doc_at(m1, mp) is Some && (semver_triple(d.version) matches Some(t)
                    && t.2 < u64::MAX) && (forall|i: int|
                    #![trigger acts[i]]
                    0 <= i < acts.len() && !is_skipped(acts[i]) ==> tags_at(
                        m1,
                        acts[i].plugin_path,
                    ) is Some) && crate::validation::registry_errors(
                    m1,
                    copy_fold_dirs(d0, acts, root),
                    config.project_root@,
                    root,
                    added_doc(d, acts, m1),
                    true,
                )) ==> (r matches Err(SoukError::AtomicRollback(_)))
            })
            &&& (!dry_run && any_effective(acts) && (r matches Err(SoukError::AtomicRollback(_)))
                ==> {
                let m1 = copy_fold_files(m0, acts, root);
                &&& (m0.contains_key(mp) ==> !final(fs).file_map().contains_key(bak))
                &&& (forall|k: Seq<char>|
                    k != mp && k != bak ==> #[trigger] final(fs).file_map().contains_key(k)
                        == m1.contains_key(k) && (m1.contains_key(k) ==> final(fs).file_map()[k]
                        == m1[k]))
                &&& final(fs).dir_set() == copy_fold_dirs(d0, acts, root)
            })
        }),
{
    let ghost m0 = fs.file_map();
    let ghost d0 = fs.dir_set();
    let ghost acts = plan_views(*plan);
    let ghost root = config.plugin_root_abs@;
    let n = plan.actions.len();

    // Nothing effective: report nothing, touch nothing.
    let mut effective: usize = 0;
    let mut i: usize = 0;
    while i < n
        invariant
            i <= n,
            n == plan.actions@.len(),
            effective <= i,
            (effective > 0) == any_effective(acts.subrange(0, i as int)),
        decreases n - i,
    {
        proof {
            assert(acts.subrange(0, i as int + 1).drop_last() =~= acts.subrange(0, i as int));
        }
        let skip = matches!(plan.actions[i].conflict, Some(ConflictResolution::Skip));
        proof {
            assert(acts.subrange(0, i as int + 1).last() == acts[i as int]);
            if !skip {
                assert(!is_skipped(acts[i as int]));
                assert(any_effective(acts.subrange(0, i as int + 1)));
            } else {
                if any_effective(acts.subrange(0, i as int + 1)) && !any_effective(
                    acts.subrange(0, i as int),
                ) {
                    let j = choose|j: int|
                        0 <= j < i + 1 && !is_skipped(
                            #[trigger] acts.subrange(0, i as int + 1)[j],
                        );
                    assert(acts.subrange(0, i as int)[j] == acts[j]);
                }
            }
        }
        if !skip {
            effective = effective + 1;
        }
        i += 1;
    }
    proof {
        assert(acts.subrange(0, n as int) =~= acts);
    }

    // The names execution would register, rename targets included.
    let mut names: Vec<String> = Vec::new();
    let mut i: usize = 0;
    while i < n
        invariant
            i <= n,
            n == plan.actions@.len(),
            crate::remove::name_views(names@) == added_names(acts.subrange(0, i as int)),
        decreases n - i,
    {
        proof {
            assert(acts.subrange(0, i as int + 1).drop_last() =~= acts.subrange(0, i as int));
            assert(acts.subrange(0, i as int + 1).last() == acts[i as int]);
        }
        let ghost namespre = names@;
        match &plan.actions[i].conflict {
            Some(ConflictResolution::Skip) => {},
            Some(ConflictResolution::Rename(new_name)) => {
                names.push(new_name.clone());
                proof {
                    assert(crate::remove::name_views(names@) =~= crate::remove::name_views(
                        namespre,
                    ).push(registered_name(acts[i as int])));
                }
            },
            _ => {
                names.push(plan.actions[i].plugin_name.clone());
                proof {
                    assert(crate::remove::name_views(names@) =~= crate::remove::name_views(
                        namespre,
                    ).push(registered_name(acts[i as int])));
                }
            },
        }
        proof {
            assert(crate::remove::name_views(names@) =~= added_names(
                acts.subrange(0, i as int + 1),
            ));
        }
        i += 1;
    }
    proof {
        assert(acts.subrange(0, n as int) =~= acts);
    }

    if effective == 0 {
        proof {
            assert forall|j: int| 0 <= j < acts.len() implies is_skipped(#[trigger] acts[j]) by {
                if !is_skipped(acts[j]) {
                    assert(any_effective(acts));
                }
            }
            lemma_added_names_all_skipped(acts);
            assert(crate::remove::name_views(Seq::<String>::empty()) =~= Seq::<Seq<char>>::empty());
        }
        return Ok(Vec::new());
    }
    if dry_run {
        return Ok(names);
    }

    // Copy phase: land external plugins under the plugin root.
    let mut i: usize = 0;
    while i < n
        invariant
            i <= n,
            n == plan.actions@.len(),
            fs.wf(),
            fs.file_map() == copy_fold_files(m0, acts.subrange(0, i as int), root),
            fs.dir_set() == copy_fold_dirs(d0, acts.subrange(0, i as int), root),
            !copy_conflict(m0, d0, acts.subrange(0, i as int), root),
            fs.file_map().contains_key(config.marketplace_path@) == m0.contains_key(
                config.marketplace_path@,
            ),
            m0.contains_key(config.marketplace_path@) ==> fs.file_map()[config.marketplace_path@]
                == m0[config.marketplace_path@],
        decreases n - i,
    {
        proof {
            assert(acts.subrange(0, i as int + 1).drop_last() =~= acts.subrange(0, i as int));
            assert(acts.subrange(0, i as int + 1).last() == acts[i as int]);
        }
        let action = &plan.actions[i];
        let skip = matches!(action.conflict, Some(ConflictResolution::Skip));
        let absolute = action.source.as_str().unicode_len() >= 1 && action.source.as_str().get_char(
            0,
        ) == '/';
        if !skip && action.is_external && !absolute {
            let target_name: &String = match &action.conflict {
                Some(ConflictResolution::Rename(new_name)) => new_name,
                _ => &action.source,
            };
            let target_dir = crate::paths::join(
                config.plugin_root_abs.as_str(),
                target_name.as_str(),
            );
            let replace = matches!(action.conflict, Some(ConflictResolution::Replace));
            let exists = fs.has_dir(target_dir.as_str()) || fs.has_file(target_dir.as_str());
            if exists && !replace {
                proof {
                    assert(acts.subrange(0, i as int + 1).last() == acts[i as int]);
                    assert(copy_conflict(m0, d0, acts.subrange(0, i as int + 1), root));
                    lemma_copy_conflict_extend(m0, d0, acts, root, i as int + 1);
                }
                let mut msg = "Target directory already exists: ".to_owned();
                msg.append(target_dir.as_str());
                return Err(SoukError::Other(msg));
            }
            proof {
                assert(!copy_conflict(m0, d0, acts.subrange(0, i as int + 1), root));
            }
            proof {
                assert(target_dir@ == copy_dst(acts[i as int], root));
            }
            fs.copy_tree(action.plugin_path.as_str(), target_dir.as_str());
            proof {
                assert(fs.file_map() =~= copy_fold_files(
                    m0,
                    acts.subrange(0, i as int + 1),
                    root,
                ));
                assert(fs.dir_set() =~= copy_fold_dirs(d0, acts.subrange(0, i as int + 1), root));
                lemma_copy_fold_preserves(
                    m0,
                    d0,
                    acts.subrange(0, i as int + 1),
                    root,
                    config.marketplace_path@,
                );
            }
        } else {
            proof {
                assert(!copies_dir(acts[i as int]));
                assert(acts.subrange(0, i as int + 1).drop_last() =~= acts.subrange(0, i as int));
                assert(!copy_conflict(m0, d0, acts.subrange(0, i as int + 1), root));
            }
        }
        i += 1;
    }
    proof {
        assert(acts.subrange(0, n as int) =~= acts);
    }
    let ghost m1 = fs.file_map();
    let ghost d1 = fs.dir_set();
    proof {
        lemma_copy_fold_preserves(m0, d0, acts, root, config.marketplace_path@);
    }

    // Guarded manifest mutation.
    let mp_path = config.marketplace_path.as_str();
    let guard = AtomicGuard::new(fs, mp_path, now_secs);
    proof {
        crate::guard::lemma_backup_name_differs(mp_path@, now_secs);
    }
    let doc = match crate::config::load_marketplace_doc(fs, mp_path) {
        Ok(doc) => doc,
        Err(e) => {
            proof {
                assert(crate::config::doc_at(fs.file_map(), mp_path@) == crate::config::doc_at(
                    m1,
                    mp_path@,
                ));
            }
            guard.release(fs);
            proof {
                assert(fs.file_map().contains_key(mp_path@) == m0.contains_key(mp_path@));
                if m0.contains_key(mp_path@) {
                    assert(fs.file_map()[mp_path@] == m0[mp_path@]);
                    assert(!fs.file_map().contains_key(backup_name(mp_path@, now_secs)));
                }
            }
            return Err(e);
        },
    };
    proof {
        assert(crate::config::doc_at(m1, mp_path@) == Some(doc@));
    }

    let mut working = doc.plugins;
    let mut i: usize = 0;
    while i < n
        invariant
            i <= n,
            n == plan.actions@.len(),
            fs.wf(),
            m1.contains_key(mp_path@) ==> fs.file_map() == m1.insert(
                backup_name(mp_path@, now_secs),
                m1[mp_path@],
            ),
            !m1.contains_key(mp_path@) ==> fs.file_map() == m1,
            fs.dir_set() == d1,
            Seq::new(working@.len(), |k: int| working@[k]@) == apply_actions(
                doc@.plugins,
                acts.subrange(0, i as int),
                m1,
            ),
        decreases n - i,
    {
        proof {
            assert(acts.subrange(0, i as int + 1).drop_last() =~= acts.subrange(0, i as int));
            assert(acts.subrange(0, i as int + 1).last() == acts[i as int]);
        }
        let ghost prev = Seq::new(working@.len(), |k: int| working@[k]@);
        let action = &plan.actions[i];
        if matches!(action.conflict, Some(ConflictResolution::Skip)) {
            i += 1;
            continue ;
        }
        // A replace takes the old same-named entry out first.
        if matches!(action.conflict, Some(ConflictResolution::Replace)) {
            let mut kept: Vec<PluginEntry> = Vec::new();
            let mut rest = working;
            while rest.len() > 0
                invariant
                    crate::remove::without_names(prev, seq![acts[i as int].plugin_name])
                        =~= Seq::new(kept@.len(), |k: int| kept@[k]@)
                        + crate::remove::without_names(
                        Seq::new(rest@.len(), |k: int| rest@[k]@),
                        seq![acts[i as int].plugin_name],
                    ),
                decreases rest@.len(),
            {
                let ghost restpre = rest@;
                let ghost keptpre = kept@;
                let e = rest.remove(0);
                proof {
                    assert(Seq::new(restpre.len(), |k: int| restpre[k]@).drop_first()
                        =~= Seq::new(rest@.len(), |k: int| rest@[k]@));
                }
                let matches_name = crate::paths::str_eq(
                    e.name.as_str(),
                    action.plugin_name.as_str(),
                );
                proof {
                    assert(crate::remove::in_names(
                        seq![acts[i as int].plugin_name],
                        e.name@,
                    ) == matches_name) by {
                        if crate::remove::in_names(seq![acts[i as int].plugin_name], e.name@) {
                            assert(seq![acts[i as int].plugin_name][0] == e.name@);
                        }
                        if matches_name {
                            assert(seq![acts[i as int].plugin_name][0] == e.name@);
                        }
                    }
                    crate::remove::lemma_without_names_first_pub(
                        Seq::new(restpre.len(), |k: int| restpre[k]@),
                        seq![acts[i as int].plugin_name],
                        matches_name,
                    );
                }
                if !matches_name {
                    kept.push(e);
                    proof {
                        assert(Seq::new(kept@.len(), |k: int| kept@[k]@) =~= Seq::new(
                            keptpre.len(),
                            |k: int| keptpre[k]@,
                        ).push(kept@.last()@));
                    }
                }
            }
            proof {
                assert(Seq::new(rest@.len(), |k: int| rest@[k]@) =~= Seq::<EntryView>::empty());
                assert(crate::remove::without_names(prev, seq![acts[i as int].plugin_name])
                    =~= Seq::new(kept@.len(), |k: int| kept@[k]@));
            }
            working = kept;
        }
        // Read the plugin's live keywords.
        let pj = crate::paths::join(
            crate::paths::join(action.plugin_path.as_str(), ".plugin-meta").as_str(),
            "plugin.json",
        );
        proof {
            assert(pj@ == plugin_json_of(action.plugin_path@));
            let bakp = backup_name(mp_path@, now_secs);
            crate::strnum::lemma_dec_digits(now_secs as nat);
            assert(bakp.last() == crate::strnum::dec_spec(now_secs as nat).last());
            assert(crate::strnum::is_digit_char(bakp.last()));
            assert(pj@.last() == 'n') by {
                reveal_strlit("plugin.json");
            }
            assert(pj@ != bakp);
            assert(fs.file_map().contains_key(pj@) == m1.contains_key(pj@));
            if m1.contains_key(pj@) {
                assert(fs.file_map()[pj@] == m1[pj@]);
            }
        }
        let content = match fs.read_file(pj.as_str()) {
            Some(c) => c,
            None => {
                proof {
                    assert(tags_at(m1, acts[i as int].plugin_path) is None);
                    assert(!is_skipped(acts[i as int]));
                }
                let mut msg = "Cannot read plugin.json at ".to_owned();
                msg.append(pj.as_str());
                guard.release(fs);
            proof {
                assert(fs.file_map().contains_key(mp_path@) == m0.contains_key(mp_path@));
                if m0.contains_key(mp_path@) {
                    assert(fs.file_map()[mp_path@] == m0[mp_path@]);
                    assert(!fs.file_map().contains_key(backup_name(mp_path@, now_secs)));
                }
            }
                return Err(SoukError::Other(msg));
            },
        };
        let manifest = match crate::json::parse_json(content.as_str()) {
            Some(v) => match crate::types::extract_manifest(&v) {
                Some(mf) => mf,
                None => {
                proof {
                    assert(tags_at(m1, acts[i as int].plugin_path) is None);
                    assert(!is_skipped(acts[i as int]));
                }
                    guard.release(fs);
            proof {
                assert(fs.file_map().contains_key(mp_path@) == m0.contains_key(mp_path@));
                if m0.contains_key(mp_path@) {
                    assert(fs.file_map()[mp_path@] == m0[mp_path@]);
                    assert(!fs.file_map().contains_key(backup_name(mp_path@, now_secs)));
                }
            }
                    return Err(SoukError::Json(pj));
                },
            },
            None => {
                proof {
                    assert(tags_at(m1, acts[i as int].plugin_path) is None);
                    assert(!is_skipped(acts[i as int]));
                }
                guard.release(fs);
            proof {
                assert(fs.file_map().contains_key(mp_path@) == m0.contains_key(mp_path@));
                if m0.contains_key(mp_path@) {
                    assert(fs.file_map()[mp_path@] == m0[mp_path@]);
                    assert(!fs.file_map().contains_key(backup_name(mp_path@, now_secs)));
                }
            }
                return Err(SoukError::Json(pj));
            },
        };
        let tags = manifest.keywords;
        let ghost working_mid = Seq::new(working@.len(), |k: int| working@[k]@);
        let (final_name, final_source): (String, String) = match &action.conflict {
            Some(ConflictResolution::Rename(new_name)) => (new_name.clone(), new_name.clone()),
            _ => (action.plugin_name.clone(), action.source.clone()),
        };
        working.push(PluginEntry { name: final_name, source: final_source, tags });
        proof {
            assert(tags_at(m1, acts[i as int].plugin_path) == Some(
                Seq::new(manifest.keywords@.len(), |k: int| manifest.keywords@[k]@),
            ));
            assert(Seq::new(working@.len(), |k: int| working@[k]@) =~= working_mid.push(
                working@.last()@,
            ));
            assert(Seq::new(working@.len(), |k: int| working@[k]@) =~= apply_actions(
                doc@.plugins,
                acts.subrange(0, i as int + 1),
                m1,
            ));
        }
        i += 1;
    }
    proof {
        assert(acts.subrange(0, n as int) =~= acts);
    }

    let new_version = match crate::version::bump_patch(doc.version.as_str()) {
        Ok(v) => v,
        Err(_) => {
            proof {
                assert(!(semver_triple(doc@.version) matches Some(t) && t.2 < u64::MAX));
            }
            guard.release(fs);
            proof {
                assert(fs.file_map().contains_key(mp_path@) == m0.contains_key(mp_path@));
                if m0.contains_key(mp_path@) {
                    assert(fs.file_map()[mp_path@] == m0[mp_path@]);
                    assert(!fs.file_map().contains_key(backup_name(mp_path@, now_secs)));
                }
            }
            return Err(SoukError::Semver(doc.version.clone()));
        },
    };
    let newdoc = Marketplace {
        version: new_version,
        plugin_root: doc.plugin_root,
        plugins: working,
    };
    proof {
        assert(newdoc@ =~= added_doc(doc@, acts, m1));
    }
    let content = crate::types::render_marketplace_file(&newdoc);
    fs.write_file(mp_path, content);

    let check_config = MarketplaceConfig {
        marketplace_path: config.marketplace_path.clone(),
        project_root: config.project_root.clone(),
        plugin_root_abs: config.plugin_root_abs.clone(),
        marketplace: newdoc,
    };
    let validation = crate::validation::validate_marketplace(fs, &check_config, true);
    proof {
        assert(crate::validation::registry_errors(
            fs.file_map(),
            fs.dir_set(),
            config.project_root@,
            root,
            added_doc(doc@, acts, m1),
            true,
        ) == crate::validation::registry_errors(
            m1,
            copy_fold_dirs(d0, acts, root),
            config.project_root@,
            root,
            added_doc(doc@, acts, m1),
            true,
        ));
    }
    if validation.has_errors() {
        guard.release(fs);
        proof {
            assert(fs.file_map().contains_key(mp_path@) == m0.contains_key(mp_path@));
            if m0.contains_key(mp_path@) {
                assert(fs.file_map()[mp_path@] == m0[mp_path@]);
                assert(!fs.file_map().contains_key(backup_name(mp_path@, now_secs)));
            }
            assert forall|k: Seq<char>|
                k != mp_path@ && k != backup_name(mp_path@, now_secs) implies
                #[trigger] fs.file_map().contains_key(k) == m1.contains_key(k) && (
            m1.contains_key(k) ==> fs.file_map()[k] == m1[k]) by {}
            assert(fs.dir_set() == copy_fold_dirs(d0, acts, root));
        }
        return Err(SoukError::AtomicRollback("Final validation failed after add".to_owned()));
    }
    guard.commit(fs);
    proof {
        assert(fs.file_map() =~= m1.insert(
            mp_path@,
            market_file_text(added_doc(doc@, acts, m1)),
        ).remove(backup_name(mp_path@, now_secs)));
    }
    Ok(names)
}

} // verus!
