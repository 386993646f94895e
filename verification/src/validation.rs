//! The validator: plugin directories, dependency declarations and the whole
//! registry. Produces ordered diagnostics; a result is failing exactly when
//! it holds an error-severity entry, and warnings never block a mutation.
//!
//! Plugin-level validation has an exact specification: the returned
//! diagnostics equal [`plugin_diags`]. Registry-level validation is specified
//! by when it fails: its result holds an error exactly when
//! [`registry_errors`] says so.

use vstd::prelude::*;

use crate::errors::{
    lemma_some_error_concat, some_error, DiagView, Severity, ValidationDiagnostic,
    ValidationResult,
};
use crate::fsm::{is_child_name, Fs};
use crate::json::{json_parse, Json};
use crate::types::{
    extract_manifest, manifest_of_json, obj_lookup, ManifestView,
};
use crate::version::semver_triple;
use crate::version_constraint::{constraint_ok, is_valid_version_constraint};

verus! {

/// The plugin metadata directory under a plugin directory.
pub open spec fn meta_dir_of(p: Seq<char>) -> Seq<char> {
    p + seq!['/'] + ".plugin-meta"@
}

/// The per-plugin manifest path under a plugin directory.
pub open spec fn plugin_json_of(p: Seq<char>) -> Seq<char> {
    meta_dir_of(p) + seq!['/'] + "plugin.json"@
}

/// The dependency declaration path under a plugin directory.
pub open spec fn extends_json_of(p: Seq<char>) -> Seq<char> {
    meta_dir_of(p) + seq!['/'] + "extends-plugin.json"@
}

pub open spec fn err_with_path(message: Seq<char>, path: Seq<char>) -> DiagView {
    DiagView { severity: Severity::Error, message, path: Some(path), field: None }
}

pub open spec fn err_with_field(message: Seq<char>, path: Seq<char>, field: Seq<char>) -> DiagView {
    DiagView { severity: Severity::Error, message, path: Some(path), field: Some(field) }
}

/// The diagnostics of the three required manifest fields and the version
/// format check: one error for each missing-or-non-string field, and a format
/// error only when a version text is present but not a semantic version.
pub open spec fn field_diags(mf: ManifestView, pj: Seq<char>) -> Seq<DiagView> {
    (if mf.name is None {
        seq![err_with_field("Missing or null required field: name"@, pj, "name"@)]
    } else {
        Seq::empty()
    }) + (if mf.version is None {
        seq![err_with_field("Missing or null required field: version"@, pj, "version"@)]
    } else {
        Seq::empty()
    }) + (if mf.description is None {
        seq![err_with_field("Missing or null required field: description"@, pj, "description"@)]
    } else {
        Seq::empty()
    }) + (match mf.version {
        Some(v) => if semver_triple(v) is None {
            seq![err_with_field("Invalid semver version: "@ + v, pj, "version"@)]
        } else {
            Seq::empty()
        },
        None => Seq::empty(),
    })
}

/// What validating a plugin directory reports, exactly, given the filesystem.
pub open spec fn plugin_diags(
    files: Map<Seq<char>, Seq<char>>,
    dirs: Set<Seq<char>>,
    p: Seq<char>,
) -> Seq<DiagView> {
    if !dirs.contains(p) {
        seq![err_with_path("Plugin path does not exist or is not a directory: "@ + p, p)]
    } else if !dirs.contains(meta_dir_of(p)) {
        seq![err_with_path("Missing .plugin-meta directory"@, p)]
    } else if !files.contains_key(plugin_json_of(p)) {
        seq![err_with_path("Missing plugin.json"@, meta_dir_of(p))]
    } else {
        match json_parse(files[plugin_json_of(p)]) {
            Some(v) => match manifest_of_json(v) {
                Some(mf) => field_diags(mf, plugin_json_of(p)) + extends_diags(files, p),
                None => seq![err_with_path("Invalid JSON in plugin.json"@, plugin_json_of(p))],
            },
            None => seq![err_with_path("Invalid JSON in plugin.json"@, plugin_json_of(p))],
        }
    }
}

/// An allowed dependency section name.
pub open spec fn allowed_key(k: Seq<char>) -> bool {
    k == "dependencies"@ || k == "optionalDependencies"@ || k == "systemDependencies"@ || k
        == "optionalSystemDependencies"@
}

/// One error per top-level key outside the allowed set, in order.
pub open spec fn key_diags(fields: Seq<(String, Json)>, ep: Seq<char>) -> Seq<DiagView>
    decreases fields.len(),
{
    if fields.len() == 0 {
        Seq::empty()
    } else {
        key_diags(fields.drop_last(), ep) + (if allowed_key(fields.last().0@) {
            Seq::<DiagView>::empty()
        } else {
            seq![
                err_with_field(
                    "Invalid key in extends-plugin.json: "@ + fields.last().0@,
                    ep,
                    fields.last().0@,
                ),
            ]
        })
    }
}

/// The constraint text a dependency value declares: a string is taken as is;
/// an object declares its `version` string, defaulting to `*`; anything else
/// declares nothing.
pub open spec fn extract_version_spec(v: Json) -> Option<Seq<char>> {
    match v {
        Json::Str(s) => Some(s@),
        Json::Obj(fields) => match obj_lookup(fields@, crate::types::k_version()) {
            Some(Json::Str(s)) => Some(s@),
            _ => Some("*"@),
        },
        _ => None,
    }
}

/// The display name of a JSON value's type.
pub open spec fn type_name_spec(v: Json) -> Seq<char> {
    match v {
        Json::Arr(_) => "array"@,
        Json::Bool(_) => "boolean"@,
        Json::Num(_) => "number"@,
        Json::Str(_) => "string"@,
        Json::Null => "null"@,
        Json::Obj(_) => "object"@,
    }
}

/// The diagnostics of the dependencies of one section, in order.
pub open spec fn dep_diags(
    deps: Seq<(String, Json)>,
    section: Seq<char>,
    ep: Seq<char>,
) -> Seq<DiagView>
    decreases deps.len(),
{
    if deps.len() == 0 {
        Seq::empty()
    } else {
        dep_diags(deps.drop_last(), section, ep) + dep_diag(deps.last(), section, ep)
    }
}

pub open spec fn dep_diag(dep: (String, Json), section: Seq<char>, ep: Seq<char>) -> Seq<
    DiagView,
> {
    match extract_version_spec(dep.1) {
        Some(v) => if constraint_ok(v) {
            Seq::empty()
        } else {
            seq![
                err_with_field(
                    "Invalid version constraint in "@ + section + ": "@ + v + " (for "@ + dep.0@
                        + ")"@,
                    ep,
                    section + seq!['.'] + dep.0@,
                ),
            ]
        },
        None => seq![
            err_with_field(
                "Invalid dependency value in "@ + section
                    + ": must be string or object with version (for "@ + dep.0@ + ")"@,
                ep,
                section + seq!['.'] + dep.0@,
            ),
        ],
    }
}

/// The diagnostics of one named dependency section.
pub open spec fn section_diags(
    fields: Seq<(String, Json)>,
    section: Seq<char>,
    ep: Seq<char>,
) -> Seq<DiagView> {
    match obj_lookup(fields, section) {
        None => Seq::empty(),
        Some(Json::Null) => Seq::empty(),
        Some(Json::Obj(deps)) => dep_diags(deps@, section, ep),
        Some(other) => seq![
            err_with_field(
                "Invalid "@ + section + " in extends-plugin.json: expected object, got "@
                    + type_name_spec(other),
                ep,
                section,
            ),
        ],
    }
}

/// What validating the optional dependency declaration file reports, exactly:
/// nothing when the file is absent, a parse error, a shape error, or the key
/// and per-section diagnostics in order.
pub open spec fn extends_diags(files: Map<Seq<char>, Seq<char>>, p: Seq<char>) -> Seq<DiagView> {
    let ep = extends_json_of(p);
    if !files.contains_key(ep) {
        Seq::empty()
    } else {
        match json_parse(files[ep]) {
            Some(v) => match v {
                Json::Obj(fields) => key_diags(fields@, ep) + section_diags(
                    fields@,
                    "dependencies"@,
                    ep,
                ) + section_diags(fields@, "optionalDependencies"@, ep) + section_diags(
                    fields@,
                    "systemDependencies"@,
                    ep,
                ) + section_diags(fields@, "optionalSystemDependencies"@, ep),
                _ => seq![err_with_path("extends-plugin.json must be a JSON object"@, ep)],
            },
            None => seq![err_with_path("Invalid JSON in extends-plugin.json"@, ep)],
        }
    }
}

/// Checks one dependency section of the declaration object, appending its
/// diagnostics to `result`.
#[verifier::loop_isolation(false)]
#[verifier::rlimit(60)]
fn check_section(
    fields: &Vec<(String, Json)>,
    section: &str,
    ep: &str,
    result: &mut ValidationResult,
)
    ensures
        final(result)@ =~= old(result)@ + section_diags(fields@, section@, ep@),
{
    let looked = crate::types::lookup(fields, section);
    match looked {
        None => {},
        Some(Json::Null) => {},
        Some(Json::Obj(deps)) => {
            let n = deps.len();
            let mut i: usize = 0;
            while i < n
                invariant
                    i <= n,
                    n == deps@.len(),
                    result@ =~= old(result)@ + dep_diags(
                        deps@.subrange(0, i as int),
                        section@,
                        ep@,
                    ),
                decreases n - i,
            {
                proof {
                    assert(deps@.subrange(0, i as int + 1).drop_last() =~= deps@.subrange(
                        0,
                        i as int,
                    ));
                }
                let dep_name = &deps[i].0;
                let version: Option<String> = match &deps[i].1 {
                    Json::Str(s) => Some(s.clone()),
                    Json::Obj(inner) => {
                        proof {
                            reveal_strlit("version");
                            assert("version"@ =~= crate::types::k_version());
                        }
                        match crate::types::lookup(inner, "version") {
                            Some(Json::Str(s)) => Some(s.clone()),
                            _ => Some("*".to_owned()),
                        }
                    },
                    _ => None,
                };
                match version {
                    Some(v) => {
                        if !is_valid_version_constraint(v.as_str()) {
                            let mut msg = "Invalid version constraint in ".to_owned();
                            msg.append(section);
                            msg.append(": ");
                            msg.append(v.as_str());
                            msg.append(" (for ");
                            msg.append(dep_name.as_str());
                            msg.append(")");
                            let mut field = section.to_owned();
                            field.append(".");
                            field.append(dep_name.as_str());
                            proof {
                                reveal_strlit(".");
                                assert(field@ =~= section@ + seq!['.'] + dep_name@);
                            }
                            result.push(
                                ValidationDiagnostic::error(msg.as_str()).with_path(ep).with_field(
                                    field.as_str(),
                                ),
                            );
                        }
                    },
                    None => {
                        let mut msg = "Invalid dependency value in ".to_owned();
                        msg.append(section);
                        msg.append(": must be string or object with version (for ");
                        msg.append(dep_name.as_str());
                        msg.append(")");
                        let mut field = section.to_owned();
                        field.append(".");
                        field.append(dep_name.as_str());
                        proof {
                            reveal_strlit(".");
                            assert(field@ =~= section@ + seq!['.'] + dep_name@);
                        }
                        result.push(
                            ValidationDiagnostic::error(msg.as_str()).with_path(ep).with_field(
                                field.as_str(),
                            ),
                        );
                    },
                }
                proof {
                    assert(result@ =~= old(result)@ + dep_diags(
                        deps@.subrange(0, i as int + 1),
                        section@,
                        ep@,
                    ));
                }
                i += 1;
            }
            proof {
                assert(deps@.subrange(0, n as int) =~= deps@);
            }
        },
        Some(other) => {
            let mut msg = "Invalid ".to_owned();
            msg.append(section);
            msg.append(" in extends-plugin.json: expected object, got ");
            match other {
                Json::Arr(_) => msg.append("array"),
                Json::Bool(_) => msg.append("boolean"),
                Json::Num(_) => msg.append("number"),
                Json::Str(_) => msg.append("string"),
                Json::Null => msg.append("null"),
                Json::Obj(_) => msg.append("object"),
            }
            result.push(
                ValidationDiagnostic::error(msg.as_str()).with_path(ep).with_field(section),
            );
        },
    }
}

/// Validates the optional `extends-plugin.json` of a plugin directory: its
/// top-level keys must come from the allowed section set, each section must
/// map names to version constraints, and every constraint must match the
/// constraint grammar. An absent file is fine.
#[verifier::loop_isolation(false)]
#[verifier::rlimit(60)]
pub fn validate_extends_plugin(fs: &Fs, plugin_path: &str) -> (r: ValidationResult)
    requires
        fs.wf(),
    ensures
        r@ =~= extends_diags(fs.file_map(), plugin_path@),
{
    let mut result = ValidationResult::new();
    let meta = crate::paths::join(plugin_path, ".plugin-meta");
    let ep = crate::paths::join(meta.as_str(), "extends-plugin.json");
    proof {
        assert(ep@ == extends_json_of(plugin_path@));
    }
    let content = match fs.read_file(ep.as_str()) {
        Some(c) => c,
        None => {
            return result;
        },
    };
    let v = match crate::json::parse_json(content.as_str()) {
        Some(v) => v,
        None => {
            result.push(
                ValidationDiagnostic::error("Invalid JSON in extends-plugin.json").with_path(
                    ep.as_str(),
                ),
            );
            return result;
        },
    };
    let fields = match v {
        Json::Obj(fields) => fields,
        _ => {
            result.push(
                ValidationDiagnostic::error("extends-plugin.json must be a JSON object").with_path(
                    ep.as_str(),
                ),
            );
            return result;
        },
    };
    let n = fields.len();
    let mut i: usize = 0;
    while i < n
        invariant
            i <= n,
            n == fields@.len(),
            result@ =~= key_diags(fields@.subrange(0, i as int), ep@),
        decreases n - i,
    {
        proof {
            assert(fields@.subrange(0, i as int + 1).drop_last() =~= fields@.subrange(
                0,
                i as int,
            ));
        }
        let key = &fields[i].0;
        let ok = crate::paths::str_eq(key.as_str(), "dependencies") || crate::paths::str_eq(
            key.as_str(),
            "optionalDependencies",
        ) || crate::paths::str_eq(key.as_str(), "systemDependencies") || crate::paths::str_eq(
            key.as_str(),
            "optionalSystemDependencies",
        );
        if !ok {
            let mut msg = "Invalid key in extends-plugin.json: ".to_owned();
            msg.append(key.as_str());
            result.push(
                ValidationDiagnostic::error(msg.as_str()).with_path(ep.as_str()).with_field(
                    key.as_str(),
                ),
            );
        }
        proof {
            assert(result@ =~= key_diags(fields@.subrange(0, i as int + 1), ep@));
        }
        i += 1;
    }
    proof {
        assert(fields@.subrange(0, n as int) =~= fields@);
    }
    check_section(&fields, "dependencies", ep.as_str(), &mut result);
    check_section(&fields, "optionalDependencies", ep.as_str(), &mut result);
    check_section(&fields, "systemDependencies", ep.as_str(), &mut result);
    check_section(&fields, "optionalSystemDependencies", ep.as_str(), &mut result);
    result
}

/// Validates a plugin directory: it must exist, hold the metadata directory
/// and a parseable manifest with string `name`, `version` and `description`
/// fields, the version must be a semantic version when present, and an
/// optional dependency declaration file must be well-formed. All applicable
/// defects are reported in one pass.
pub fn validate_plugin(fs: &Fs, plugin_path: &str) -> (r: ValidationResult)
    requires
        fs.wf(),
    ensures
        r@ =~= plugin_diags(fs.file_map(), fs.dir_set(), plugin_path@),
{
    let mut result = ValidationResult::new();
    if !fs.has_dir(plugin_path) {
        let mut msg = "Plugin path does not exist or is not a directory: ".to_owned();
        msg.append(plugin_path);
        result.push(ValidationDiagnostic::error(msg.as_str()).with_path(plugin_path));
        return result;
    }
    let meta = crate::paths::join(plugin_path, ".plugin-meta");
    if !fs.has_dir(meta.as_str()) {
        result.push(
            ValidationDiagnostic::error("Missing .plugin-meta directory").with_path(plugin_path),
        );
        return result;
    }
    let pj = crate::paths::join(meta.as_str(), "plugin.json");
    proof {
        assert(pj@ == plugin_json_of(plugin_path@));
    }
    let content = match fs.read_file(pj.as_str()) {
        Some(c) => c,
        None => {
            result.push(
                ValidationDiagnostic::error("Missing plugin.json").with_path(meta.as_str()),
            );
            return result;
        },
    };
    let manifest = match crate::json::parse_json(content.as_str()) {
        Some(v) => match extract_manifest(&v) {
            Some(mf) => mf,
            None => {
                result.push(
                    ValidationDiagnostic::error("Invalid JSON in plugin.json").with_path(
                        pj.as_str(),
                    ),
                );
                return result;
            },
        },
        None => {
            result.push(
                ValidationDiagnostic::error("Invalid JSON in plugin.json").with_path(pj.as_str()),
            );
            return result;
        },
    };
    if matches!(manifest.name_str(), None) {
        result.push(
            ValidationDiagnostic::error("Missing or null required field: name").with_path(
                pj.as_str(),
            ).with_field("name"),
        );
    }
    let version = manifest.version_str();
    let version_missing = matches!(version, None);
    if version_missing {
        result.push(
            ValidationDiagnostic::error("Missing or null required field: version").with_path(
                pj.as_str(),
            ).with_field("version"),
        );
    }
    if matches!(manifest.description_str(), None) {
        result.push(
            ValidationDiagnostic::error("Missing or null required field: description").with_path(
                pj.as_str(),
            ).with_field("description"),
        );
    }
    match manifest.version_str() {
        Some(v) => {
            if matches!(crate::version::parse_semver(v.as_str()), None) {
                let mut msg = "Invalid semver version: ".to_owned();
                msg.append(v.as_str());
                result.push(
                    ValidationDiagnostic::error(msg.as_str()).with_path(pj.as_str()).with_field(
                        "version",
                    ),
                );
            }
        },
        None => {},
    }
    proof {
        assert(result@ =~= field_diags(manifest@, pj@));
    }
    let extends = validate_extends_plugin(fs, plugin_path);
    result.merge(extends);
    proof {
        assert(result@ =~= plugin_diags(fs.file_map(), fs.dir_set(), plugin_path@));
    }
    result
}


/// No two entries share a name.
pub open spec fn names_unique(ps: Seq<crate::types::EntryView>) -> bool {
    forall|i: int, j: int| 0 <= i < j < ps.len() ==> ps[i].name != ps[j].name
}

/// Every entry has a non-empty name and source.
pub open spec fn entry_fields_ok(ps: Seq<crate::types::EntryView>) -> bool {
    forall|i: int| #![trigger ps[i]] 0 <= i < ps.len() ==> ps[i].name.len() > 0
        && ps[i].source.len() > 0
}

/// Every entry's source basename has a matching directory under the root.
pub open spec fn entries_on_disk(
    dirs: Set<Seq<char>>,
    root: Seq<char>,
    ps: Seq<crate::types::EntryView>,
) -> bool {
    forall|i: int| #![trigger ps[i]] 0 <= i < ps.len() ==> is_child_name(
        dirs,
        root,
        crate::resolution::source_basename(ps[i].source),
    )
}

/// Every entry whose resolved directory exists passes plugin validation.
pub open spec fn entry_plugins_ok(
    files: Map<Seq<char>, Seq<char>>,
    dirs: Set<Seq<char>>,
    project_root: Seq<char>,
    root: Seq<char>,
    ps: Seq<crate::types::EntryView>,
) -> bool {
    forall|i: int| #![trigger ps[i]] 0 <= i < ps.len() ==> (dirs.contains(
        crate::resolution::resolve_source_spec(ps[i].source, project_root, root),
    ) ==> !some_error(
        plugin_diags(
            files,
            dirs,
            crate::resolution::resolve_source_spec(ps[i].source, project_root, root),
        ),
    ))
}

/// Exactly when validating a whole registry configuration reports an error:
/// a malformed version, a missing plugin root, a duplicate name, an empty
/// name or source, an entry with no directory on disk, or — unless plugin
/// validation is skipped — a resolvable entry whose plugin fails validation.
pub open spec fn registry_errors(
    files: Map<Seq<char>, Seq<char>>,
    dirs: Set<Seq<char>>,
    project_root: Seq<char>,
    root_abs: Seq<char>,
    m: crate::types::MarketView,
    skip_plugins: bool,
) -> bool {
    ||| semver_triple(m.version) is None
    ||| !dirs.contains(root_abs)
    ||| !names_unique(m.plugins)
    ||| !entry_fields_ok(m.plugins)
    ||| (dirs.contains(root_abs) && !entries_on_disk(dirs, root_abs, m.plugins))
    ||| (!skip_plugins && dirs.contains(root_abs) && !entry_plugins_ok(
        files,
        dirs,
        project_root,
        root_abs,
        m.plugins,
    ))
}

/// The registry-version error, exactly as emitted.
pub open spec fn bad_version_diag(v: Seq<char>, mp: Seq<char>) -> DiagView {
    DiagView {
        severity: Severity::Error,
        message: "Invalid marketplace version: "@ + v,
        path: Some(mp),
        field: Some("version"@),
    }
}

/// The missing-plugin-root error, exactly as emitted.
pub open spec fn missing_root_diag(root: Seq<char>, mp: Seq<char>) -> DiagView {
    DiagView {
        severity: Severity::Error,
        message: "Plugin root directory not found: "@ + root,
        path: Some(mp),
        field: Some("pluginRoot"@),
    }
}

/// The duplicate-name error, exactly as emitted for each repeated occurrence.
pub open spec fn dup_diag(name: Seq<char>, mp: Seq<char>) -> DiagView {
    DiagView {
        severity: Severity::Error,
        message: "Duplicate plugin name: "@ + name,
        path: Some(mp),
        field: None,
    }
}

/// The empty-name error for entry `j`, exactly as emitted.
pub open spec fn empty_name_diag(j: nat, mp: Seq<char>) -> DiagView {
    DiagView {
        severity: Severity::Error,
        message: "Plugin entry "@ + crate::strnum::dec_spec(j) + " has empty name"@,
        path: Some(mp),
        field: Some("plugins["@ + crate::strnum::dec_spec(j) + "].name"@),
    }
}

/// The empty-source error for entry `j`, exactly as emitted.
pub open spec fn empty_source_diag(j: nat, mp: Seq<char>) -> DiagView {
    DiagView {
        severity: Severity::Error,
        message: "Plugin entry "@ + crate::strnum::dec_spec(j) + " has empty source"@,
        path: Some(mp),
        field: Some("plugins["@ + crate::strnum::dec_spec(j) + "].source"@),
    }
}

/// The orphaned-directory warning for the on-disk name `n`, exactly as
/// emitted: a warning, never an error.
pub open spec fn orphan_diag(n: Seq<char>, root: Seq<char>) -> DiagView {
    DiagView {
        severity: Severity::Warning,
        message: "Plugin in filesystem but not in marketplace: "@ + n,
        path: Some(root + seq!['/'] + n),
        field: None,
    }
}

/// The missing-directory error for the source basename `bn`, exactly as
/// emitted, remediation hint included.
pub open spec fn missing_diag(bn: Seq<char>, mp: Seq<char>) -> DiagView {
    DiagView {
        severity: Severity::Error,
        message: "Plugin in marketplace but not in filesystem: "@ + bn + ". Run `souk remove "@
            + bn + "` to clean up the stale entry."@,
        path: Some(mp),
        field: None,
    }
}

/// A diagnostic present in a prefix-preserved list is still present.
proof fn lemma_diag_persists(a: Seq<DiagView>, b: Seq<DiagView>, d: DiagView)
    requires
        b.len() >= a.len(),
        forall|t: int| 0 <= t < a.len() ==> b[t] == a[t],
        exists|t: int| 0 <= t < a.len() && a[t] == d,
    ensures
        exists|t: int| 0 <= t < b.len() && b[t] == d,
{
    let t = choose|t: int| 0 <= t < a.len() && a[t] == d;
    assert(b[t] == d);
}

/// The source basenames of all entries, in order.
fn entry_basenames(m: &crate::types::Marketplace) -> (r: Vec<String>)
    ensures
        r@.len() == m.plugins@.len(),
        forall|i: int| #![trigger r@[i]] 0 <= i < r@.len() ==> r@[i]@
            == crate::resolution::source_basename(m@.plugins[i].source),
{
    let n = m.plugins.len();
    let mut out: Vec<String> = Vec::new();
    let mut i: usize = 0;
    while i < n
        invariant
            i <= n,
            n == m.plugins@.len(),
            out@.len() == i,
            forall|j: int| #![trigger out@[j]] 0 <= j < i ==> out@[j]@
                == crate::resolution::source_basename(m@.plugins[j].source),
        decreases n - i,
    {
        out.push(crate::resolution::source_basename_of(m.plugins[i].source.as_str()));
        i += 1;
    }
    out
}

/// Some entry among the first `i` has no directory on disk.
pub open spec fn missing_before(
    dirs: Set<Seq<char>>,
    root: Seq<char>,
    ps: Seq<crate::types::EntryView>,
    i: int,
) -> bool {
    exists|j: int|
        0 <= j < i && !is_child_name(
            dirs,
            root,
            crate::resolution::source_basename(#[trigger] ps[j].source),
        )
}

/// Some resolvable entry among the first `i` fails plugin validation.
pub open spec fn plugin_err_before(
    files: Map<Seq<char>, Seq<char>>,
    dirs: Set<Seq<char>>,
    project_root: Seq<char>,
    root: Seq<char>,
    ps: Seq<crate::types::EntryView>,
    i: int,
) -> bool {
    exists|j: int|
        #![trigger ps[j]]
        0 <= j < i && dirs.contains(
            crate::resolution::resolve_source_spec(ps[j].source, project_root, root),
        ) && some_error(
            plugin_diags(
                files,
                dirs,
                crate::resolution::resolve_source_spec(ps[j].source, project_root, root),
            ),
        )
}

/// A directory name under the plugin root that no entry's source basename
/// matches.
pub open spec fn is_orphan(
    dirs: Set<Seq<char>>,
    root: Seq<char>,
    ps: Seq<crate::types::EntryView>,
    n: Seq<char>,
) -> bool {
    is_child_name(dirs, root, n) && !(exists|i: int|
        0 <= i < ps.len() && crate::resolution::source_basename(#[trigger] ps[i].source) == n)
}

/// The views of a list of strings.
pub open spec fn views_of(v: Seq<String>) -> Seq<Seq<char>> {
    Seq::new(v.len(), |i: int| v[i]@)
}

/// Whether no entry's source basename matches `n`.
pub open spec fn no_source_named(ps: Seq<crate::types::EntryView>, n: Seq<char>) -> bool {
    !(exists|i: int|
        0 <= i < ps.len() && crate::resolution::source_basename(#[trigger] ps[i].source) == n)
}

/// The subsequence of `sub` that no entry's source basename matches.
pub open spec fn orphan_names(
    sub: Seq<Seq<char>>,
    ps: Seq<crate::types::EntryView>,
) -> Seq<Seq<char>>
    decreases sub.len(),
{
    if sub.len() == 0 {
        Seq::empty()
    } else if no_source_named(ps, sub.last()) {
        orphan_names(sub.drop_last(), ps).push(sub.last())
    } else {
        orphan_names(sub.drop_last(), ps)
    }
}

/// A name occurs among the orphans exactly when it occurs in `sub` and no
/// source basename matches it.
proof fn lemma_orphan_names_member(
    sub: Seq<Seq<char>>,
    ps: Seq<crate::types::EntryView>,
    n: Seq<char>,
)
    ensures
        (exists|j: int| 0 <= j < orphan_names(sub, ps).len() && orphan_names(sub, ps)[j] == n) == ((
        exists|k: int| 0 <= k < sub.len() && sub[k] == n) && no_source_named(ps, n)),
    decreases sub.len(),
{
    if sub.len() > 0 {
        lemma_orphan_names_member(sub.drop_last(), ps, n);
        let on = orphan_names(sub, ps);
        let rest = orphan_names(sub.drop_last(), ps);
        if exists|j: int| 0 <= j < on.len() && on[j] == n {
            let j = choose|j: int| 0 <= j < on.len() && on[j] == n;
            if no_source_named(ps, sub.last()) && j == on.len() - 1 {
                assert(sub[sub.len() - 1] == n);
            } else {
                assert(rest[j] == n);
                let k = choose|k: int| 0 <= k < sub.drop_last().len() && sub.drop_last()[k] == n;
                assert(sub[k] == n);
            }
        }
        if (exists|k: int| 0 <= k < sub.len() && sub[k] == n) && no_source_named(ps, n) {
            let k = choose|k: int| 0 <= k < sub.len() && sub[k] == n;
            if k == sub.len() - 1 {
                assert(on[on.len() - 1] == n);
            } else {
                assert(sub.drop_last()[k] == n);
                let j = choose|j: int| 0 <= j < rest.len() && rest[j] == n;
                if no_source_named(ps, sub.last()) {
                    assert(on[j] == n);
                } else {
                    assert(on[j] == n);
                }
            }
        }
    }
}

/// Orphan names drawn from a duplicate-free listing are duplicate-free.
proof fn lemma_orphan_names_distinct(sub: Seq<Seq<char>>, ps: Seq<crate::types::EntryView>)
    requires
        forall|a: int, b: int| 0 <= a < b < sub.len() ==> sub[a] != sub[b],
    ensures
        forall|a: int, b: int|
            0 <= a < b < orphan_names(sub, ps).len() ==> orphan_names(sub, ps)[a] != orphan_names(
                sub,
                ps,
            )[b],
    decreases sub.len(),
{
    if sub.len() > 0 {
        let rest = orphan_names(sub.drop_last(), ps);
        assert forall|a: int, b: int|
            0 <= a < b < sub.drop_last().len() implies sub.drop_last()[a] != sub.drop_last()[b] by {
            assert(sub[a] != sub[b]);
        }
        lemma_orphan_names_distinct(sub.drop_last(), ps);
        if no_source_named(ps, sub.last()) {
            assert forall|j: int| 0 <= j < rest.len() implies rest[j] != sub.last() by {
                lemma_orphan_names_member(sub.drop_last(), ps, rest[j]);
                let k = choose|k: int|
                    0 <= k < sub.drop_last().len() && sub.drop_last()[k] == rest[j];
                assert(sub[k] != sub[sub.len() - 1]);
            }
            let on = orphan_names(sub, ps);
            assert(on == rest.push(sub.last()));
            assert forall|a: int, b: int| 0 <= a < b < on.len() implies on[a] != on[b] by {
                if b < on.len() - 1 {
                    assert(rest[a] != rest[b]);
                } else {
                    assert(rest[a] != sub.last());
                }
            }
        }
    }
}

/// Equal root-prefixed paths name the same child.
proof fn lemma_prefixed_inj(root: Seq<char>, x: Seq<char>, y: Seq<char>)
    requires
        root + seq!['/'] + x == root + seq!['/'] + y,
    ensures
        x == y,
{
    let px = root + seq!['/'] + x;
    let py = root + seq!['/'] + y;
    assert(px.len() == root.len() + 1 + x.len());
    assert(py.len() == root.len() + 1 + y.len());
    assert(x.len() == y.len());
    assert forall|k: int| 0 <= k < x.len() implies x[k] == y[k] by {
        assert(px[root.len() + 1 + k] == x[k]);
        assert(py[root.len() + 1 + k] == y[k]);
    }
    assert(x =~= y);
}

/// `ov` lists exactly the orphan directories as full paths: every element is
/// the root plus an orphan name, and every orphan name occurs.
pub open spec fn orphan_list_ok(
    dirs: Set<Seq<char>>,
    root: Seq<char>,
    ps: Seq<crate::types::EntryView>,
    ov: Seq<Seq<char>>,
) -> bool {
    &&& forall|j: int| #![trigger ov[j]] 0 <= j < ov.len() ==> ov[j] == root + seq!['/']
        + ov[j].skip(root.len() as int + 1) && is_orphan(
        dirs,
        root,
        ps,
        ov[j].skip(root.len() as int + 1),
    )
    &&& forall|n: Seq<char>| #[trigger] is_orphan(dirs, root, ps, n) ==> exists|j: int|
        0 <= j < ov.len() && ov[j] == root + seq!['/'] + n
}

/// A list built from the orphan names, prefixed with the root, lists exactly
/// the orphans.
proof fn lemma_orphan_list(
    dirs: Set<Seq<char>>,
    root: Seq<char>,
    ps: Seq<crate::types::EntryView>,
    sv: Seq<Seq<char>>,
    ov: Seq<Seq<char>>,
)
    requires
        forall|j: int| 0 <= j < sv.len() ==> is_child_name(dirs, root, #[trigger] sv[j]),
        forall|n: Seq<char>| #[trigger] is_child_name(dirs, root, n) ==> exists|j: int|
            0 <= j < sv.len() && sv[j] == n,
        ov == Seq::new(
            orphan_names(sv, ps).len(),
            |j: int| root + seq!['/'] + orphan_names(sv, ps)[j],
        ),
    ensures
        orphan_list_ok(dirs, root, ps, ov),
{
    let on = orphan_names(sv, ps);
    assert forall|j: int| #![trigger ov[j]] 0 <= j < ov.len() implies ov[j] == root + seq!['/']
        + ov[j].skip(root.len() as int + 1) && is_orphan(
        dirs,
        root,
        ps,
        ov[j].skip(root.len() as int + 1),
    ) by {
        let nm = on[j];
        lemma_orphan_names_member(sv, ps, nm);
        let k = choose|k: int| 0 <= k < sv.len() && sv[k] == nm;
        assert(is_child_name(dirs, root, nm));
        assert(is_orphan(dirs, root, ps, nm));
        assert(ov[j] == root + seq!['/'] + nm);
        assert(ov[j].skip(root.len() as int + 1) =~= nm);
    }
    assert forall|n: Seq<char>| #[trigger] is_orphan(dirs, root, ps, n) implies exists|j: int|
        0 <= j < ov.len() && ov[j] == root + seq!['/'] + n by {
        assert(is_child_name(dirs, root, n));
        let k = choose|k: int| 0 <= k < sv.len() && sv[k] == n;
        assert(no_source_named(ps, n)) by {
            if !no_source_named(ps, n) {
                let x = choose|x: int|
                    0 <= x < ps.len() && crate::resolution::source_basename(
                        #[trigger] ps[x].source,
                    ) == n;
            }
        }
        lemma_orphan_names_member(sv, ps, n);
        let j = choose|j: int| 0 <= j < on.len() && on[j] == n;
        assert(ov[j] == root + seq!['/'] + n);
    }
}

/// Finds the directories under the plugin root that no registry entry names:
/// their full paths, each once. Fails when the plugin root is not a
/// directory.
#[verifier::loop_isolation(false)]
#[verifier::rlimit(100)]
pub fn find_orphaned_dirs(fs: &Fs, config: &crate::config::MarketplaceConfig) -> (r: Result<
    Vec<String>,
    crate::errors::SoukError,
>)
    requires
        fs.wf(),
    ensures
        match r {
            Ok(v) => fs.dir_set().contains(config.plugin_root_abs@) && orphan_list_ok(
                fs.dir_set(),
                config.plugin_root_abs@,
                config.marketplace@.plugins,
                views_of(v@),
            ),
            Err(e) => !fs.dir_set().contains(config.plugin_root_abs@) && e is Io,
        },
        r matches Ok(v) ==> forall|a: int, b: int| 0 <= a < b < v@.len() ==> v@[a]@ != v@[b]@,
{
    let ghost dirs = fs.dir_set();
    let ghost root = config.plugin_root_abs@;
    let ghost ps = config.marketplace@.plugins;
    let rootstr = config.plugin_root_abs.as_str();
    if !fs.has_dir(rootstr) {
        return Err(crate::errors::SoukError::Io(config.plugin_root_abs.clone()));
    }
    let subdirs = fs.subdir_names(rootstr);
    let ghost sv = views_of(subdirs@);
    let basenames = entry_basenames(&config.marketplace);
    let n = subdirs.len();
    let mut out: Vec<String> = Vec::new();
    let mut i: usize = 0;
    while i < n
        invariant
            i <= n,
            n == subdirs@.len(),
            views_of(out@) == Seq::new(
                orphan_names(sv.subrange(0, i as int), ps).len(),
                |j: int| root + seq!['/'] + orphan_names(sv.subrange(0, i as int), ps)[j],
            ),
        decreases n - i,
    {
        proof {
            assert(sv.subrange(0, i as int + 1).drop_last() =~= sv.subrange(0, i as int));
            assert(sv.subrange(0, i as int + 1).last() == subdirs@[i as int]@);
        }
        let absent = !crate::fsm::contains_string(&basenames, subdirs[i].as_str());
        proof {
            if absent {
                assert(no_source_named(ps, subdirs@[i as int]@)) by {
                    if !no_source_named(ps, subdirs@[i as int]@) {
                        let x = choose|x: int|
                            0 <= x < ps.len() && crate::resolution::source_basename(
                                #[trigger] ps[x].source,
                            ) == subdirs@[i as int]@;
                        assert(basenames@[x]@ == subdirs@[i as int]@);
                    }
                }
            } else {
                let x = choose|x: int|
                    0 <= x < basenames@.len() && basenames@[x]@ == subdirs@[i as int]@;
                assert(crate::resolution::source_basename(ps[x].source) == subdirs@[i as int]@);
            }
        }
        if absent {
            let full = crate::paths::join(rootstr, subdirs[i].as_str());
            let ghost outpre = out@;
            out.push(full);
            proof {
                assert(views_of(out@).drop_last() =~= views_of(outpre));
                assert(views_of(out@).last() == root + seq!['/'] + subdirs@[i as int]@);
                assert(orphan_names(sv.subrange(0, i as int + 1), ps) == orphan_names(
                    sv.subrange(0, i as int),
                    ps,
                ).push(subdirs@[i as int]@));
                let ghost on0 = orphan_names(sv.subrange(0, i as int), ps);
                let ghost on1 = orphan_names(sv.subrange(0, i as int + 1), ps);
                assert(views_of(out@).len() == on1.len());
                assert forall|j: int| 0 <= j < views_of(out@).len() implies #[trigger] views_of(
                    out@,
                )[j] == root + seq!['/'] + on1[j] by {
                    if j < views_of(out@).len() - 1 {
                        assert(views_of(out@)[j] == views_of(outpre)[j]);
                        assert(views_of(outpre)[j] == root + seq!['/'] + on0[j]);
                        assert(on1[j] == on0[j]);
                    } else {
                        assert(on1[j] == subdirs@[i as int]@);
                    }
                }
                assert(views_of(out@) =~= Seq::new(
                    on1.len(),
                    |j: int| root + seq!['/'] + orphan_names(sv.subrange(0, i as int + 1), ps)[j],
                ));
            }
        } else {
            proof {
                assert(views_of(out@) =~= Seq::new(
                    orphan_names(sv.subrange(0, i as int + 1), ps).len(),
                    |j: int| root + seq!['/'] + orphan_names(sv.subrange(0, i as int + 1), ps)[j],
                ));
            }
        }
        i += 1;
    }
    proof {
        assert(sv.subrange(0, n as int) =~= sv);
        assert forall|j: int| 0 <= j < out@.len() implies #[trigger] out@[j]@ == views_of(out@)[j]
            by {}
        assert forall|j: int| 0 <= j < sv.len() implies is_child_name(
            dirs,
            root,
            #[trigger] sv[j],
        ) by {
            assert(sv[j] == subdirs@[j]@);
        }
        assert forall|nm: Seq<char>| #[trigger] is_child_name(dirs, root, nm) implies exists|
            j: int,
        | 0 <= j < sv.len() && sv[j] == nm by {
            let k = choose|k: int| 0 <= k < subdirs@.len() && subdirs@[k]@ == nm;
            assert(sv[k] == nm);
        }
        lemma_orphan_list(dirs, root, ps, sv, views_of(out@));
        assert forall|a: int, b: int| 0 <= a < b < sv.len() implies sv[a] != sv[b] by {
            assert(subdirs@[a]@ != subdirs@[b]@);
        }
        lemma_orphan_names_distinct(sv, ps);
        let on = orphan_names(sv, ps);
        assert forall|a: int, b: int| 0 <= a < b < out@.len() implies out@[a]@ != out@[b]@ by {
            assert(views_of(out@)[a] == root + seq!['/'] + on[a]);
            assert(views_of(out@)[b] == root + seq!['/'] + on[b]);
            assert(on[a] != on[b]);
            if out@[a]@ == out@[b]@ {
                lemma_prefixed_inj(root, on[a], on[b]);
            }
        }
    }
    Ok(out)
}

/// Appends the duplicate-name diagnostics: one error per repeated
/// occurrence of a name.
#[verifier::loop_isolation(false)]
#[verifier::rlimit(60)]
fn check_duplicates(config: &crate::config::MarketplaceConfig, result: &mut ValidationResult)
    ensures
        some_error(final(result)@) == (some_error(old(result)@) || !names_unique(
            config.marketplace@.plugins,
        )),
        final(result)@.len() >= old(result)@.len(),
        forall|t: int| 0 <= t < old(result)@.len() ==> final(result)@[t] == old(result)@[t],
        forall|x: int, y: int|
            #![trigger config.marketplace@.plugins[x].name, config.marketplace@.plugins[y].name]
            0 <= x < y < config.marketplace@.plugins.len()
                && config.marketplace@.plugins[x].name == config.marketplace@.plugins[y].name
                ==> exists|t: int|
                0 <= t < final(result)@.len() && final(result)@[t] == dup_diag(
                    config.marketplace@.plugins[y].name,
                    config.marketplace_path@,
                ),
{
    let ghost ps = config.marketplace@.plugins;
    let mp = &config.marketplace;
    let n = mp.plugins.len();
    let mut seen: Vec<String> = Vec::new();
    let mut i: usize = 0;
    while i < n
        invariant
            i <= n,
            n == mp.plugins@.len(),
            seen@.len() == i,
            forall|j: int| #![trigger seen@[j]] 0 <= j < i ==> seen@[j]@ == ps[j].name,
            some_error(result@) == (some_error(old(result)@) || !names_unique(
                ps.subrange(0, i as int),
            )),
            result@.len() >= old(result)@.len(),
            forall|t: int| 0 <= t < old(result)@.len() ==> result@[t] == old(result)@[t],
            forall|x: int, y: int|
                #![trigger ps[x].name, ps[y].name]
                0 <= x < y < i && ps[x].name == ps[y].name ==> exists|t: int|
                    0 <= t < result@.len() && result@[t] == dup_diag(
                        ps[y].name,
                        config.marketplace_path@,
                    ),
        decreases n - i,
    {
        let name = &mp.plugins[i].name;
        if crate::fsm::contains_string(&seen, name.as_str()) {
            let mut msg = "Duplicate plugin name: ".to_owned();
            msg.append(name.as_str());
            let d = ValidationDiagnostic::error(msg.as_str()).with_path(
                config.marketplace_path.as_str(),
            );
            proof {
                crate::errors::lemma_some_error_push(result@, d@);
                let j = choose|j: int| 0 <= j < i && seen@[j]@ == name@;
                let pre1 = ps.subrange(0, i as int + 1);
                assert(pre1[j].name == pre1[i as int].name);
            }
            let ghost dv = d@;
            let ghost rpre = result@;
            result.push(d);
            proof {
                assert(dv == dup_diag(ps[i as int].name, config.marketplace_path@));
                assert(result@[rpre.len() as int] == dv);
                assert forall|x: int, y: int|
                    #![trigger ps[x].name, ps[y].name]
                    0 <= x < y < i + 1 && ps[x].name == ps[y].name implies exists|t: int|
                        0 <= t < result@.len() && result@[t] == dup_diag(
                            ps[y].name,
                            config.marketplace_path@,
                        ) by {
                    if y < i {
                        let t = choose|t: int|
                            0 <= t < rpre.len() && rpre[t] == dup_diag(
                                ps[y].name,
                                config.marketplace_path@,
                            );
                        assert(result@[t] == dup_diag(ps[y].name, config.marketplace_path@));
                    } else {
                        assert(result@[rpre.len() as int] == dup_diag(
                            ps[y].name,
                            config.marketplace_path@,
                        ));
                    }
                }
            }
        } else {
            proof {
                let pre = ps.subrange(0, i as int);
                let pre1 = ps.subrange(0, i as int + 1);
                if !names_unique(pre) {
                    let (x, y): (int, int) = choose|x: int, y: int|
                        0 <= x < y < i && #[trigger] pre[x].name == #[trigger] pre[y].name;
                    assert(pre1[x].name == pre1[y].name);
                } else {
                    assert forall|a: int, b: int| 0 <= a < b < i + 1 implies pre1[a].name
                        != pre1[b].name by {
                        if b < i {
                            assert(pre[a].name != pre[b].name);
                        } else {
                            assert(seen@[a]@ == ps[a].name);
                        }
                    }
                }
                assert forall|x: int, y: int|
                    #![trigger ps[x].name, ps[y].name]
                    0 <= x < y < i + 1 && ps[x].name == ps[y].name implies exists|t: int|
                        0 <= t < result@.len() && result@[t] == dup_diag(
                            ps[y].name,
                            config.marketplace_path@,
                        ) by {
                    if y == i {
                        assert(seen@[x]@ == ps[x].name);
                    }
                }
            }
        }
        seen.push(name.clone());
        i += 1;
    }
    proof {
        assert(ps.subrange(0, n as int) =~= ps);
    }
}

/// Appends the empty-name and empty-source diagnostics.
#[verifier::loop_isolation(false)]
#[verifier::rlimit(60)]
fn check_entry_fields(config: &crate::config::MarketplaceConfig, result: &mut ValidationResult)
    ensures
        some_error(final(result)@) == (some_error(old(result)@) || !entry_fields_ok(
            config.marketplace@.plugins,
        )),
        final(result)@.len() >= old(result)@.len(),
        forall|t: int| 0 <= t < old(result)@.len() ==> final(result)@[t] == old(result)@[t],
        forall|j: int|
            #![trigger config.marketplace@.plugins[j]]
            0 <= j < config.marketplace@.plugins.len()
                && config.marketplace@.plugins[j].name.len() == 0 ==> exists|t: int|
                0 <= t < final(result)@.len() && final(result)@[t] == empty_name_diag(
                    j as nat,
                    config.marketplace_path@,
                ),
        forall|j: int|
            #![trigger config.marketplace@.plugins[j]]
            0 <= j < config.marketplace@.plugins.len()
                && config.marketplace@.plugins[j].source.len() == 0 ==> exists|t: int|
                0 <= t < final(result)@.len() && final(result)@[t] == empty_source_diag(
                    j as nat,
                    config.marketplace_path@,
                ),
{
    let ghost ps = config.marketplace@.plugins;
    let mp = &config.marketplace;
    let n = mp.plugins.len();
    let mut i: usize = 0;
    while i < n
        invariant
            i <= n,
            n == mp.plugins@.len(),
            some_error(result@) == (some_error(old(result)@) || !entry_fields_ok(
                ps.subrange(0, i as int),
            )),
            result@.len() >= old(result)@.len(),
            forall|t: int| 0 <= t < old(result)@.len() ==> result@[t] == old(result)@[t],
            forall|j: int|
                #![trigger ps[j]]
                0 <= j < i && ps[j].name.len() == 0 ==> exists|t: int|
                    0 <= t < result@.len() && result@[t] == empty_name_diag(
                        j as nat,
                        config.marketplace_path@,
                    ),
            forall|j: int|
                #![trigger ps[j]]
                0 <= j < i && ps[j].source.len() == 0 ==> exists|t: int|
                    0 <= t < result@.len() && result@[t] == empty_source_diag(
                        j as nat,
                        config.marketplace_path@,
                    ),
        decreases n - i,
    {
        let ghost rentry = result@;
        let index = crate::strnum::u64_to_string(i as u64);
        if mp.plugins[i].name.as_str().unicode_len() == 0 {
            let mut msg = "Plugin entry ".to_owned();
            msg.append(index.as_str());
            msg.append(" has empty name");
            let mut field = "plugins[".to_owned();
            field.append(index.as_str());
            field.append("].name");
            let d = ValidationDiagnostic::error(msg.as_str()).with_path(
                config.marketplace_path.as_str(),
            ).with_field(field.as_str());
            proof {
                crate::errors::lemma_some_error_push(result@, d@);
            }
            let ghost dv = d@;
            let ghost rpre = result@;
            result.push(d);
            proof {
                assert(dv == empty_name_diag(i as nat, config.marketplace_path@));
                assert(result@[rpre.len() as int] == dv);
            }
        }
        let ghost rmid = result@;
        proof {
            if ps[i as int].name.len() == 0 {
                assert(exists|t: int|
                    0 <= t < rmid.len() && rmid[t] == empty_name_diag(
                        i as nat,
                        config.marketplace_path@,
                    ));
            }
        }
        if mp.plugins[i].source.as_str().unicode_len() == 0 {
            let mut msg = "Plugin entry ".to_owned();
            msg.append(index.as_str());
            msg.append(" has empty source");
            let mut field = "plugins[".to_owned();
            field.append(index.as_str());
            field.append("].source");
            let d = ValidationDiagnostic::error(msg.as_str()).with_path(
                config.marketplace_path.as_str(),
            ).with_field(field.as_str());
            proof {
                crate::errors::lemma_some_error_push(result@, d@);
            }
            let ghost dv = d@;
            let ghost rpre = result@;
            result.push(d);
            proof {
                assert(dv == empty_source_diag(i as nat, config.marketplace_path@));
                assert(result@[rpre.len() as int] == dv);
            }
        }
        proof {
            if ps[i as int].name.len() == 0 {
                let t = choose|t: int|
                    0 <= t < rmid.len() && rmid[t] == empty_name_diag(
                        i as nat,
                        config.marketplace_path@,
                    );
                assert(result@[t] == empty_name_diag(i as nat, config.marketplace_path@));
            }
            if ps[i as int].source.len() == 0 {
                assert(exists|t: int|
                    0 <= t < result@.len() && result@[t] == empty_source_diag(
                        i as nat,
                        config.marketplace_path@,
                    ));
            }
            assert forall|j: int|
                #![trigger ps[j]]
                0 <= j < i + 1 && ps[j].name.len() == 0 implies exists|t: int|
                    0 <= t < result@.len() && result@[t] == empty_name_diag(
                        j as nat,
                        config.marketplace_path@,
                    ) by {
                if j < i {
                    let t = choose|t: int|
                        0 <= t < rentry.len() && rentry[t] == empty_name_diag(
                            j as nat,
                            config.marketplace_path@,
                        );
                    assert(result@[t] == empty_name_diag(j as nat, config.marketplace_path@));
                }
            }
            assert forall|j: int|
                #![trigger ps[j]]
                0 <= j < i + 1 && ps[j].source.len() == 0 implies exists|t: int|
                    0 <= t < result@.len() && result@[t] == empty_source_diag(
                        j as nat,
                        config.marketplace_path@,
                    ) by {
                if j < i {
                    let t = choose|t: int|
                        0 <= t < rentry.len() && rentry[t] == empty_source_diag(
                            j as nat,
                            config.marketplace_path@,
                        );
                    assert(result@[t] == empty_source_diag(j as nat, config.marketplace_path@));
                }
            }
        }
        proof {
            let pre = ps.subrange(0, i as int);
            let pre1 = ps.subrange(0, i as int + 1);
            assert(entry_fields_ok(pre1) == (entry_fields_ok(pre) && ps[i as int].name.len() > 0
                && ps[i as int].source.len() > 0)) by {
                if entry_fields_ok(pre) && ps[i as int].name.len() > 0 && ps[
                    i as int
                ].source.len() > 0 {
                    assert forall|j: int| #![trigger pre1[j]] 0 <= j < i + 1 implies
                        pre1[j].name.len() > 0 && pre1[j].source.len() > 0 by {
                        if j < i {
                            assert(pre[j] == ps[j]);
                        }
                    }
                } else if entry_fields_ok(pre1) {
                    assert(pre1[i as int].name.len() > 0);
                    assert forall|j: int| #![trigger pre[j]] 0 <= j < i implies pre[j].name.len()
                        > 0 && pre[j].source.len() > 0 by {
                        assert(pre1[j] == ps[j]);
                    }
                }
            }
        }
        i += 1;
    }
    proof {
        assert(ps.subrange(0, n as int) =~= ps);
    }
}

/// Appends the orphaned-directory warnings: never an error.
#[verifier::loop_isolation(false)]
#[verifier::rlimit(60)]
fn check_orphan_warnings(
    config: &crate::config::MarketplaceConfig,
    subdirs: &Vec<String>,
    basenames: &Vec<String>,
    result: &mut ValidationResult,
)
    requires
        basenames@.len() == config.marketplace@.plugins.len(),
        forall|j: int| #![trigger basenames@[j]] 0 <= j < basenames@.len() ==> basenames@[j]@
            == crate::resolution::source_basename(config.marketplace@.plugins[j].source),
    ensures
        some_error(final(result)@) == some_error(old(result)@),
        final(result)@.len() >= old(result)@.len(),
        forall|t: int| 0 <= t < old(result)@.len() ==> final(result)@[t] == old(result)@[t],
        forall|j: int|
            #![trigger subdirs@[j]]
            0 <= j < subdirs@.len() && no_source_named(
                config.marketplace@.plugins,
                subdirs@[j]@,
            ) ==> exists|t: int|
                0 <= t < final(result)@.len() && final(result)@[t] == orphan_diag(
                    subdirs@[j]@,
                    config.plugin_root_abs@,
                ),
{
    let ghost ps = config.marketplace@.plugins;
    let ghost root = config.plugin_root_abs@;
    let sn = subdirs.len();
    let mut i: usize = 0;
    while i < sn
        invariant
            i <= sn,
            some_error(result@) == some_error(old(result)@),
            result@.len() >= old(result)@.len(),
            forall|t: int| 0 <= t < old(result)@.len() ==> result@[t] == old(result)@[t],
            forall|j: int|
                #![trigger subdirs@[j]]
                0 <= j < i && no_source_named(ps, subdirs@[j]@) ==> exists|t: int|
                    0 <= t < result@.len() && result@[t] == orphan_diag(subdirs@[j]@, root),
        decreases sn - i,
    {
        let ghost rentry = result@;
        let absent = !crate::fsm::contains_string(basenames, subdirs[i].as_str());
        proof {
            if absent {
                assert(no_source_named(ps, subdirs@[i as int]@)) by {
                    if !no_source_named(ps, subdirs@[i as int]@) {
                        let x = choose|x: int|
                            0 <= x < ps.len() && crate::resolution::source_basename(
                                #[trigger] ps[x].source,
                            ) == subdirs@[i as int]@;
                        assert(basenames@[x]@ == subdirs@[i as int]@);
                    }
                }
            } else {
                let x = choose|x: int|
                    0 <= x < basenames@.len() && basenames@[x]@ == subdirs@[i as int]@;
                assert(crate::resolution::source_basename(ps[x].source) == subdirs@[i as int]@);
                assert(!no_source_named(ps, subdirs@[i as int]@));
            }
        }
        if absent {
            let mut msg = "Plugin in filesystem but not in marketplace: ".to_owned();
            msg.append(subdirs[i].as_str());
            let full = crate::paths::join(config.plugin_root_abs.as_str(), subdirs[i].as_str());
            let d = ValidationDiagnostic::warning(msg.as_str()).with_path(full.as_str());
            proof {
                crate::errors::lemma_some_error_push(result@, d@);
            }
            let ghost dv = d@;
            let ghost rpre = result@;
            result.push(d);
            proof {
                assert(dv == orphan_diag(subdirs@[i as int]@, root));
                assert(result@[rpre.len() as int] == dv);
            }
        }
        proof {
            assert forall|j: int|
                #![trigger subdirs@[j]]
                0 <= j < i + 1 && no_source_named(ps, subdirs@[j]@) implies exists|t: int|
                    0 <= t < result@.len() && result@[t] == orphan_diag(subdirs@[j]@, root) by {
                if j < i {
                    let t = choose|t: int|
                        0 <= t < rentry.len() && rentry[t] == orphan_diag(subdirs@[j]@, root);
                    assert(result@[t] == orphan_diag(subdirs@[j]@, root));
                }
            }
        }
        i += 1;
    }
}

/// Appends the missing-directory errors: one per distinct source basename
/// that has no directory under the plugin root, with a remediation hint.
#[verifier::loop_isolation(false)]
#[verifier::rlimit(100)]
fn check_missing_entries(
    fs: &Fs,
    config: &crate::config::MarketplaceConfig,
    subdirs: &Vec<String>,
    basenames: &Vec<String>,
    result: &mut ValidationResult,
)
    requires
        fs.wf(),
        basenames@.len() == config.marketplace@.plugins.len(),
        forall|j: int| #![trigger basenames@[j]] 0 <= j < basenames@.len() ==> basenames@[j]@
            == crate::resolution::source_basename(config.marketplace@.plugins[j].source),
        forall|j: int| #![trigger subdirs@[j]] 0 <= j < subdirs@.len() ==> is_child_name(
            fs.dir_set(),
            config.plugin_root_abs@,
            subdirs@[j]@,
        ),
        forall|n: Seq<char>|
            is_child_name(fs.dir_set(), config.plugin_root_abs@, n) ==> exists|j: int|
                0 <= j < subdirs@.len() && subdirs@[j]@ == n,
    ensures
        some_error(final(result)@) == (some_error(old(result)@) || !entries_on_disk(
            fs.dir_set(),
            config.plugin_root_abs@,
            config.marketplace@.plugins,
        )),
        final(result)@.len() >= old(result)@.len(),
        forall|t: int| 0 <= t < old(result)@.len() ==> final(result)@[t] == old(result)@[t],
        forall|j: int|
            #![trigger config.marketplace@.plugins[j]]
            0 <= j < config.marketplace@.plugins.len() && !is_child_name(
                fs.dir_set(),
                config.plugin_root_abs@,
                crate::resolution::source_basename(config.marketplace@.plugins[j].source),
            ) ==> exists|t: int|
                0 <= t < final(result)@.len() && final(result)@[t] == missing_diag(
                    crate::resolution::source_basename(config.marketplace@.plugins[j].source),
                    config.marketplace_path@,
                ),
{
    let ghost dirs = fs.dir_set();
    let ghost root = config.plugin_root_abs@;
    let ghost ps = config.marketplace@.plugins;
    let ghost mpv = config.marketplace_path@;
    let n = basenames.len();
    let mut handled: Vec<String> = Vec::new();
    let mut i: usize = 0;
    while i < n
        invariant
            i <= n,
            forall|h: int| #![trigger handled@[h]] 0 <= h < handled@.len() ==> exists|j: int|
                0 <= j < i && crate::resolution::source_basename(#[trigger] ps[j].source)
                    == handled@[h]@ && !is_child_name(dirs, root, handled@[h]@),
            some_error(result@) == (some_error(old(result)@) || missing_before(
                dirs,
                root,
                ps,
                i as int,
            )),
            result@.len() >= old(result)@.len(),
            forall|t: int| 0 <= t < old(result)@.len() ==> result@[t] == old(result)@[t],
            forall|j: int|
                #![trigger ps[j]]
                0 <= j < i && !is_child_name(
                    dirs,
                    root,
                    crate::resolution::source_basename(ps[j].source),
                ) ==> exists|t: int|
                    0 <= t < result@.len() && result@[t] == missing_diag(
                        crate::resolution::source_basename(ps[j].source),
                        mpv,
                    ),
        decreases n - i,
    {
        let ghost rentry = result@;
        let ghost handledpre = handled@;
        let bn = &basenames[i];
        let missing = !crate::fsm::contains_string(subdirs, bn.as_str());
        proof {
            if missing {
                assert(!is_child_name(dirs, root, bn@)) by {
                    if is_child_name(dirs, root, bn@) {
                        let j = choose|j: int| 0 <= j < subdirs@.len() && subdirs@[j]@ == bn@;
                    }
                }
            } else {
                let j = choose|j: int| 0 <= j < subdirs@.len() && subdirs@[j]@ == bn@;
                assert(is_child_name(dirs, root, subdirs@[j]@));
            }
        }
        if missing {
            if !crate::fsm::contains_string(&handled, bn.as_str()) {
                let mut msg = "Plugin in marketplace but not in filesystem: ".to_owned();
                msg.append(bn.as_str());
                msg.append(". Run `souk remove ");
                msg.append(bn.as_str());
                msg.append("` to clean up the stale entry.");
                let d = ValidationDiagnostic::error(msg.as_str()).with_path(
                    config.marketplace_path.as_str(),
                );
                proof {
                    crate::errors::lemma_some_error_push(result@, d@);
                }
                let ghost dv = d@;
                let ghost rpre = result@;
                result.push(d);
                proof {
                    assert(bn@ == crate::resolution::source_basename(ps[i as int].source));
                    assert(dv == missing_diag(
                        crate::resolution::source_basename(ps[i as int].source),
                        mpv,
                    ));
                    assert(result@[rpre.len() as int] == dv);
                }
                handled.push(bn.clone());
                proof {
                    assert(handled@.drop_last() =~= handledpre);
                    assert forall|h: int| #![trigger handled@[h]] 0 <= h < handled@.len() implies
                        exists|j: int|
                            0 <= j < i + 1 && crate::resolution::source_basename(
                                #[trigger] ps[j].source,
                            ) == handled@[h]@ && !is_child_name(dirs, root, handled@[h]@) by {
                        if h < handled@.len() - 1 {
                            let j = choose|j: int|
                                0 <= j < i && crate::resolution::source_basename(
                                    #[trigger] ps[j].source,
                                ) == handledpre[h]@ && !is_child_name(dirs, root, handledpre[h]@);
                            assert(crate::resolution::source_basename(ps[j].source)
                                == handled@[h]@);
                        } else {
                            assert(crate::resolution::source_basename(ps[i as int].source)
                                == handled@[h]@);
                        }
                    }
                    assert(missing_before(dirs, root, ps, i as int + 1)) by {
                        assert(!is_child_name(
                            dirs,
                            root,
                            crate::resolution::source_basename(ps[i as int].source),
                        ));
                    }
                }
            } else {
                proof {
                    let h = choose|h: int| 0 <= h < handled@.len() && handled@[h]@ == bn@;
                    let j = choose|j: int|
                        0 <= j < i && crate::resolution::source_basename(#[trigger] ps[j].source)
                            == handled@[h]@ && !is_child_name(dirs, root, handled@[h]@);
                    assert(missing_before(dirs, root, ps, i as int));
                    assert(missing_before(dirs, root, ps, i as int + 1));
                    let t = choose|t: int|
                        0 <= t < result@.len() && result@[t] == missing_diag(
                            crate::resolution::source_basename(ps[j].source),
                            mpv,
                        );
                    assert(bn@ == crate::resolution::source_basename(ps[i as int].source));
                    assert(result@[t] == missing_diag(
                        crate::resolution::source_basename(ps[i as int].source),
                        mpv,
                    ));
                }
            }
        } else {
            proof {
                assert(missing_before(dirs, root, ps, i as int + 1) == missing_before(
                    dirs,
                    root,
                    ps,
                    i as int,
                )) by {
                    if missing_before(dirs, root, ps, i as int + 1) {
                        let j = choose|j: int|
                            0 <= j < i + 1 && !is_child_name(
                                dirs,
                                root,
                                crate::resolution::source_basename(#[trigger] ps[j].source),
                            );
                        if j == i {
                            assert(is_child_name(dirs, root, bn@));
                        } else {
                            assert(missing_before(dirs, root, ps, i as int));
                        }
                    }
                }
            }
        }
        proof {
            assert forall|j: int|
                #![trigger ps[j]]
                0 <= j < i + 1 && !is_child_name(
                    dirs,
                    root,
                    crate::resolution::source_basename(ps[j].source),
                ) implies exists|t: int|
                    0 <= t < result@.len() && result@[t] == missing_diag(
                        crate::resolution::source_basename(ps[j].source),
                        mpv,
                    ) by {
                if j < i {
                    let t = choose|t: int|
                        0 <= t < rentry.len() && rentry[t] == missing_diag(
                            crate::resolution::source_basename(ps[j].source),
                            mpv,
                        );
                    assert(result@[t] == missing_diag(
                        crate::resolution::source_basename(ps[j].source),
                        mpv,
                    ));
                }
            }
        }
        i += 1;
    }
    proof {
        assert(missing_before(dirs, root, ps, n as int) == !entries_on_disk(dirs, root, ps));
        assert(n as int == ps.len());
    }
}

/// Merges a full plugin validation for every resolvable entry.
#[verifier::loop_isolation(false)]
#[verifier::rlimit(100)]
fn check_entry_plugins(
    fs: &Fs,
    config: &crate::config::MarketplaceConfig,
    result: &mut ValidationResult,
)
    requires
        fs.wf(),
    ensures
        some_error(final(result)@) == (some_error(old(result)@) || !entry_plugins_ok(
            fs.file_map(),
            fs.dir_set(),
            config.project_root@,
            config.plugin_root_abs@,
            config.marketplace@.plugins,
        )),
        final(result)@.len() >= old(result)@.len(),
        forall|t: int| 0 <= t < old(result)@.len() ==> final(result)@[t] == old(result)@[t],
{
    let ghost files = fs.file_map();
    let ghost dirs = fs.dir_set();
    let ghost root = config.plugin_root_abs@;
    let ghost pr = config.project_root@;
    let ghost ps = config.marketplace@.plugins;
    let mp = &config.marketplace;
    let n = mp.plugins.len();
    let mut i: usize = 0;
    while i < n
        invariant
            i <= n,
            n == mp.plugins@.len(),
            some_error(result@) == (some_error(old(result)@) || plugin_err_before(
                files,
                dirs,
                pr,
                root,
                ps,
                i as int,
            )),
            result@.len() >= old(result)@.len(),
            forall|t: int| 0 <= t < old(result)@.len() ==> result@[t] == old(result)@[t],
        decreases n - i,
    {
        let ghost rpj = crate::resolution::resolve_source_spec(ps[i as int].source, pr, root);
        let rp = match crate::resolution::resolve_source(mp.plugins[i].source.as_str(), config) {
            Ok(p) => p,
            Err(_) => {
                proof {
                    assert(false);
                }
                return ;
            },
        };
        let present = fs.has_dir(rp.as_str());
        if present {
            let sub = validate_plugin(fs, rp.as_str());
            let ghost before = result@;
            let ghost subv = sub@;
            result.merge(sub);
            proof {
                crate::errors::lemma_some_error_concat(before, subv);
            }
        }
        proof {
            assert(plugin_err_before(files, dirs, pr, root, ps, i as int + 1) == (
            plugin_err_before(files, dirs, pr, root, ps, i as int) || (dirs.contains(rpj)
                && some_error(plugin_diags(files, dirs, rpj))))) by {
                if plugin_err_before(files, dirs, pr, root, ps, i as int + 1) {
                    let j = choose|j: int|
                        #![trigger ps[j]]
                        0 <= j < i + 1 && dirs.contains(
                            crate::resolution::resolve_source_spec(ps[j].source, pr, root),
                        ) && some_error(
                            plugin_diags(
                                files,
                                dirs,
                                crate::resolution::resolve_source_spec(ps[j].source, pr, root),
                            ),
                        );
                    if j < i {
                        assert(plugin_err_before(files, dirs, pr, root, ps, i as int));
                    }
                }
                if plugin_err_before(files, dirs, pr, root, ps, i as int) {
                    let j = choose|j: int|
                        #![trigger ps[j]]
                        0 <= j < i && dirs.contains(
                            crate::resolution::resolve_source_spec(ps[j].source, pr, root),
                        ) && some_error(
                            plugin_diags(
                                files,
                                dirs,
                                crate::resolution::resolve_source_spec(ps[j].source, pr, root),
                            ),
                        );
                    assert(plugin_err_before(files, dirs, pr, root, ps, i as int + 1));
                }
                if dirs.contains(rpj) && some_error(plugin_diags(files, dirs, rpj)) {
                    assert(plugin_err_before(files, dirs, pr, root, ps, i as int + 1));
                }
            }
        }
        i += 1;
    }
    proof {
        assert(plugin_err_before(files, dirs, pr, root, ps, n as int) == !entry_plugins_ok(
            files,
            dirs,
            pr,
            root,
            ps,
        ));
    }
}

/// Validates a whole registry configuration: version format, plugin-root
/// existence, duplicate names, empty fields, filesystem completeness (a
/// warning for each on-disk directory absent from the registry, an error for
/// each entry absent on disk), and — unless `skip_plugins` is set — a full
/// plugin validation of every resolvable entry.
#[verifier::loop_isolation(false)]
#[verifier::rlimit(60)]
pub fn validate_marketplace(
    fs: &Fs,
    config: &crate::config::MarketplaceConfig,
    skip_plugins: bool,
) -> (r: ValidationResult)
    requires
        fs.wf(),
    ensures
        some_error(r@) == registry_errors(
            fs.file_map(),
            fs.dir_set(),
            config.project_root@,
            config.plugin_root_abs@,
            config.marketplace@,
            skip_plugins,
        ),
        semver_triple(config.marketplace@.version) is None ==> exists|t: int|
            0 <= t < r@.len() && #[trigger] r@[t] == bad_version_diag(
                config.marketplace@.version,
                config.marketplace_path@,
            ),
        !fs.dir_set().contains(config.plugin_root_abs@) ==> exists|t: int|
            0 <= t < r@.len() && #[trigger] r@[t] == missing_root_diag(
                config.plugin_root_abs@,
                config.marketplace_path@,
            ),
        forall|x: int, y: int|
            #![trigger config.marketplace@.plugins[x].name, config.marketplace@.plugins[y].name]
            0 <= x < y < config.marketplace@.plugins.len()
                && config.marketplace@.plugins[x].name == config.marketplace@.plugins[y].name
                ==> exists|t: int|
                0 <= t < r@.len() && r@[t] == dup_diag(
                    config.marketplace@.plugins[y].name,
                    config.marketplace_path@,
                ),
        forall|j: int|
            #![trigger config.marketplace@.plugins[j]]
            0 <= j < config.marketplace@.plugins.len()
                && config.marketplace@.plugins[j].name.len() == 0 ==> exists|t: int|
                0 <= t < r@.len() && r@[t] == empty_name_diag(j as nat, config.marketplace_path@),
        forall|j: int|
            #![trigger config.marketplace@.plugins[j]]
            0 <= j < config.marketplace@.plugins.len()
                && config.marketplace@.plugins[j].source.len() == 0 ==> exists|t: int|
                0 <= t < r@.len() && r@[t] == empty_source_diag(
                    j as nat,
                    config.marketplace_path@,
                ),
        fs.dir_set().contains(config.plugin_root_abs@) ==> forall|nm: Seq<char>|
            #[trigger] is_child_name(fs.dir_set(), config.plugin_root_abs@, nm)
                && no_source_named(config.marketplace@.plugins, nm) ==> exists|t: int|
                0 <= t < r@.len() && r@[t] == orphan_diag(nm, config.plugin_root_abs@),
        fs.dir_set().contains(config.plugin_root_abs@) ==> forall|j: int|
            #![trigger config.marketplace@.plugins[j]]
            0 <= j < config.marketplace@.plugins.len() && !is_child_name(
                fs.dir_set(),
                config.plugin_root_abs@,
                crate::resolution::source_basename(config.marketplace@.plugins[j].source),
            ) ==> exists|t: int|
                0 <= t < r@.len() && r@[t] == missing_diag(
                    crate::resolution::source_basename(config.marketplace@.plugins[j].source),
                    config.marketplace_path@,
                ),
{
    let ghost dirs = fs.dir_set();
    let ghost root = config.plugin_root_abs@;
    let ghost mpv = config.marketplace_path@;
    let ghost ps = config.marketplace@.plugins;
    let mp = &config.marketplace;
    let mut result = ValidationResult::new();

    let version_bad = matches!(crate::version::parse_semver(mp.version.as_str()), None);
    if version_bad {
        let mut msg = "Invalid marketplace version: ".to_owned();
        msg.append(mp.version.as_str());
        let d = ValidationDiagnostic::error(msg.as_str()).with_path(
            config.marketplace_path.as_str(),
        ).with_field("version");
        proof {
            crate::errors::lemma_some_error_push(result@, d@);
        }
        let ghost dv = d@;
        let ghost rpre = result@;
        result.push(d);
        proof {
            assert(dv == bad_version_diag(config.marketplace@.version, mpv));
            assert(result@[rpre.len() as int] == dv);
            assert(exists|t: int|
                0 <= t < result@.len() && result@[t] == bad_version_diag(
                    config.marketplace@.version,
                    mpv,
                ));
        }
    }
    let ghost rv = result@;

    let root_missing = !fs.has_dir(config.plugin_root_abs.as_str());
    if root_missing {
        let mut msg = "Plugin root directory not found: ".to_owned();
        msg.append(config.plugin_root_abs.as_str());
        let d = ValidationDiagnostic::error(msg.as_str()).with_path(
            config.marketplace_path.as_str(),
        ).with_field("pluginRoot");
        proof {
            crate::errors::lemma_some_error_push(result@, d@);
        }
        let ghost dv = d@;
        let ghost rpre = result@;
        result.push(d);
        proof {
            assert(dv == missing_root_diag(root, mpv));
            assert(result@[rpre.len() as int] == dv);
        }
    }
    let ghost r1 = result@;
    proof {
        if semver_triple(config.marketplace@.version) is None {
            assert(r1.len() >= rv.len() && forall|t: int| 0 <= t < rv.len() ==> r1[t] == rv[t]);
            lemma_diag_persists(rv, r1, bad_version_diag(config.marketplace@.version, mpv));
        }
        if root_missing {
            assert(exists|t: int| 0 <= t < r1.len() && r1[t] == missing_root_diag(root, mpv));
        }
    }

    check_duplicates(config, &mut result);
    let ghost r2 = result@;
    check_entry_fields(config, &mut result);
    let ghost r3 = result@;

    if !root_missing {
        let subdirs = fs.subdir_names(config.plugin_root_abs.as_str());
        let basenames = entry_basenames(mp);
        check_orphan_warnings(config, &subdirs, &basenames, &mut result);
        let ghost r4 = result@;
        check_missing_entries(fs, config, &subdirs, &basenames, &mut result);
        let ghost r5 = result@;
        if !skip_plugins {
            check_entry_plugins(fs, config, &mut result);
        }
        proof {
            assert forall|t: int| 0 <= t < r1.len() implies result@[t] == r1[t] by {
                assert(r2[t] == r1[t]);
                assert(r3[t] == r2[t]);
                assert(r4[t] == r3[t]);
                assert(r5[t] == r4[t]);
                assert(result@[t] == r5[t]);
            }
            assert forall|t: int| 0 <= t < r2.len() implies result@[t] == r2[t] by {
                assert(r3[t] == r2[t]);
                assert(r4[t] == r3[t]);
                assert(r5[t] == r4[t]);
                assert(result@[t] == r5[t]);
            }
            assert forall|t: int| 0 <= t < r3.len() implies result@[t] == r3[t] by {
                assert(r4[t] == r3[t]);
                assert(r5[t] == r4[t]);
                assert(result@[t] == r5[t]);
            }
            assert forall|t: int| 0 <= t < r4.len() implies result@[t] == r4[t] by {
                assert(r5[t] == r4[t]);
                assert(result@[t] == r5[t]);
            }
            if semver_triple(config.marketplace@.version) is None {
                lemma_diag_persists(
                    r1,
                    result@,
                    bad_version_diag(config.marketplace@.version, mpv),
                );
            }
            assert forall|x: int, y: int|
                #![trigger ps[x].name, ps[y].name]
                0 <= x < y < ps.len() && ps[x].name == ps[y].name implies exists|t: int|
                    0 <= t < result@.len() && result@[t] == dup_diag(ps[y].name, mpv) by {
                let t = choose|t: int|
                    0 <= t < r2.len() && r2[t] == dup_diag(ps[y].name, mpv);
                assert(result@[t] == r2[t]);
            }
            assert forall|j: int|
                #![trigger ps[j]]
                0 <= j < ps.len() && ps[j].name.len() == 0 implies exists|t: int|
                    0 <= t < result@.len() && result@[t] == empty_name_diag(j as nat, mpv) by {
                let t = choose|t: int|
                    0 <= t < r3.len() && r3[t] == empty_name_diag(j as nat, mpv);
                assert(result@[t] == r3[t]);
            }
            assert forall|j: int|
                #![trigger ps[j]]
                0 <= j < ps.len() && ps[j].source.len() == 0 implies exists|t: int|
                    0 <= t < result@.len() && result@[t] == empty_source_diag(j as nat, mpv) by {
                let t = choose|t: int|
                    0 <= t < r3.len() && r3[t] == empty_source_diag(j as nat, mpv);
                assert(result@[t] == r3[t]);
            }
            assert forall|nm: Seq<char>|
                #[trigger] is_child_name(dirs, root, nm) && no_source_named(ps, nm) implies exists|
                    t: int,
                | 0 <= t < result@.len() && result@[t] == orphan_diag(nm, root) by {
                let j = choose|j: int| 0 <= j < subdirs@.len() && subdirs@[j]@ == nm;
                assert(no_source_named(ps, subdirs@[j]@));
                let t = choose|t: int|
                    0 <= t < r4.len() && r4[t] == orphan_diag(subdirs@[j]@, root);
                assert(result@[t] == r4[t]);
            }
            assert forall|j: int|
                #![trigger ps[j]]
                0 <= j < ps.len() && !is_child_name(
                    dirs,
                    root,
                    crate::resolution::source_basename(ps[j].source),
                ) implies exists|t: int|
                    0 <= t < result@.len() && result@[t] == missing_diag(
                        crate::resolution::source_basename(ps[j].source),
                        mpv,
                    ) by {
                let t = choose|t: int|
                    0 <= t < r5.len() && r5[t] == missing_diag(
                        crate::resolution::source_basename(ps[j].source),
                        mpv,
                    );
                assert(result@[t] == r5[t]);
            }
        }
        return result;
    }
    proof {
        assert forall|t: int| 0 <= t < r1.len() implies result@[t] == r1[t] by {
            assert(r2[t] == r1[t]);
            assert(r3[t] == r2[t]);
            assert(result@[t] == r3[t]);
        }
        assert forall|t: int| 0 <= t < r2.len() implies result@[t] == r2[t] by {
            assert(r3[t] == r2[t]);
            assert(result@[t] == r3[t]);
        }
        if semver_triple(config.marketplace@.version) is None {
            lemma_diag_persists(r1, result@, bad_version_diag(config.marketplace@.version, mpv));
        }
        lemma_diag_persists(r1, result@, missing_root_diag(root, mpv));
        assert forall|x: int, y: int|
            #![trigger ps[x].name, ps[y].name]
            0 <= x < y < ps.len() && ps[x].name == ps[y].name implies exists|t: int|
                0 <= t < result@.len() && result@[t] == dup_diag(ps[y].name, mpv) by {
            let t = choose|t: int| 0 <= t < r2.len() && r2[t] == dup_diag(ps[y].name, mpv);
            assert(result@[t] == r2[t]);
        }
        assert forall|j: int|
            #![trigger ps[j]]
            0 <= j < ps.len() && ps[j].name.len() == 0 implies exists|t: int|
                0 <= t < result@.len() && result@[t] == empty_name_diag(j as nat, mpv) by {
            let t = choose|t: int| 0 <= t < r3.len() && r3[t] == empty_name_diag(j as nat, mpv);
            assert(result@[t] == r3[t]);
        }
        assert forall|j: int|
            #![trigger ps[j]]
            0 <= j < ps.len() && ps[j].source.len() == 0 implies exists|t: int|
                0 <= t < result@.len() && result@[t] == empty_source_diag(j as nat, mpv) by {
            let t = choose|t: int| 0 <= t < r3.len() && r3[t] == empty_source_diag(j as nat, mpv);
            assert(result@[t] == r3[t]);
        }
    }
    result
}

} // verus!
