//! Git hook installation for the hook managers the tool knows about.
//!
//! Detects which hook manager a project uses and writes or extends the
//! matching configuration so the registry checks run before commits and
//! pushes.

use vstd::prelude::*;

use crate::errors::SoukError;
use crate::fsm::Fs;
use crate::paths::join;

verus! {

/// The supported git hook managers.
#[derive(Clone, Copy, PartialEq, Eq, Structural, Debug)]
pub enum HookManager {
    Native,
    Lefthook,
    Husky,
    Overcommit,
    Hk,
    SimpleGitHooks,
}

impl HookManager {
    /// The lowercase name of the hook manager.
    pub fn name(&self) -> (r: &'static str)
        ensures
            r@ == self.name_spec(),
    {
        match self {
            HookManager::Native => "native",
            HookManager::Lefthook => "lefthook",
            HookManager::Husky => "husky",
            HookManager::Overcommit => "overcommit",
            HookManager::Hk => "hk",
            HookManager::SimpleGitHooks => "simple-git-hooks",
        }
    }

    pub open spec fn name_spec(self) -> Seq<char> {
        match self {
            HookManager::Native => "native"@,
            HookManager::Lefthook => "lefthook"@,
            HookManager::Husky => "husky"@,
            HookManager::Overcommit => "overcommit"@,
            HookManager::Hk => "hk"@,
            HookManager::SimpleGitHooks => "simple-git-hooks"@,
        }
    }
}

/// Which hook manager the project uses, by its configuration files, in
/// priority order.
pub open spec fn detect_hook_manager_spec(
    files: Map<Seq<char>, Seq<char>>,
    dirs: Set<Seq<char>>,
    root: Seq<char>,
) -> Option<HookManager> {
    let entry = |n: Seq<char>| root + seq!['/'] + n;
    if files.contains_key(entry("lefthook.yml"@)) || dirs.contains(entry("lefthook.yml"@))
        || files.contains_key(entry("lefthook.yaml"@)) || dirs.contains(
        entry("lefthook.yaml"@),
    ) {
        Some(HookManager::Lefthook)
    } else if dirs.contains(entry(".husky"@)) {
        Some(HookManager::Husky)
    } else if files.contains_key(entry(".overcommit.yml"@)) || dirs.contains(
        entry(".overcommit.yml"@),
    ) {
        Some(HookManager::Overcommit)
    } else if files.contains_key(entry("hk.toml"@)) || dirs.contains(entry("hk.toml"@)) {
        Some(HookManager::Hk)
    } else if files.contains_key(entry(".simple-git-hooks.json"@)) || dirs.contains(
        entry(".simple-git-hooks.json"@),
    ) {
        Some(HookManager::SimpleGitHooks)
    } else {
        None
    }
}

fn entry_exists(fs: &Fs, root: &str, name: &str) -> (r: bool)
    requires
        fs.wf(),
    ensures
        r == (fs.file_map().contains_key(root@ + seq!['/'] + name@) || fs.dir_set().contains(
            root@ + seq!['/'] + name@,
        )),
{
    let p = join(root, name);
    fs.has_file(p.as_str()) || fs.has_dir(p.as_str())
}

/// Auto-detects the hook manager in use at the project root.
pub fn detect_hook_manager(fs: &Fs, project_root: &str) -> (r: Option<HookManager>)
    requires
        fs.wf(),
    ensures
        r == detect_hook_manager_spec(fs.file_map(), fs.dir_set(), project_root@),
{
    if entry_exists(fs, project_root, "lefthook.yml") || entry_exists(
        fs,
        project_root,
        "lefthook.yaml",
    ) {
        Some(HookManager::Lefthook)
    } else {
        let husky = join(project_root, ".husky");
        if fs.has_dir(husky.as_str()) {
            Some(HookManager::Husky)
        } else if entry_exists(fs, project_root, ".overcommit.yml") {
            Some(HookManager::Overcommit)
        } else if entry_exists(fs, project_root, "hk.toml") {
            Some(HookManager::Hk)
        } else if entry_exists(fs, project_root, ".simple-git-hooks.json") {
            Some(HookManager::SimpleGitHooks)
        } else {
            None
        }
    }
}

/// Whether `pat` occurs in `s` as a contiguous substring.
pub open spec fn contains_sub_spec(s: Seq<char>, pat: Seq<char>) -> bool {
    exists|i: int|
        0 <= i <= s.len() - pat.len() && #[trigger] s.subrange(i, i + pat.len() as int) == pat
}

/// Substring search.
#[verifier::loop_isolation(false)]
pub fn contains_sub(s: &str, pat: &str) -> (r: bool)
    ensures
        r == contains_sub_spec(s@, pat@),
{
    let slen = s.unicode_len();
    let plen = pat.unicode_len();
    if plen > slen {
        return false;
    }
    let mut i: usize = 0;
    while i <= slen - plen
        invariant
            plen <= slen,
            i <= slen - plen + 1,
            forall|x: int| 0 <= x < i ==> #[trigger] s@.subrange(x, x + pat@.len() as int)
                != pat@,
        decreases slen - plen + 1 - i,
    {
        let mut j: usize = 0;
        let mut matched = true;
        while j < plen
            invariant
                i + plen <= slen,
                j <= plen,
                matched == forall|y: int| 0 <= y < j ==> s@[i + y] == pat@[y],
            decreases plen - j,
        {
            if s.get_char(i + j) != pat.get_char(j) {
                matched = false;
            }
            j += 1;
        }
        if matched {
            proof {
                assert(s@.subrange(i as int, i + pat@.len() as int) =~= pat@);
            }
            return true;
        }
        proof {
            assert(s@.subrange(i as int, i + pat@.len() as int) != pat@) by {
                if s@.subrange(i as int, i + pat@.len() as int) == pat@ {
                    assert forall|y: int| 0 <= y < plen implies s@[i + y] == pat@[y] by {
                        assert(s@.subrange(i as int, i + pat@.len() as int)[y] == s@[i + y]);
                    }
                    let y0 = choose|y0: int| 0 <= y0 < plen && s@[i + y0] != pat@[y0];
                }
            }
        }
        i += 1;
    }
    false
}

/// The hook script for one native git hook.
pub open spec fn native_hook_text(hook: Seq<char>) -> Seq<char> {
    "#!/bin/sh\nsouk ci run "@ + hook + seq!['\n']
}

/// The configuration block appended for lefthook.
pub open spec fn lefthook_snippet() -> Seq<char> {
    "\npre-commit:\n  commands:\n    souk-validate:\n      run: souk ci run pre-commit\n\npre-push:\n  commands:\n    souk-validate:\n      run: souk ci run pre-push\n"@
}

/// Installs the hooks for the chosen manager at the project root, returning
/// a description of what was done.
///
/// Native hooks are written under `.git/hooks`; lefthook and husky files are
/// created or extended unless they already run the checks; the managers with
/// structured configuration get a commented block or a merged entry.
pub fn install_hooks(fs: &mut Fs, project_root: &str, manager: &HookManager) -> (r: Result<
    String,
    SoukError,
>)
    requires
        old(fs).wf(),
    ensures
        final(fs).wf(),
        r is Ok,
        *manager is Native ==> {
            let hooks = project_root@ + seq!['/'] + ".git"@ + seq!['/'] + "hooks"@;
            final(fs).file_map() == old(fs).file_map().insert(
                hooks + seq!['/'] + "pre-commit"@,
                native_hook_text("pre-commit"@),
            ).insert(hooks + seq!['/'] + "pre-push"@, native_hook_text("pre-push"@))
        },
        *manager is Lefthook ==> {
            let cfg = project_root@ + seq!['/'] + "lefthook.yml"@;
            let cfg2 = project_root@ + seq!['/'] + "lefthook.yaml"@;
            ||| final(fs).file_map() == old(fs).file_map()
            ||| (old(fs).file_map().contains_key(cfg) && final(fs).file_map() == old(
                fs,
            ).file_map().insert(cfg, old(fs).file_map()[cfg] + lefthook_snippet()))
            ||| (old(fs).file_map().contains_key(cfg2) && final(fs).file_map() == old(
                fs,
            ).file_map().insert(cfg2, old(fs).file_map()[cfg2] + lefthook_snippet()))
            ||| final(fs).file_map() == old(fs).file_map().insert(cfg, lefthook_snippet())
        },
{
    match manager {
        HookManager::Native => {
            let hooks_dir = join(join(project_root, ".git").as_str(), "hooks");
            fs.mkdir(hooks_dir.as_str());
            let mut pre_commit = "#!/bin/sh\nsouk ci run ".to_owned();
            pre_commit.append("pre-commit");
            pre_commit.append("\n");
            let mut pre_push = "#!/bin/sh\nsouk ci run ".to_owned();
            pre_push.append("pre-push");
            pre_push.append("\n");
            proof {
                reveal_strlit("\n");
                assert(pre_commit@ =~= native_hook_text("pre-commit"@));
                assert(pre_push@ =~= native_hook_text("pre-push"@));
            }
            fs.write_file(join(hooks_dir.as_str(), "pre-commit").as_str(), pre_commit);
            fs.write_file(join(hooks_dir.as_str(), "pre-push").as_str(), pre_push);
            Ok("Installed native git hooks".to_owned())
        },
        HookManager::Lefthook => {
            let yml = join(project_root, "lefthook.yml");
            let yaml = join(project_root, "lefthook.yaml");
            let config_path = if fs.has_file(yml.as_str()) {
                yml
            } else if fs.has_file(yaml.as_str()) {
                yaml
            } else {
                yml
            };
            let existing = match fs.read_file(config_path.as_str()) {
                Some(c) => c,
                None => "".to_owned(),
            };
            if contains_sub(existing.as_str(), "souk-validate") {
                return Ok("Lefthook hooks already configured".to_owned());
            }
            let mut content = existing;
            content.append(
                "\npre-commit:\n  commands:\n    souk-validate:\n      run: souk ci run pre-commit\n\npre-push:\n  commands:\n    souk-validate:\n      run: souk ci run pre-push\n",
            );
            proof {
                reveal_strlit("");
                assert(""@ =~= Seq::<char>::empty());
            }
            fs.write_file(config_path.as_str(), content);
            Ok("Appended souk hooks to the lefthook configuration".to_owned())
        },
        HookManager::Husky => {
            let husky_dir = join(project_root, ".husky");
            fs.mkdir(husky_dir.as_str());
            let pc = join(husky_dir.as_str(), "pre-commit");
            install_husky_hook(fs, pc.as_str(), "souk ci run pre-commit\n");
            let pp = join(husky_dir.as_str(), "pre-push");
            install_husky_hook(fs, pp.as_str(), "souk ci run pre-push\n");
            Ok("Installed husky hooks".to_owned())
        },
        HookManager::Overcommit => {
            append_note_unless(
                fs,
                join(project_root, ".overcommit.yml").as_str(),
                "SoukValidate",
                "\n# Add the following to your .overcommit.yml:\n#\n# PreCommit:\n#   SoukValidate:\n#     enabled: true\n#     command: ['souk', 'ci', 'run', 'pre-commit']\n#\n# PrePush:\n#   SoukValidate:\n#     enabled: true\n#     command: ['souk', 'ci', 'run', 'pre-push']\n",
            );
            Ok("Added souk hook configuration notes to the overcommit configuration".to_owned())
        },
        HookManager::Hk => {
            append_note_unless(
                fs,
                join(project_root, "hk.toml").as_str(),
                "souk-validate",
                "\n# Add the following to your hk.toml:\n#\n# [hooks.pre-commit.souk-validate]\n# run = \"souk ci run pre-commit\"\n#\n# [hooks.pre-push.souk-validate]\n# run = \"souk ci run pre-push\"\n",
            );
            Ok("Added souk hook configuration notes to the hk configuration".to_owned())
        },
        HookManager::SimpleGitHooks => {
            let path = join(project_root, ".simple-git-hooks.json");
            let existing = fs.read_file(path.as_str());
            match existing {
                Some(content) => {
                    if contains_sub(content.as_str(), "souk ci run") {
                        return Ok("simple-git-hooks already configured".to_owned());
                    }
                    match crate::json::parse_json(content.as_str()) {
                        Some(crate::json::Json::Obj(mut fields)) => {
                            if matches!(crate::types::lookup(&fields, "pre-commit"), None) {
                                fields.push(
                                    (
                                        "pre-commit".to_owned(),
                                        crate::json::Json::Str(
                                            "souk ci run pre-commit".to_owned(),
                                        ),
                                    ),
                                );
                            }
                            if matches!(crate::types::lookup(&fields, "pre-push"), None) {
                                fields.push(
                                    (
                                        "pre-push".to_owned(),
                                        crate::json::Json::Str("souk ci run pre-push".to_owned()),
                                    ),
                                );
                            }
                            let mut out = crate::json::json_to_string(
                                &crate::json::Json::Obj(fields),
                            );
                            out.append("\n");
                            fs.write_file(path.as_str(), out);
                            Ok("Merged souk hooks into the simple-git-hooks configuration".to_owned())
                        },
                        _ => Ok(
                            "Could not parse the simple-git-hooks configuration; merge the hooks by hand".to_owned(),
                        ),
                    }
                },
                None => {
                    let mut out =
                        "{\"pre-commit\":\"souk ci run pre-commit\",\"pre-push\":\"souk ci run pre-push\"}".to_owned();
                    out.append("\n");
                    fs.write_file(path.as_str(), out);
                    Ok("Created the simple-git-hooks configuration".to_owned())
                },
            }
        },
    }
}

/// Creates or extends one husky hook file, unless it already runs the check.
fn install_husky_hook(fs: &mut Fs, path: &str, line: &str)
    requires
        old(fs).wf(),
    ensures
        final(fs).wf(),
        final(fs).dir_set() == old(fs).dir_set(),
{
    let existing = fs.read_file(path);
    match existing {
        Some(content) => {
            if contains_sub(content.as_str(), "souk ci run") {
                return ;
            }
            let mut out = content;
            out.append("\n");
            out.append(line);
            fs.write_file(path, out);
        },
        None => {
            fs.write_file(path, line.to_owned());
        },
    }
}

/// Appends a commented configuration note unless the marker is present.
fn append_note_unless(fs: &mut Fs, path: &str, marker: &str, note: &str)
    requires
        old(fs).wf(),
    ensures
        final(fs).wf(),
        final(fs).dir_set() == old(fs).dir_set(),
{
    let existing = match fs.read_file(path) {
        Some(c) => c,
        None => "".to_owned(),
    };
    if contains_sub(existing.as_str(), marker) {
        return ;
    }
    let mut out = existing;
    out.append(note);
    fs.write_file(path, out);
}

} // verus!
