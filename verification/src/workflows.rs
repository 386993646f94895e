//! Continuous-integration workflow installation for the providers the tool
//! knows about.

use vstd::prelude::*;

use crate::errors::SoukError;
use crate::fsm::Fs;
use crate::hooks::contains_sub;
use crate::paths::join;

verus! {

/// The supported providers. Two GitHub-compatible services share the GitHub
/// workflow layout.
#[derive(Clone, Copy, PartialEq, Eq, Structural, Debug)]
pub enum CiProvider {
    GitHub,
    Blacksmith,
    Northflank,
    CircleCi,
    GitLab,
    Buildkite,
}

impl CiProvider {
    /// The lowercase name of the provider.
    pub fn name(&self) -> (r: &'static str)
        ensures
            r@ == self.name_spec(),
    {
        match self {
            CiProvider::GitHub => "github",
            CiProvider::Blacksmith => "blacksmith",
            CiProvider::Northflank => "northflank",
            CiProvider::CircleCi => "circleci",
            CiProvider::GitLab => "gitlab",
            CiProvider::Buildkite => "buildkite",
        }
    }

    pub open spec fn name_spec(self) -> Seq<char> {
        match self {
            CiProvider::GitHub => "github"@,
            CiProvider::Blacksmith => "blacksmith"@,
            CiProvider::Northflank => "northflank"@,
            CiProvider::CircleCi => "circleci"@,
            CiProvider::GitLab => "gitlab"@,
            CiProvider::Buildkite => "buildkite"@,
        }
    }
}

/// Which provider the project uses, by its configuration entries, in
/// priority order.
pub open spec fn detect_ci_provider_spec(
    files: Map<Seq<char>, Seq<char>>,
    dirs: Set<Seq<char>>,
    root: Seq<char>,
) -> Option<CiProvider> {
    if dirs.contains(root + seq!['/'] + ".github"@ + seq!['/'] + "workflows"@) {
        Some(CiProvider::GitHub)
    } else if dirs.contains(root + seq!['/'] + ".circleci"@) {
        Some(CiProvider::CircleCi)
    } else if files.contains_key(root + seq!['/'] + ".gitlab-ci.yml"@) || dirs.contains(
        root + seq!['/'] + ".gitlab-ci.yml"@,
    ) {
        Some(CiProvider::GitLab)
    } else if dirs.contains(root + seq!['/'] + ".buildkite"@) {
        Some(CiProvider::Buildkite)
    } else {
        None
    }
}

/// Auto-detects the provider in use at the project root.
pub fn detect_ci_provider(fs: &Fs, project_root: &str) -> (r: Option<CiProvider>)
    requires
        fs.wf(),
    ensures
        r == detect_ci_provider_spec(fs.file_map(), fs.dir_set(), project_root@),
{
    let gh = join(join(project_root, ".github").as_str(), "workflows");
    if fs.has_dir(gh.as_str()) {
        return Some(CiProvider::GitHub);
    }
    let cc = join(project_root, ".circleci");
    if fs.has_dir(cc.as_str()) {
        return Some(CiProvider::CircleCi);
    }
    let gl = join(project_root, ".gitlab-ci.yml");
    if fs.has_file(gl.as_str()) || fs.has_dir(gl.as_str()) {
        return Some(CiProvider::GitLab);
    }
    let bk = join(project_root, ".buildkite");
    if fs.has_dir(bk.as_str()) {
        return Some(CiProvider::Buildkite);
    }
    None
}

/// Installs the validation workflow for the chosen provider, returning a
/// description of what was done. An existing configuration that already runs
/// the validation is left alone; GitLab and CircleCI configurations are
/// extended rather than replaced.
pub fn install_workflow(fs: &mut Fs, project_root: &str, provider: &CiProvider) -> (r: Result<
    String,
    SoukError,
>)
    requires
        old(fs).wf(),
    ensures
        final(fs).wf(),
        r is Ok,
{
    match provider {
        CiProvider::GitHub | CiProvider::Blacksmith | CiProvider::Northflank => {
            let dir = join(join(project_root, ".github").as_str(), "workflows");
            fs.mkdir(join(project_root, ".github").as_str());
            fs.mkdir(dir.as_str());
            let path = join(dir.as_str(), "souk-validate.yml");
            match fs.read_file(path.as_str()) {
                Some(existing) => {
                    if contains_sub(existing.as_str(), "souk validate marketplace") {
                        return Ok("The validation workflow already exists".to_owned());
                    }
                },
                None => {},
            }
            fs.write_file(
                path.as_str(),
                "name: Souk Marketplace Validation\n\non:\n  push:\n    paths:\n      - '.plugin-meta/**'\n      - 'plugins/**'\n  pull_request:\n    paths:\n      - '.plugin-meta/**'\n      - 'plugins/**'\n\njobs:\n  validate:\n    runs-on: ubuntu-latest\n    steps:\n      - uses: actions/checkout@v4\n\n      - name: Install souk\n        run: cargo install souk\n\n      - name: Validate marketplace\n        run: souk validate marketplace\n".to_owned(),
            );
            Ok("Created the validation workflow".to_owned())
        },
        CiProvider::CircleCi => {
            fs.mkdir(join(project_root, ".circleci").as_str());
            let path = join(join(project_root, ".circleci").as_str(), "config.yml");
            match fs.read_file(path.as_str()) {
                Some(existing) => {
                    if contains_sub(existing.as_str(), "souk-validate") {
                        return Ok("The validation job already exists".to_owned());
                    }
                    let mut out = existing;
                    out.append(
                        "\n# --- Souk validation (merge into your config) ---\n# Add the following job to your existing workflows:\n#\n# jobs:\n#   souk-validate:\n#     docker:\n#       - image: cimg/rust:1.80\n#     steps:\n#       - checkout\n#       - run:\n#           name: Install souk\n#           command: cargo install souk\n#       - run:\n#           name: Validate marketplace\n#           command: souk validate marketplace\n",
                    );
                    fs.write_file(path.as_str(), out);
                    Ok("Appended a commented validation job to the configuration".to_owned())
                },
                None => {
                    fs.write_file(
                        path.as_str(),
                        "version: 2.1\n\njobs:\n  souk-validate:\n    docker:\n      - image: cimg/rust:1.80\n    steps:\n      - checkout\n      - run:\n          name: Install souk\n          command: cargo install souk\n      - run:\n          name: Validate marketplace\n          command: souk validate marketplace\n\nworkflows:\n  validate:\n    jobs:\n      - souk-validate:\n          filters:\n            branches:\n              only: /.*/\n".to_owned(),
                    );
                    Ok("Created the validation configuration".to_owned())
                },
            }
        },
        CiProvider::GitLab => {
            let path = join(project_root, ".gitlab-ci.yml");
            let template =
                "souk-validate:\n  stage: test\n  image: rust:1.80\n  script:\n    - cargo install souk\n    - souk validate marketplace\n  rules:\n    - changes:\n        - .plugin-meta/**/*\n        - plugins/**/*\n";
            match fs.read_file(path.as_str()) {
                Some(existing) => {
                    if contains_sub(existing.as_str(), "souk-validate") {
                        return Ok("The validation job already exists".to_owned());
                    }
                    let mut out = existing;
                    out.append("\n");
                    out.append(template);
                    fs.write_file(path.as_str(), out);
                    Ok("Appended the validation job to the configuration".to_owned())
                },
                None => {
                    fs.write_file(path.as_str(), template.to_owned());
                    Ok("Created the validation configuration".to_owned())
                },
            }
        },
        CiProvider::Buildkite => {
            fs.mkdir(join(project_root, ".buildkite").as_str());
            let path = join(join(project_root, ".buildkite").as_str(), "pipeline.yml");
            match fs.read_file(path.as_str()) {
                Some(existing) => {
                    if contains_sub(existing.as_str(), "souk validate marketplace") || contains_sub(
                        existing.as_str(),
                        "Validate Marketplace",
                    ) {
                        return Ok("The validation step already exists".to_owned());
                    }
                },
                None => {},
            }
            fs.write_file(
                path.as_str(),
                "steps:\n  - label: \":souk: Validate Marketplace\"\n    command:\n      - cargo install souk\n      - souk validate marketplace\n    agents:\n      queue: default\n".to_owned(),
            );
            Ok("Created the validation pipeline".to_owned())
        },
    }
}

} // verus!
