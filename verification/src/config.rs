//! Loading the registry configuration: the manifest file, the project root
//! and the resolved plugin-root directory.

use vstd::prelude::*;

use crate::errors::SoukError;
use crate::fsm::Fs;
use crate::json::json_parse;
use crate::paths::{dirname_spec, has_slash, join, parent_dir};
use crate::types::{extract_marketplace, market_of_json, Marketplace, MarketView};

verus! {

/// One loaded registry configuration: all paths absolute, the document as
/// parsed. Treated as an immutable snapshot for one command invocation;
/// the mutation pipelines re-read the manifest from the filesystem state
/// rather than trusting `marketplace`, which may be stale by the time they
/// write.
pub struct MarketplaceConfig {
    pub marketplace_path: String,
    pub project_root: String,
    pub plugin_root_abs: String,
    pub marketplace: Marketplace,
}

/// The registry document found at `path` in the file map `m`, if the file
/// exists, parses as JSON and reads as a registry document.
pub open spec fn doc_at(m: Map<Seq<char>, Seq<char>>, path: Seq<char>) -> Option<MarketView> {
    if m.contains_key(path) {
        match json_parse(m[path]) {
            Some(v) => market_of_json(v),
            None => None,
        }
    } else {
        None
    }
}

/// Reads and parses the registry document at `path`.
pub fn load_marketplace_doc(fs: &Fs, path: &str) -> (r: Result<Marketplace, SoukError>)
    requires
        fs.wf(),
    ensures
        match r {
            Ok(doc) => doc_at(fs.file_map(), path@) == Some(doc@),
            Err(e) => doc_at(fs.file_map(), path@) is None && (e is Io || e is Json),
        },
{
    let content = match fs.read_file(path) {
        Some(c) => c,
        None => {
            return Err(SoukError::Io(path.to_owned()));
        },
    };
    let v = match crate::json::parse_json(content.as_str()) {
        Some(v) => v,
        None => {
            return Err(SoukError::Json(path.to_owned()));
        },
    };
    match extract_marketplace(&v) {
        Some(doc) => Ok(doc),
        None => Err(SoukError::Json(path.to_owned())),
    }
}

/// Where the plugin root of document `m` lies, relative to `project_root`:
/// an absolute override stands alone, anything else hangs off the project
/// root with its `./` stripped.
pub open spec fn plugin_root_abs_spec(m: MarketView, project_root: Seq<char>) -> Seq<char> {
    let norm = m.normalized_plugin_root_spec();
    if norm[0] == '/' {
        norm
    } else {
        project_root + seq!['/'] + norm.skip(2)
    }
}

/// Loads the configuration around the manifest at `path`: the document, the
/// project root (two levels up from the manifest), and the plugin root, which
/// must exist as a directory.
pub fn load_marketplace_config(fs: &Fs, path: &str) -> (r: Result<MarketplaceConfig, SoukError>)
    requires
        fs.wf(),
    ensures
        match r {
            Ok(c) => {
                &&& doc_at(fs.file_map(), path@) == Some(c.marketplace@)
                &&& c.marketplace_path@ == path@
                &&& c.project_root@ == dirname_spec(dirname_spec(path@))
                &&& c.plugin_root_abs@ == plugin_root_abs_spec(c.marketplace@, c.project_root@)
                &&& fs.dir_set().contains(c.plugin_root_abs@)
            },
            Err(_) => true,
        },
{
    let marketplace = match load_marketplace_doc(fs, path) {
        Ok(doc) => doc,
        Err(e) => {
            return Err(e);
        },
    };
    let meta_dir = match parent_dir(path) {
        Some(d) => d,
        None => {
            return Err(SoukError::Other(path.to_owned()));
        },
    };
    let project_root = match parent_dir(meta_dir.as_str()) {
        Some(d) => d,
        None => {
            return Err(SoukError::Other(path.to_owned()));
        },
    };
    let norm = marketplace.normalized_plugin_root();
    let plugin_root_abs = if norm.as_str().get_char(0) == '/' {
        norm
    } else {
        let rest = norm.as_str().substring_char(2, norm.as_str().unicode_len());
        join(project_root.as_str(), rest)
    };
    if !fs.has_dir(plugin_root_abs.as_str()) {
        return Err(SoukError::Other(plugin_root_abs));
    }
    Ok(
        MarketplaceConfig {
            marketplace_path: path.to_owned(),
            project_root,
            plugin_root_abs,
            marketplace,
        },
    )
}

/// Walks upward from `start_dir` looking for `.plugin-meta/marketplace.json`,
/// stopping at a directory that holds a `.git` entry or at the top.
pub fn discover_marketplace(fs: &Fs, start_dir: &str) -> (r: Result<String, SoukError>)
    requires
        fs.wf(),
    ensures
        match r {
            Ok(p) => fs.file_map().contains_key(p@),
            Err(e) => e matches SoukError::MarketplaceNotFound(d) && d@ == start_dir@,
        },
{
    let mut current = start_dir.to_owned();
    loop
        invariant
            fs.wf(),
        decreases current@.len(),
    {
        let meta = join(current.as_str(), ".plugin-meta");
        let candidate = join(meta.as_str(), "marketplace.json");
        if fs.has_file(candidate.as_str()) {
            return Ok(candidate);
        }
        let git = join(current.as_str(), ".git");
        if fs.has_dir(git.as_str()) || fs.has_file(git.as_str()) {
            break;
        }
        match parent_dir(current.as_str()) {
            Some(parent) => {
                if parent.unicode_len() == 0 {
                    break;
                }
                proof {
                    crate::paths::lemma_dirname_shorter(current@);
                }
                current = parent;
            },
            None => {
                break;
            },
        }
    }
    Err(SoukError::MarketplaceNotFound(start_dir.to_owned()))
}

} // verus!
