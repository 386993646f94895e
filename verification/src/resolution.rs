//! Resolving plugin inputs and registry sources to directory paths.

use vstd::prelude::*;

use crate::config::MarketplaceConfig;
use crate::errors::SoukError;
use crate::fsm::Fs;
use crate::paths::{basename, basename_spec, is_under, join, starts_with, under};
use crate::types::EntryView;

verus! {

/// Where a registry source string points: an absolute source stands alone, a
/// `./` or `../` source hangs off the project root (with a leading `./`
/// stripped), anything else names a directory under the plugin root.
pub open spec fn resolve_source_spec(
    source: Seq<char>,
    project_root: Seq<char>,
    plugin_root_abs: Seq<char>,
) -> Seq<char> {
    if source.len() >= 1 && source[0] == '/' {
        source
    } else if source.len() >= 2 && source[0] == '.' && source[1] == '/' {
        project_root + seq!['/'] + source.skip(2)
    } else if source.len() >= 3 && source[0] == '.' && source[1] == '.' && source[2] == '/' {
        project_root + seq!['/'] + source
    } else {
        plugin_root_abs + seq!['/'] + source
    }
}

/// Resolves a registry source string to a directory path.
pub fn resolve_source(source: &str, config: &MarketplaceConfig) -> (r: Result<String, SoukError>)
    ensures
        r is Ok && r->Ok_0@ == resolve_source_spec(
            source@,
            config.project_root@,
            config.plugin_root_abs@,
        ),
{
    let len = source.unicode_len();
    if len >= 1 && source.get_char(0) == '/' {
        Ok(source.to_owned())
    } else if starts_with(source, "./") {
        proof {
            reveal_strlit("./");
            assert(source@.subrange(0, 2) =~= seq![source@[0], source@[1]]);
        }
        let rest = source.substring_char(2, len);
        Ok(join(config.project_root.as_str(), rest))
    } else if starts_with(source, "../") {
        proof {
            reveal_strlit("../");
            assert(source@.subrange(0, 3) =~= seq![source@[0], source@[1], source@[2]]);
        }
        Ok(join(config.project_root.as_str(), source))
    } else {
        proof {
            reveal_strlit("./");
            reveal_strlit("../");
            if source@.len() >= 2 && source@[0] == '.' && source@[1] == '/' {
                assert(source@.subrange(0, 2) =~= "./"@);
            }
            if source@.len() >= 3 && source@[0] == '.' && source@[1] == '.' && source@[2] == '/' {
                assert(source@.subrange(0, 3) =~= "../"@);
            }
        }
        Ok(join(config.plugin_root_abs.as_str(), source))
    }
}

/// The first path component of `s`: everything up to the first separator.
pub open spec fn first_component(s: Seq<char>) -> Seq<char>
    decreases s.len(),
{
    if s.len() == 0 {
        s
    } else if s[0] == '/' {
        Seq::empty()
    } else {
        seq![s[0]] + first_component(s.drop_first())
    }
}

pub proof fn lemma_first_component_at_pub(s: Seq<char>, i: int)
    requires
        0 <= i <= s.len(),
        forall|k: int| 0 <= k < i ==> s[k] != '/',
        i == s.len() || s[i] == '/',
    ensures
        first_component(s) == s.subrange(0, i),
{
    lemma_first_component_at(s, i);
}

proof fn lemma_first_component_at(s: Seq<char>, i: int)
    requires
        0 <= i <= s.len(),
        forall|k: int| 0 <= k < i ==> s[k] != '/',
        i == s.len() || s[i] == '/',
    ensures
        first_component(s) == s.subrange(0, i),
    decreases i,
{
    if s.len() == 0 {
        assert(first_component(s) =~= s.subrange(0, i));
    } else if i == 0 {
        assert(first_component(s) =~= s.subrange(0, 0));
    } else {
        lemma_first_component_at(s.drop_first(), i - 1);
        assert(first_component(s) =~= s.subrange(0, i));
    }
}

/// The source string and internal/external classification for a plugin that
/// lives at `path`: inside the plugin root it is named by its first component
/// below the root; outside, by its full path.
pub open spec fn path_to_source_spec(path: Seq<char>, root: Seq<char>) -> (Seq<char>, bool) {
    if under(path, root) {
        if path == root {
            (Seq::empty(), true)
        } else {
            (first_component(path.skip(root.len() as int + 1)), true)
        }
    } else {
        (path, false)
    }
}

/// Turns a plugin directory path into the source value to store in the
/// registry, classifying the plugin as internal (inside the plugin root) or
/// external.
#[verifier::loop_isolation(false)]
pub fn plugin_path_to_source(path: &str, config: &MarketplaceConfig) -> (r: (String, bool))
    ensures
        (r.0@, r.1) == path_to_source_spec(path@, config.plugin_root_abs@),
{
    let root = config.plugin_root_abs.as_str();
    if is_under(path, root) {
        let plen = path.unicode_len();
        let rlen = root.unicode_len();
        if plen == rlen {
            proof {
                reveal_strlit("");
                assert(""@ =~= Seq::<char>::empty());
            }
            ("".to_owned(), true)
        } else {
            let mut i: usize = rlen + 1;
            while i < plen
                invariant
                    rlen + 1 <= i <= plen,
                    plen == path@.len(),
                    forall|k: int| rlen + 1 <= k < i ==> path@[k] != '/',
                decreases plen - i,
            {
                if path.get_char(i) == '/' {
                    break;
                }
                i += 1;
            }
            let name = path.substring_char(rlen + 1, i).to_owned();
            proof {
                let rest = path@.skip(rlen as int + 1);
                lemma_first_component_at(rest, i - rlen - 1);
                assert(name@ =~= rest.subrange(0, i - rlen - 1));
            }
            (name, true)
        }
    } else {
        (path.to_owned(), false)
    }
}

/// Where a plugin input resolves: a directory path as given, a directory
/// under the plugin root, or the resolved source of a same-named registry
/// entry whose directory exists.
pub open spec fn resolve_plugin_spec(
    dirs: Set<Seq<char>>,
    plugins: Seq<EntryView>,
    input: Seq<char>,
    project_root: Seq<char>,
    plugin_root_abs: Seq<char>,
) -> Option<Seq<char>> {
    if dirs.contains(input) {
        Some(input)
    } else if dirs.contains(plugin_root_abs + seq!['/'] + input) {
        Some(plugin_root_abs + seq!['/'] + input)
    } else {
        match first_named(plugins, input) {
            Some(e) => {
                let resolved = resolve_source_spec(e.source, project_root, plugin_root_abs);
                if dirs.contains(resolved) {
                    Some(resolved)
                } else {
                    None
                }
            },
            None => None,
        }
    }
}

/// The first entry named `name`, if any.
pub open spec fn first_named(plugins: Seq<EntryView>, name: Seq<char>) -> Option<EntryView>
    decreases plugins.len(),
{
    if plugins.len() == 0 {
        None
    } else if plugins[0].name == name {
        Some(plugins[0])
    } else {
        first_named(plugins.drop_first(), name)
    }
}

/// Finds the index of the first entry named `name` in the document's list.
#[verifier::loop_isolation(false)]
pub fn find_entry_index(m: &crate::types::Marketplace, name: &str) -> (r: Option<usize>)
    ensures
        match r {
            Some(i) => i < m.plugins@.len() && first_named(m@.plugins, name@) == Some(
                m@.plugins[i as int],
            ) && m@.plugins[i as int].name == name@ && (forall|j: int|
                0 <= j < i ==> m@.plugins[j].name != name@),
            None => first_named(m@.plugins, name@) is None,
        },
{
    let n = m.plugins.len();
    let mut i: usize = 0;
    proof {
        assert(m@.plugins.skip(0) =~= m@.plugins);
    }
    while i < n
        invariant
            i <= n,
            n == m.plugins@.len(),
            first_named(m@.plugins, name@) == first_named(m@.plugins.skip(i as int), name@),
            forall|j: int| 0 <= j < i ==> m@.plugins[j].name != name@,
        decreases n - i,
    {
        proof {
            assert(m@.plugins.skip(i as int).drop_first() =~= m@.plugins.skip(i as int + 1));
            assert(m@.plugins.skip(i as int)[0] == m@.plugins[i as int]);
        }
        if crate::paths::str_eq(m.plugins[i].name.as_str(), name) {
            return Some(i);
        }
        i += 1;
    }
    proof {
        assert(m@.plugins.skip(n as int) =~= Seq::<EntryView>::empty());
    }
    None
}

/// A name that `first_named` does not find occurs nowhere.
pub proof fn lemma_first_named_absent(ps: Seq<EntryView>, name: Seq<char>)
    requires
        first_named(ps, name) is None,
    ensures
        forall|j: int| 0 <= j < ps.len() ==> ps[j].name != name,
    decreases ps.len(),
{
    if ps.len() > 0 {
        lemma_first_named_absent(ps.drop_first(), name);
        assert forall|j: int| 0 <= j < ps.len() implies ps[j].name != name by {
            if j > 0 {
                assert(ps.drop_first()[j - 1].name != name);
            }
        }
    }
}

/// Resolves a plugin input — a path or a name — to a directory path.
pub fn resolve_plugin(fs: &Fs, input: &str, config: Option<&MarketplaceConfig>) -> (r: Result<
    String,
    SoukError,
>)
    requires
        fs.wf(),
    ensures
        match config {
            Some(c) => match r {
                Ok(p) => resolve_plugin_spec(
                    fs.dir_set(),
                    c.marketplace@.plugins,
                    input@,
                    c.project_root@,
                    c.plugin_root_abs@,
                ) == Some(p@),
                Err(e) => resolve_plugin_spec(
                    fs.dir_set(),
                    c.marketplace@.plugins,
                    input@,
                    c.project_root@,
                    c.plugin_root_abs@,
                ) is None && (e matches SoukError::PluginNotFound(n) && n@ == input@),
            },
            None => match r {
                Ok(p) => p@ == input@ && fs.dir_set().contains(input@),
                Err(e) => !fs.dir_set().contains(input@) && (e
                    matches SoukError::PluginNotFound(n) && n@ == input@),
            },
        },
{
    if fs.has_dir(input) {
        return Ok(input.to_owned());
    }
    match config {
        Some(c) => {
            let relative = join(c.plugin_root_abs.as_str(), input);
            if fs.has_dir(relative.as_str()) {
                return Ok(relative);
            }
            match find_entry_index(&c.marketplace, input) {
                Some(i) => {
                    let resolved = match resolve_source(c.marketplace.plugins[i].source.as_str(), c)
                    {
                        Ok(p) => p,
                        Err(e) => {
                            return Err(e);
                        },
                    };
                    if fs.has_dir(resolved.as_str()) {
                        return Ok(resolved);
                    }
                },
                None => {},
            }
            Err(SoukError::PluginNotFound(input.to_owned()))
        },
        None => Err(SoukError::PluginNotFound(input.to_owned())),
    }
}

/// The basename a registry source contributes when matching directories on
/// disk: its final path component, or the source itself when that component
/// is empty.
pub open spec fn source_basename(source: Seq<char>) -> Seq<char> {
    if basename_spec(source).len() > 0 {
        basename_spec(source)
    } else {
        source
    }
}

/// Computes the basename of a source string.
pub fn source_basename_of(source: &str) -> (r: String)
    ensures
        r@ == source_basename(source@),
{
    let b = basename(source);
    if b.as_str().unicode_len() > 0 {
        b
    } else {
        source.to_owned()
    }
}

} // verus!
