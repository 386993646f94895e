//! Scaffolding a new registry: an empty manifest and the plugin root
//! directory, refusing to overwrite an existing manifest.

use vstd::prelude::*;

use crate::errors::SoukError;
use crate::fsm::Fs;
use crate::paths::{dirname_spec, has_slash, join, parent_dir, starts_with};
use crate::types::{market_file_text, MarketView, Marketplace};

verus! {

/// The document a fresh registry starts with: version `0.1.0`, the given
/// plugin root, no entries.
pub open spec fn scaffold_doc(root: Seq<char>) -> MarketView {
    MarketView { version: "0.1.0"@, plugin_root: Some(root), plugins: Seq::empty() }
}

/// Where the scaffolded plugin root directory lands: under the project root
/// (two levels up from the manifest), with a leading `./` stripped from the
/// given root.
pub open spec fn scaffold_root_dir(mp: Seq<char>, root: Seq<char>) -> Seq<char> {
    let stripped = if root.len() >= 2 && root[0] == '.' && root[1] == '/' {
        root.skip(2)
    } else {
        root
    };
    dirname_spec(dirname_spec(mp)) + seq!['/'] + stripped
}

/// A path without a separator has the empty path as its parent.
proof fn lemma_dirname_no_slash(s: Seq<char>)
    requires
        !has_slash(s),
    ensures
        dirname_spec(s) == Seq::<char>::empty(),
    decreases s.len(),
{
    if s.len() == 0 {
        assert(dirname_spec(s) =~= Seq::<char>::empty());
    } else {
        assert(s[s.len() - 1] != '/');
        assert(!has_slash(s.drop_last())) by {
            if has_slash(s.drop_last()) {
                let i = choose|i: int|
                    0 <= i < s.drop_last().len() && s.drop_last()[i] == '/';
                assert(s[i] == '/');
            }
        }
        lemma_dirname_no_slash(s.drop_last());
    }
}

/// Everything before the last separator, or the empty path.
fn dirname_of(s: &str) -> (r: String)
    ensures
        r@ == dirname_spec(s@),
{
    match parent_dir(s) {
        Some(d) => d,
        None => {
            proof {
                lemma_dirname_no_slash(s@);
                reveal_strlit("");
                assert(""@ =~= Seq::<char>::empty());
            }
            "".to_owned()
        },
    }
}

/// Creates a new registry at `mp_path`: the manifest with version `0.1.0`,
/// the given plugin root and no entries, plus the plugin root directory
/// itself. Refuses to overwrite an existing manifest, changing nothing then.
pub fn scaffold_marketplace(fs: &mut Fs, mp_path: &str, plugin_root: &str) -> (r: Result<
    (),
    SoukError,
>)
    requires
        old(fs).wf(),
    ensures
        final(fs).wf(),
        old(fs).file_map().contains_key(mp_path@) ==> (r matches Err(
            SoukError::MarketplaceAlreadyExists(p),
        ) && p@ == mp_path@) && *final(fs) == *old(fs),
        !old(fs).file_map().contains_key(mp_path@) ==> r is Ok && final(fs).file_map() == old(fs).file_map().insert(mp_path@, market_file_text(scaffold_doc(plugin_root@))) && final(fs).dir_set() == old(fs).dir_set().insert(scaffold_root_dir(mp_path@, plugin_root@)),
{
    if fs.has_file(mp_path) {
        return Err(SoukError::MarketplaceAlreadyExists(mp_path.to_owned()));
    }
    let doc = Marketplace {
        version: "0.1.0".to_owned(),
        plugin_root: Some(plugin_root.to_owned()),
        plugins: Vec::new(),
    };
    proof {
        assert(doc@ =~= scaffold_doc(plugin_root@));
    }
    let content = crate::types::render_marketplace_file(&doc);
    fs.write_file(mp_path, content);

    let meta_dir = dirname_of(mp_path);
    let project_root = dirname_of(meta_dir.as_str());
    let len = plugin_root.unicode_len();
    let rooted = if starts_with(plugin_root, "./") {
        proof {
            reveal_strlit("./");
            assert(plugin_root@.subrange(0, 2) =~= seq![plugin_root@[0], plugin_root@[1]]);
        }
        let rest = plugin_root.substring_char(2, len);
        join(project_root.as_str(), rest)
    } else {
        proof {
            reveal_strlit("./");
            if plugin_root@.len() >= 2 && plugin_root@[0] == '.' && plugin_root@[1] == '/' {
                assert(plugin_root@.subrange(0, 2) =~= "./"@);
            }
        }
        join(project_root.as_str(), plugin_root)
    };
    proof {
        assert(rooted@ == scaffold_root_dir(mp_path@, plugin_root@));
    }
    fs.mkdir(rooted.as_str());
    Ok(())
}

} // verus!
