//! The registry document model: the manifest's entries and the per-plugin
//! manifest, with their JSON extraction and rendering.
//!
//! Extraction from [`Json`] is verified against spec functions that mirror it
//! exactly; rendering has an exact character-level specification, so the
//! mutation pipelines can state the precise text they write.

use vstd::prelude::*;

use crate::json::{quoted, Json};

verus! {

/// One plugin entry of the registry document.
#[derive(Debug)]
pub struct PluginEntry {
    pub name: String,
    pub source: String,
    pub tags: Vec<String>,
}

/// The registry document: a version, an optional plugin-root override, and an
/// ordered list of entries. Name uniqueness is enforced by the validator, not
/// by this type: transient duplicates are legal mid-pipeline.
#[derive(Debug)]
pub struct Marketplace {
    pub version: String,
    pub plugin_root: Option<String>,
    pub plugins: Vec<PluginEntry>,
}

/// One per-plugin manifest. Each named field is `Some` exactly when the file
/// held a JSON string there; absent, `null` and non-string values all read as
/// `None`, so a malformed-but-parseable manifest still reports precise
/// diagnostics instead of failing to load.
#[derive(Debug)]
pub struct PluginManifest {
    pub name: Option<String>,
    pub version: Option<String>,
    pub description: Option<String>,
    pub keywords: Vec<String>,
}

#[verifier::ext_equal]
pub struct EntryView {
    pub name: Seq<char>,
    pub source: Seq<char>,
    pub tags: Seq<Seq<char>>,
}

#[verifier::ext_equal]
pub struct MarketView {
    pub version: Seq<char>,
    pub plugin_root: Option<Seq<char>>,
    pub plugins: Seq<EntryView>,
}

#[verifier::ext_equal]
pub struct ManifestView {
    pub name: Option<Seq<char>>,
    pub version: Option<Seq<char>>,
    pub description: Option<Seq<char>>,
    pub keywords: Seq<Seq<char>>,
}

impl View for PluginEntry {
    type V = EntryView;

    open spec fn view(&self) -> EntryView {
        EntryView {
            name: self.name@,
            source: self.source@,
            tags: Seq::new(self.tags@.len(), |i: int| self.tags@[i]@),
        }
    }
}

impl View for Marketplace {
    type V = MarketView;

    open spec fn view(&self) -> MarketView {
        MarketView {
            version: self.version@,
            plugin_root: match self.plugin_root {
                Some(r) => Some(r@),
                None => None,
            },
            plugins: Seq::new(self.plugins@.len(), |i: int| self.plugins@[i]@),
        }
    }
}

impl View for PluginManifest {
    type V = ManifestView;

    open spec fn view(&self) -> ManifestView {
        ManifestView {
            name: match self.name {
                Some(s) => Some(s@),
                None => None,
            },
            version: match self.version {
                Some(s) => Some(s@),
                None => None,
            },
            description: match self.description {
                Some(s) => Some(s@),
                None => None,
            },
            keywords: Seq::new(self.keywords@.len(), |i: int| self.keywords@[i]@),
        }
    }
}

/// The default plugin-root override, used when the manifest names none.
pub fn default_plugin_root() -> (r: String)
    ensures
        r@ == dpr_text(),
{
    proof {
        reveal_strlit("./plugins");
    }
    let r = "./plugins".to_owned();
    r
}

pub open spec fn dpr_text() -> Seq<char> {
    seq!['.', '/', 'p', 'l', 'u', 'g', 'i', 'n', 's']
}

impl MarketView {
    /// The plugin root as configured, or the default.
    pub open spec fn plugin_root_spec(self) -> Seq<char> {
        match self.plugin_root {
            Some(r) => r,
            None => dpr_text(),
        }
    }

    /// The plugin root with a `./` put in front unless it already starts with
    /// `./` or `/`.
    pub open spec fn normalized_plugin_root_spec(self) -> Seq<char> {
        let root = self.plugin_root_spec();
        if root.len() >= 2 && root[0] == '.' && root[1] == '/' {
            root
        } else if root.len() >= 1 && root[0] == '/' {
            root
        } else {
            seq!['.', '/'] + root
        }
    }
}

impl Marketplace {

    pub fn plugin_root(&self) -> (r: &str)
        ensures
            r@ == self@.plugin_root_spec(),
    {
        match &self.plugin_root {
            Some(r) => r.as_str(),
            None => {
                proof {
                    reveal_strlit("./plugins");
                }
                "./plugins"
            },
        }
    }

    pub fn normalized_plugin_root(&self) -> (r: String)
        ensures
            r@ == self@.normalized_plugin_root_spec(),
    {
        let root = self.plugin_root();
        let len = root.unicode_len();
        let dotted = len >= 2 && root.get_char(0) == '.' && root.get_char(1) == '/';
        let absolute = len >= 1 && root.get_char(0) == '/';
        if dotted || absolute {
            root.to_owned()
        } else {
            let mut s = "./".to_owned();
            s.append(root);
            proof {
                reveal_strlit("./");
                assert(s@ =~= seq!['.', '/'] + root@);
            }
            s
        }
    }
}

impl PluginManifest {
    /// The `name` field's text, when the file held a string there.
    pub open spec fn name_spec(self) -> Option<Seq<char>> {
        match self.name {
            Some(s) => Some(s@),
            None => None,
        }
    }

    pub open spec fn version_spec(self) -> Option<Seq<char>> {
        match self.version {
            Some(s) => Some(s@),
            None => None,
        }
    }

    pub open spec fn description_spec(self) -> Option<Seq<char>> {
        match self.description {
            Some(s) => Some(s@),
            None => None,
        }
    }

    pub fn name_str(&self) -> (r: Option<&String>)
        ensures
            match r {
                Some(s) => self.name_spec() == Some(s@),
                None => self.name_spec() is None,
            },
    {
        match &self.name {
            Some(s) => Some(s),
            None => None,
        }
    }

    pub fn version_str(&self) -> (r: Option<&String>)
        ensures
            match r {
                Some(s) => self.version_spec() == Some(s@),
                None => self.version_spec() is None,
            },
    {
        match &self.version {
            Some(s) => Some(s),
            None => None,
        }
    }

    pub fn description_str(&self) -> (r: Option<&String>)
        ensures
            match r {
                Some(s) => self.description_spec() == Some(s@),
                None => self.description_spec() is None,
            },
    {
        match &self.description {
            Some(s) => Some(s),
            None => None,
        }
    }
}

/// The first value under `key` in an object's fields, if any.
pub open spec fn obj_lookup(fields: Seq<(String, Json)>, key: Seq<char>) -> Option<Json>
    decreases fields.len(),
{
    if fields.len() == 0 {
        None
    } else if fields[0].0@ == key {
        Some(fields[0].1)
    } else {
        obj_lookup(fields.drop_first(), key)
    }
}

/// Looks a key up in an object's fields.
#[verifier::loop_isolation(false)]
pub fn lookup<'a>(fields: &'a Vec<(String, Json)>, key: &str) -> (r: Option<&'a Json>)
    ensures
        match r {
            Some(v) => obj_lookup(fields@, key@) == Some(*v),
            None => obj_lookup(fields@, key@) is None,
        },
{
    let n = fields.len();
    let mut i: usize = 0;
    proof {
        assert(fields@.skip(0) =~= fields@);
    }
    while i < n
        invariant
            i <= n,
            obj_lookup(fields@, key@) == obj_lookup(fields@.skip(i as int), key@),
        decreases n - i,
    {
        proof {
            assert(fields@.skip(i as int).drop_first() =~= fields@.skip(i as int + 1));
            assert(fields@.skip(i as int)[0] == fields@[i as int]);
        }
        if crate::paths::str_eq(fields[i].0.as_str(), key) {
            return Some(&fields[i].1);
        }
        i += 1;
    }
    proof {
        assert(fields@.skip(n as int) =~= Seq::<(String, Json)>::empty());
    }
    None
}

pub open spec fn k_name() -> Seq<char> {
    seq!['n', 'a', 'm', 'e']
}

pub open spec fn k_source() -> Seq<char> {
    seq!['s', 'o', 'u', 'r', 'c', 'e']
}

pub open spec fn k_tags() -> Seq<char> {
    seq!['t', 'a', 'g', 's']
}

pub open spec fn k_version() -> Seq<char> {
    seq!['v', 'e', 'r', 's', 'i', 'o', 'n']
}

pub open spec fn k_description() -> Seq<char> {
    seq!['d', 'e', 's', 'c', 'r', 'i', 'p', 't', 'i', 'o', 'n']
}

pub open spec fn k_keywords() -> Seq<char> {
    seq!['k', 'e', 'y', 'w', 'o', 'r', 'd', 's']
}

pub open spec fn k_plugin_root() -> Seq<char> {
    seq!['p', 'l', 'u', 'g', 'i', 'n', 'R', 'o', 'o', 't']
}

pub open spec fn k_plugins() -> Seq<char> {
    seq!['p', 'l', 'u', 'g', 'i', 'n', 's']
}

/// The texts of a JSON array that holds strings only; `None` otherwise.
pub open spec fn str_items(items: Seq<Json>) -> Option<Seq<Seq<char>>>
    decreases items.len(),
{
    if items.len() == 0 {
        Some(Seq::empty())
    } else {
        match items.last() {
            Json::Str(s) => match str_items(items.drop_last()) {
                Some(ts) => Some(ts.push(s@)),
                None => None,
            },
            _ => None,
        }
    }
}

/// How one registry entry reads from a JSON value: an object whose `name` and
/// `source` are strings, with `tags` an optional array of strings.
pub open spec fn entry_of_json(v: Json) -> Option<EntryView> {
    match v {
        Json::Obj(fields) => match (obj_lookup(fields@, k_name()), obj_lookup(
            fields@,
            k_source(),
        )) {
            (Some(Json::Str(nm)), Some(Json::Str(src))) => match obj_lookup(fields@, k_tags()) {
                None => Some(EntryView { name: nm@, source: src@, tags: Seq::empty() }),
                Some(Json::Arr(items)) => match str_items(items@) {
                    Some(ts) => Some(EntryView { name: nm@, source: src@, tags: ts }),
                    None => None,
                },
                Some(_) => None,
            },
            _ => None,
        },
        _ => None,
    }
}

pub open spec fn entries_of_json(items: Seq<Json>) -> Option<Seq<EntryView>>
    decreases items.len(),
{
    if items.len() == 0 {
        Some(Seq::empty())
    } else {
        match entry_of_json(items.last()) {
            Some(e) => match entries_of_json(items.drop_last()) {
                Some(es) => Some(es.push(e)),
                None => None,
            },
            None => None,
        }
    }
}

/// How the registry document reads from a JSON value. `pluginRoot` defaults
/// to `./plugins` when absent and is cleared by an explicit `null`; unknown
/// keys are ignored.
pub open spec fn market_of_json(v: Json) -> Option<MarketView> {
    match v {
        Json::Obj(fields) => match (obj_lookup(fields@, k_version()), obj_lookup(
            fields@,
            k_plugins(),
        )) {
            (Some(Json::Str(ver)), Some(Json::Arr(items))) => match entries_of_json(items@) {
                Some(es) => match obj_lookup(fields@, k_plugin_root()) {
                    None => Some(
                        MarketView { version: ver@, plugin_root: Some(dpr_text()), plugins: es },
                    ),
                    Some(Json::Null) => Some(
                        MarketView { version: ver@, plugin_root: None, plugins: es },
                    ),
                    Some(Json::Str(r)) => Some(
                        MarketView { version: ver@, plugin_root: Some(r@), plugins: es },
                    ),
                    Some(_) => None,
                },
                None => None,
            },
            _ => None,
        },
        _ => None,
    }
}

/// How a per-plugin manifest reads from a JSON value: each named field is
/// kept when it is a string; `keywords` must be an array of strings when
/// present.
pub open spec fn manifest_of_json(v: Json) -> Option<ManifestView> {
    match v {
        Json::Obj(fields) => {
            let kw = match obj_lookup(fields@, k_keywords()) {
                None => Some(Seq::<Seq<char>>::empty()),
                Some(Json::Arr(items)) => str_items(items@),
                Some(_) => None,
            };
            match kw {
                Some(ts) => Some(
                    ManifestView {
                        name: str_field(fields@, k_name()),
                        version: str_field(fields@, k_version()),
                        description: str_field(fields@, k_description()),
                        keywords: ts,
                    },
                ),
                None => None,
            }
        },
        _ => None,
    }
}

/// The text under `key`, when the object holds a string there.
pub open spec fn str_field(fields: Seq<(String, Json)>, key: Seq<char>) -> Option<Seq<char>> {
    match obj_lookup(fields, key) {
        Some(Json::Str(s)) => Some(s@),
        _ => None,
    }
}

/// Reads the strings out of a JSON array, or `None` if a non-string occurs.
#[verifier::loop_isolation(false)]
pub fn extract_str_items(items: &Vec<Json>) -> (r: Option<Vec<String>>)
    ensures
        match r {
            Some(ts) => str_items(items@) == Some(
                Seq::new(ts@.len(), |i: int| ts@[i]@),
            ),
            None => str_items(items@) is None,
        },
{
    let n = items.len();
    let mut out: Vec<String> = Vec::new();
    let mut i: usize = 0;
    while i < n
        invariant
            i <= n,
            str_items(items@.subrange(0, i as int)) == Some(
                Seq::new(out@.len(), |k: int| out@[k]@),
            ),
        decreases n - i,
    {
        proof {
            assert(items@.subrange(0, i as int + 1).drop_last() =~= items@.subrange(0, i as int));
        }
        match &items[i] {
            Json::Str(s) => {
                out.push(s.clone());
                proof {
                    assert(Seq::new(out@.len(), |k: int| out@[k]@) =~= str_items(
                        items@.subrange(0, i as int + 1),
                    )->Some_0);
                }
            },
            _ => {
                proof {
                    lemma_str_items_none(items@, i as int);
                }
                return None;
            },
        }
        i += 1;
    }
    proof {
        assert(items@.subrange(0, n as int) =~= items@);
    }
    Some(out)
}

/// If some element is not a string, the whole array yields `None`.
proof fn lemma_str_items_none(items: Seq<Json>, i: int)
    requires
        0 <= i < items.len(),
        !(items[i] is Str),
    ensures
        str_items(items) is None,
    decreases items.len(),
{
    if i < items.len() - 1 {
        lemma_str_items_none(items.drop_last(), i);
    }
}

/// Reads a registry entry out of a JSON value.
#[verifier::loop_isolation(false)]
pub fn extract_entry(v: &Json) -> (r: Option<PluginEntry>)
    ensures
        match r {
            Some(e) => entry_of_json(*v) == Some(e@),
            None => entry_of_json(*v) is None,
        },
{
    proof {
        reveal_strlit("name");
        reveal_strlit("source");
        reveal_strlit("tags");
        assert("name"@ =~= k_name());
        assert("source"@ =~= k_source());
        assert("tags"@ =~= k_tags());
    }
    match v {
        Json::Obj(fields) => {
            let name = match lookup(fields, "name") {
                Some(Json::Str(s)) => s.clone(),
                _ => {
                    return None;
                },
            };
            let source = match lookup(fields, "source") {
                Some(Json::Str(s)) => s.clone(),
                _ => {
                    return None;
                },
            };
            let tags = match lookup(fields, "tags") {
                None => Vec::new(),
                Some(Json::Arr(items)) => match extract_str_items(items) {
                    Some(ts) => ts,
                    None => {
                        return None;
                    },
                },
                Some(_) => {
                    return None;
                },
            };
            let e = PluginEntry { name, source, tags };
            proof {
                assert(entry_of_json(*v)->Some_0 =~= e@);
            }
            Some(e)
        },
        _ => None,
    }
}

/// Reads the registry document out of a JSON value.
#[verifier::loop_isolation(false)]
pub fn extract_marketplace(v: &Json) -> (r: Option<Marketplace>)
    ensures
        match r {
            Some(m) => market_of_json(*v) == Some(m@),
            None => market_of_json(*v) is None,
        },
{
    proof {
        reveal_strlit("version");
        reveal_strlit("plugins");
        reveal_strlit("pluginRoot");
        assert("version"@ =~= k_version());
        assert("plugins"@ =~= k_plugins());
        assert("pluginRoot"@ =~= k_plugin_root());
    }
    match v {
        Json::Obj(fields) => {
            let version = match lookup(fields, "version") {
                Some(Json::Str(s)) => s.clone(),
                _ => {
                    return None;
                },
            };
            let items = match lookup(fields, "plugins") {
                Some(Json::Arr(items)) => items,
                _ => {
                    return None;
                },
            };
            let n = items.len();
            let mut plugins: Vec<PluginEntry> = Vec::new();
            let mut i: usize = 0;
            while i < n
                invariant
                    i <= n,
                    n == items@.len(),
                    entries_of_json(items@.subrange(0, i as int)) == Some(
                        Seq::new(plugins@.len(), |k: int| plugins@[k]@),
                    ),
                decreases n - i,
            {
                proof {
                    assert(items@.subrange(0, i as int + 1).drop_last() =~= items@.subrange(
                        0,
                        i as int,
                    ));
                }
                match extract_entry(&items[i]) {
                    Some(e) => {
                        plugins.push(e);
                        proof {
                            assert(Seq::new(plugins@.len(), |k: int| plugins@[k]@)
                                =~= entries_of_json(items@.subrange(0, i as int + 1))->Some_0);
                        }
                    },
                    None => {
                        proof {
                            lemma_entries_none(items@, i as int);
                        }
                        return None;
                    },
                }
                i += 1;
            }
            proof {
                assert(items@.subrange(0, n as int) =~= items@);
            }
            let plugin_root = match lookup(fields, "pluginRoot") {
                None => Some(default_plugin_root()),
                Some(Json::Null) => None,
                Some(Json::Str(r)) => Some(r.clone()),
                Some(_) => {
                    return None;
                },
            };
            let m = Marketplace { version, plugin_root, plugins };
            proof {
                assert(market_of_json(*v)->Some_0 =~= m@);
            }
            Some(m)
        },
        _ => None,
    }
}

proof fn lemma_entries_none(items: Seq<Json>, i: int)
    requires
        0 <= i < items.len(),
        entry_of_json(items[i]) is None,
    ensures
        entries_of_json(items) is None,
    decreases items.len(),
{
    if i < items.len() - 1 {
        lemma_entries_none(items.drop_last(), i);
    }
}

/// Reads a per-plugin manifest out of a JSON value.
pub fn extract_manifest(v: &Json) -> (r: Option<PluginManifest>)
    ensures
        match r {
            Some(m) => manifest_of_json(*v) == Some(m@),
            None => manifest_of_json(*v) is None,
        },
{
    proof {
        reveal_strlit("name");
        reveal_strlit("version");
        reveal_strlit("description");
        reveal_strlit("keywords");
        assert("name"@ =~= k_name());
        assert("version"@ =~= k_version());
        assert("description"@ =~= k_description());
        assert("keywords"@ =~= k_keywords());
    }
    match v {
        Json::Obj(fields) => {
            let keywords = match lookup(fields, "keywords") {
                None => Vec::new(),
                Some(Json::Arr(items)) => match extract_str_items(items) {
                    Some(ts) => ts,
                    None => {
                        return None;
                    },
                },
                Some(_) => {
                    return None;
                },
            };
            let name = copy_str_field(lookup(fields, "name"));
            let version = copy_str_field(lookup(fields, "version"));
            let description = copy_str_field(lookup(fields, "description"));
            let m = PluginManifest { name, version, description, keywords };
            proof {
                assert(manifest_of_json(*v)->Some_0 =~= m@);
            }
            Some(m)
        },
        _ => None,
    }
}

/// Clones a looked-up field value when it is a string.
fn copy_str_field(v: Option<&Json>) -> (r: Option<String>)
    ensures
        (match v {
            Some(Json::Str(s)) => r matches Some(c) && c@ == s@,
            _ => r is None,
        }),
{
    match v {
        Some(Json::Str(s)) => Some(s.clone()),
        _ => None,
    }
}


/// The rendered texts of a string array's elements, comma separated.
pub open spec fn strings_text(ts: Seq<Seq<char>>) -> Seq<char>
    decreases ts.len(),
{
    if ts.len() == 0 {
        Seq::empty()
    } else if ts.len() == 1 {
        quoted(ts[0])
    } else {
        strings_text(ts.drop_last()) + seq![','] + quoted(ts.last())
    }
}

/// The exact text this crate writes for one registry entry: `name` and
/// `source` always, `tags` only when non-empty.
pub open spec fn entry_text(e: EntryView) -> Seq<char> {
    seq!['{'] + quoted(k_name()) + seq![':'] + quoted(e.name) + seq![','] + quoted(k_source())
        + seq![':'] + quoted(e.source) + (if e.tags.len() == 0 {
        Seq::<char>::empty()
    } else {
        seq![','] + quoted(k_tags()) + seq![':', '['] + strings_text(e.tags) + seq![']']
    }) + seq!['}']
}

pub open spec fn entries_text(es: Seq<EntryView>) -> Seq<char>
    decreases es.len(),
{
    if es.len() == 0 {
        Seq::empty()
    } else if es.len() == 1 {
        entry_text(es[0])
    } else {
        entries_text(es.drop_last()) + seq![','] + entry_text(es.last())
    }
}

/// The exact text this crate writes for the registry document: `version`,
/// then `pluginRoot` when set, then `plugins`.
pub open spec fn market_text(m: MarketView) -> Seq<char> {
    seq!['{'] + quoted(k_version()) + seq![':'] + quoted(m.version) + (match m.plugin_root {
        None => Seq::<char>::empty(),
        Some(r) => seq![','] + quoted(k_plugin_root()) + seq![':'] + quoted(r),
    }) + seq![','] + quoted(k_plugins()) + seq![':', '['] + entries_text(m.plugins) + seq![
        ']',
        '}',
    ]
}

/// The registry file's content: the document text and a final newline.
pub open spec fn market_file_text(m: MarketView) -> Seq<char> {
    market_text(m) + seq!['\n']
}

/// Appends one entry's text to `out`.
#[verifier::loop_isolation(false)]
#[verifier::rlimit(60)]
fn append_entry(out: &mut String, e: &PluginEntry)
    ensures
        final(out)@ == old(out)@ + entry_text(e@),
{
    proof {
        reveal_strlit("name");
        reveal_strlit("source");
        reveal_strlit("tags");
        reveal_strlit("{");
        reveal_strlit("}");
        reveal_strlit(":");
        reveal_strlit(",");
        reveal_strlit("[");
        reveal_strlit("]");
        assert("name"@ =~= k_name());
        assert("source"@ =~= k_source());
        assert("tags"@ =~= k_tags());
    }
    out.append("{");
    crate::json::append_quoted(out, "name");
    out.append(":");
    crate::json::append_quoted(out, e.name.as_str());
    out.append(",");
    crate::json::append_quoted(out, "source");
    out.append(":");
    crate::json::append_quoted(out, e.source.as_str());
    if e.tags.len() > 0 {
        out.append(",");
        crate::json::append_quoted(out, "tags");
        out.append(":");
        out.append("[");
        let ghost opened = out@;
        let n = e.tags.len();
        let mut i: usize = 0;
        while i < n
            invariant
                i <= n,
                n == e.tags@.len(),
                out@ == opened + strings_text(e@.tags.subrange(0, i as int)),
            decreases n - i,
        {
            proof {
                assert(e@.tags.subrange(0, i as int + 1).drop_last() =~= e@.tags.subrange(
                    0,
                    i as int,
                ));
                assert(e@.tags.subrange(0, i as int + 1).last() == e@.tags[i as int]);
            }
            if i > 0 {
                out.append(",");
            }
            crate::json::append_quoted(out, e.tags[i].as_str());
            proof {
                assert(out@ =~= opened + strings_text(e@.tags.subrange(0, i as int + 1)));
            }
            i += 1;
        }
        proof {
            assert(e@.tags.subrange(0, n as int) =~= e@.tags);
        }
        out.append("]");
    }
    out.append("}");
    proof {
        assert(out@ =~= old(out)@ + entry_text(e@));
    }
}

/// Renders the registry document as this crate's JSON text.
#[verifier::loop_isolation(false)]
#[verifier::rlimit(60)]
pub fn render_marketplace(m: &Marketplace) -> (r: String)
    ensures
        r@ == market_text(m@),
{
    proof {
        reveal_strlit("version");
        reveal_strlit("plugins");
        reveal_strlit("pluginRoot");
        reveal_strlit("{");
        reveal_strlit("}");
        reveal_strlit(":");
        reveal_strlit(",");
        reveal_strlit("[");
        reveal_strlit("]");
        assert("version"@ =~= k_version());
        assert("plugins"@ =~= k_plugins());
        assert("pluginRoot"@ =~= k_plugin_root());
    }
    let mut out = String::new();
    out.append("{");
    crate::json::append_quoted(&mut out, "version");
    out.append(":");
    crate::json::append_quoted(&mut out, m.version.as_str());
    match &m.plugin_root {
        Some(root) => {
            out.append(",");
            crate::json::append_quoted(&mut out, "pluginRoot");
            out.append(":");
            crate::json::append_quoted(&mut out, root.as_str());
        },
        None => {},
    }
    out.append(",");
    crate::json::append_quoted(&mut out, "plugins");
    out.append(":");
    out.append("[");
    let ghost opened = out@;
    let n = m.plugins.len();
    let mut i: usize = 0;
    while i < n
        invariant
            i <= n,
            n == m.plugins@.len(),
            out@ == opened + entries_text(m@.plugins.subrange(0, i as int)),
        decreases n - i,
    {
        proof {
            assert(m@.plugins.subrange(0, i as int + 1).drop_last() =~= m@.plugins.subrange(
                0,
                i as int,
            ));
            assert(m@.plugins.subrange(0, i as int + 1).last() == m@.plugins[i as int]);
        }
        if i > 0 {
            out.append(",");
        }
        append_entry(&mut out, &m.plugins[i]);
        proof {
            assert(out@ =~= opened + entries_text(m@.plugins.subrange(0, i as int + 1)));
        }
        i += 1;
    }
    proof {
        assert(m@.plugins.subrange(0, n as int) =~= m@.plugins);
    }
    out.append("]");
    out.append("}");
    proof {
        assert(out@ =~= market_text(m@));
    }
    out
}

/// Renders the registry document followed by a newline, the exact content the
/// mutation pipelines write to the manifest file.
pub fn render_marketplace_file(m: &Marketplace) -> (r: String)
    ensures
        r@ == market_file_text(m@),
{
    let mut out = render_marketplace(m);
    out.append("\n");
    proof {
        reveal_strlit("\n");
        assert(out@ =~= market_file_text(m@));
    }
    out
}

} // verus!
